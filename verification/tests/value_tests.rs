use promptforge::json::JsonValue;
use promptforge::number::{parse_dec_u32, u32_to_dec};
use promptforge::text::{bytes_eq, str_eq};

fn s(text: &str) -> String {
    text.to_string()
}

#[test]
fn decimal_writing_and_reading_are_inverse() {
    for n in [0u32, 1, 9, 10, 42, 4099, u32::MAX] {
        let written = u32_to_dec(n);
        assert_eq!(parse_dec_u32(&written), Some(n));
    }
    assert_eq!(u32_to_dec(120), "120");
}

#[test]
fn only_plain_decimal_strings_parse() {
    assert_eq!(parse_dec_u32("007"), Some(7));
    assert_eq!(parse_dec_u32(""), None);
    assert_eq!(parse_dec_u32("-1"), None);
    assert_eq!(parse_dec_u32("1.5"), None);
    assert_eq!(parse_dec_u32("1e3"), None);
    assert_eq!(parse_dec_u32("4294967295"), Some(u32::MAX));
    assert_eq!(parse_dec_u32("4294967296"), None);
    assert_eq!(parse_dec_u32("九"), None);
}

#[test]
fn object_lookup_finds_the_first_binding() {
    let obj = JsonValue::Obj(vec![
        (s("k"), JsonValue::Str(s("first"))),
        (s("k"), JsonValue::Str(s("second"))),
        (s("other"), JsonValue::Bool(true)),
    ]);
    assert_eq!(obj.get("k").and_then(|v| v.as_str()), Some(&s("first")));
    assert_eq!(obj.get("other").and_then(|v| v.as_bool()), Some(true));
    assert_eq!(obj.get("absent"), None);
    assert_eq!(JsonValue::Null.get("k"), None);
}

#[test]
fn duplicates_are_deep_and_equal() {
    let v = JsonValue::Obj(vec![
        (s("arr"), JsonValue::Arr(vec![JsonValue::Num(s("1")), JsonValue::Null])),
        (s("s"), JsonValue::Str(s("x"))),
    ]);
    assert_eq!(v.duplicate(), v);
}

#[test]
fn byte_and_text_equality_follow_contents() {
    assert!(bytes_eq(b"abc", b"abc"));
    assert!(!bytes_eq(b"abc", b"abd"));
    assert!(!bytes_eq(b"abc", b"ab"));
    assert!(str_eq("日本語", "日本語"));
    assert!(!str_eq("a", "b"));
}
