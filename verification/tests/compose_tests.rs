use promptforge::compose::{
    compose_final_prompt, fragment_rel_path, merge_params, render_placeholders, replace_bytes,
};
use promptforge::digest::sha256_hex;
use promptforge::json::JsonValue;
use sha2::{Digest, Sha256};

fn s(text: &str) -> String {
    text.to_string()
}

fn pair(k: &str, v: &str) -> (Vec<u8>, Vec<u8>) {
    (k.as_bytes().to_vec(), v.as_bytes().to_vec())
}

#[test]
fn placeholders_are_replaced_pair_by_pair() {
    let template = b"Hello {{name}}, welcome to {{place}}! ({{name}})";
    let pairs = vec![pair("name", "Ada"), pair("place", "the lab")];
    let rendered = render_placeholders(template, &pairs);
    assert_eq!(rendered, b"Hello Ada, welcome to the lab! (Ada)".to_vec());
}

#[test]
fn unknown_placeholders_stay_as_written() {
    let rendered = render_placeholders(b"{{missing}} stays", &vec![pair("known", "x")]);
    assert_eq!(rendered, b"{{missing}} stays".to_vec());
}

#[test]
fn replacement_scans_left_to_right_without_overlap() {
    assert_eq!(replace_bytes(b"aaa", b"aa", b"b"), b"ba".to_vec());
    assert_eq!(replace_bytes(b"xyx", b"y", b"yy"), b"xyyx".to_vec());
    assert_eq!(replace_bytes(b"abc", b"", b"z"), b"abc".to_vec());
}

#[test]
fn fragment_ids_name_paths_under_the_fragment_directory() {
    assert_eq!(
        fragment_rel_path(b"system.prompt"),
        b"fragments/system/prompt.yaml".to_vec()
    );
    assert_eq!(fragment_rel_path(b"plain"), b"fragments/plain.yaml".to_vec());
}

#[test]
fn the_final_prompt_sets_the_user_input_off_verbatim() {
    let blocks = vec![b"one".to_vec(), b"two".to_vec()];
    let prompt = compose_final_prompt(&blocks, b"the question");
    assert_eq!(
        prompt,
        b"one\n\ntwo\n---\nUSER_INPUT (verbatim):\n```text\nthe question\n```".to_vec()
    );
    let digest = sha256_hex(&prompt);
    assert_eq!(digest, hex::encode(Sha256::digest(&prompt)));
}

#[test]
fn inline_parameters_override_recipe_parameters() {
    let base = JsonValue::Obj(vec![
        (s("a"), JsonValue::Str(s("base-a"))),
        (s("b"), JsonValue::Str(s("base-b"))),
    ]);
    let overlay = JsonValue::Obj(vec![
        (s("b"), JsonValue::Str(s("new-b"))),
        (s("c"), JsonValue::Str(s("new-c"))),
    ]);
    let merged = merge_params(&base, &overlay);
    assert_eq!(
        merged,
        JsonValue::Obj(vec![
            (s("a"), JsonValue::Str(s("base-a"))),
            (s("b"), JsonValue::Str(s("new-b"))),
            (s("c"), JsonValue::Str(s("new-c"))),
        ])
    );
}

#[test]
fn merging_into_a_non_object_keeps_the_base() {
    let base = JsonValue::Str(s("as-is"));
    let overlay = JsonValue::Obj(vec![(s("k"), JsonValue::Null)]);
    assert_eq!(merge_params(&base, &overlay), JsonValue::Str(s("as-is")));
}
