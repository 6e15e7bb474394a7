use promptforge::excerpt::{excerpt_from_text, slice_prefix, slice_suffix};
use sha2::{Digest, Sha256};

#[test]
fn whole_content_within_the_budget_is_kept() {
    let content = "Alpha\nBeta\nGamma";
    let r = excerpt_from_text(
        "/corpus/sample.txt".to_string(),
        content.len() as u64,
        content.as_bytes(),
        None,
    );
    assert_eq!(r.path, "/corpus/sample.txt");
    assert_eq!(r.size_bytes, content.len() as u64);
    assert_eq!(r.used_bytes, content.len() as u64);
    assert!(!r.truncated);
    assert_eq!(r.excerpt, content);
    assert_eq!(r.sha256, hex::encode(Sha256::digest(content.as_bytes())));
}

#[test]
fn over_budget_content_keeps_head_and_tail_around_the_marker() {
    let content = "ABCDEFGHIJKLMNOPQRSTUVWXYZ0123456789";
    let max_bytes = 20u64;
    let r = excerpt_from_text(
        "/corpus/long.txt".to_string(),
        content.len() as u64,
        content.as_bytes(),
        Some(max_bytes),
    );
    assert!(r.truncated);
    assert_eq!(r.used_bytes, max_bytes);
    let expected_head = &content[..15];
    let expected_tail = &content[content.len() - 5..];
    assert!(r.excerpt.contains("...[TRUNCATED]..."));
    assert_eq!(
        r.excerpt,
        format!("{}\n\n...[TRUNCATED]...\n\n{}", expected_head, expected_tail)
    );
    assert_eq!(r.sha256, hex::encode(Sha256::digest(content.as_bytes())));
}

#[test]
fn digest_matches_a_known_value() {
    let r = excerpt_from_text("p".to_string(), 3, b"abc", None);
    assert_eq!(
        r.sha256,
        "ba7816bf8f01cfea414140de5dae2223b00361a396177a9cb410ff61f20015ad"
    );
}

#[test]
fn a_zero_budget_empties_the_excerpt() {
    let r = excerpt_from_text("p".to_string(), 4, b"text", Some(0));
    assert!(r.truncated);
    assert_eq!(r.used_bytes, 0);
    assert_eq!(r.excerpt, "");
}

#[test]
fn cuts_never_split_a_character() {
    // Two-byte characters: a cut budget landing mid-character backs off.
    let text = "ééé"; // six bytes
    assert_eq!(slice_prefix(text.as_bytes(), 3), "é".as_bytes());
    assert_eq!(slice_prefix(text.as_bytes(), 4), "éé".as_bytes());
    assert_eq!(slice_suffix(text.as_bytes(), 3), "é".as_bytes());
    assert_eq!(slice_suffix(text.as_bytes(), 4), "éé".as_bytes());
}

#[test]
fn slices_cap_at_the_whole_text() {
    assert_eq!(slice_prefix(b"abc", 10), b"abc");
    assert_eq!(slice_suffix(b"abc", 10), b"abc");
    assert_eq!(slice_prefix(b"abc", 0), b"");
    assert_eq!(slice_suffix(b"abc", 0), b"");
}
