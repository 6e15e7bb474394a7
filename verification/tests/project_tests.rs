use promptforge::project::{bytes_le, filter_project_entries, sort_entries_by_path, ProjectEntry};

fn entry(path: &str) -> ProjectEntry {
    ProjectEntry {
        path: path.to_string(),
        name: path.rsplit('/').next().unwrap_or(path).to_string(),
        size: path.len() as u64,
    }
}

fn allow(exts: &[&str]) -> Vec<Vec<u8>> {
    exts.iter().map(|e| e.as_bytes().to_vec()).collect()
}

#[test]
fn listing_filters_to_the_allow_list() {
    let entries = vec![entry("notes/allowed.md"), entry("notes/skip.exe")];
    let kept = filter_project_entries(&entries, &allow(&["md", "txt"]));
    assert_eq!(kept.len(), 1);
    assert_eq!(kept[0].path, "notes/allowed.md");
}

#[test]
fn filtering_ignores_ascii_case_of_extensions() {
    let entries = vec![entry("a/B.MD"), entry("a/c.Py"), entry("a/d.exe")];
    let kept = filter_project_entries(&entries, &allow(&["md", "py"]));
    let paths: Vec<&str> = kept.iter().map(|e| e.path.as_str()).collect();
    assert_eq!(paths, vec!["a/B.MD", "a/c.Py"]);
}

#[test]
fn entries_without_extension_are_filtered_out() {
    let entries = vec![entry("README"), entry("data.csv")];
    let kept = filter_project_entries(&entries, &allow(&["csv"]));
    assert_eq!(kept.len(), 1);
    assert_eq!(kept[0].path, "data.csv");
}

#[test]
fn listing_is_ordered_by_path() {
    let entries = vec![entry("z.md"), entry("a/b.md"), entry("a.md"), entry("a/a.md")];
    let sorted = sort_entries_by_path(entries);
    let paths: Vec<&str> = sorted.iter().map(|e| e.path.as_str()).collect();
    assert_eq!(paths, vec!["a.md", "a/a.md", "a/b.md", "z.md"]);
}

#[test]
fn the_path_order_is_byte_wise() {
    assert!(bytes_le(b"", b"a"));
    assert!(bytes_le(b"a", b"a"));
    assert!(bytes_le(b"a", b"ab"));
    assert!(!bytes_le(b"ab", b"a"));
    assert!(bytes_le(b"abc", b"abd"));
    assert!(!bytes_le(b"b", b"a"));
}
