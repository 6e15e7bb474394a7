use promptforge::json::JsonValue;
use promptforge::workspace::{
    decode_document, encode_v2, from_v1, load_document, project_to_v1, DocumentRead, LoadResult,
    WorkspaceTab, WorkspaceV1, WorkspaceV2,
};

fn s(text: &str) -> String {
    text.to_string()
}

fn sample_params() -> JsonValue {
    JsonValue::Obj(vec![(s("k"), JsonValue::Str(s("v")))])
}

fn sample_v1() -> WorkspaceV1 {
    WorkspaceV1 {
        version: 1,
        left_text: s("left"),
        right_text: s("right"),
        recipe_path: s("recipe.yaml"),
        model: s("model-x"),
        params: sample_params(),
        project_path: Some(s("project")),
        updated_at: s("2024-05-01T00:00:00Z"),
    }
}

fn sample_tab(id: &str) -> WorkspaceTab {
    WorkspaceTab {
        id: s(id),
        left_text: s("l"),
        right_text: s("r"),
        recipe_path: s("rp"),
        model: s("m"),
        params: JsonValue::Null,
        project_path: None,
        updated_at: s("t"),
    }
}

#[test]
fn converts_v1_json_to_v2() {
    let v1 = sample_v1();

    let v2 = from_v1(v1);

    assert_eq!(v2.version, 2);
    assert_eq!(v2.tabs.len(), 1);
    assert_eq!(v2.active_tab.as_deref(), Some("default"));

    let tab = &v2.tabs[0];
    assert_eq!(tab.id, "default");
    assert_eq!(tab.left_text, "left");
    assert_eq!(tab.right_text, "right");
    assert_eq!(tab.recipe_path, "recipe.yaml");
    assert_eq!(tab.model, "model-x");
    assert_eq!(tab.params, sample_params());
    assert_eq!(tab.project_path, Some(s("project")));
    assert_eq!(tab.updated_at, "2024-05-01T00:00:00Z");
}

#[test]
fn migrating_up_and_projecting_back_restores_the_record() {
    let v2 = from_v1(sample_v1());
    let back = project_to_v1(&v2).expect("one tab to project");
    assert_eq!(back, sample_v1());
}

#[test]
fn projection_picks_the_active_tab_with_first_tab_fallback() {
    let doc = WorkspaceV2 {
        version: 2,
        tabs: vec![sample_tab("a"), sample_tab("b")],
        active_tab: Some(s("b")),
    };
    assert_eq!(project_to_v1(&doc).unwrap().left_text, "l");
    assert_eq!(
        project_to_v1(&doc).unwrap().recipe_path,
        doc.tabs[1].recipe_path
    );

    let stale = WorkspaceV2 {
        version: 2,
        tabs: vec![sample_tab("a"), sample_tab("b")],
        active_tab: Some(s("gone")),
    };
    // A stale id falls back to the first tab.
    let picked = project_to_v1(&stale).unwrap();
    assert_eq!(picked.updated_at, stale.tabs[0].updated_at);

    let empty = WorkspaceV2 { version: 2, tabs: vec![], active_tab: None };
    assert!(project_to_v1(&empty).is_none());
}

#[test]
fn written_document_reads_back_unchanged() {
    let doc = WorkspaceV2 {
        version: 2,
        tabs: vec![sample_tab("a"), sample_tab("b")],
        active_tab: Some(s("a")),
    };
    let written = encode_v2(&doc);
    match decode_document(&written) {
        DocumentRead::Current(read) => assert_eq!(read, doc),
        other => panic!("expected the current shape back, got {:?}", other),
    }
}

#[test]
fn loading_an_older_document_migrates_it() {
    let older = encode_v1_object(&sample_v1());
    match load_document(Some(&older)) {
        LoadResult::Loaded { doc, migrated } => {
            assert!(migrated);
            assert_eq!(doc.version, 2);
            assert_eq!(doc.tabs.len(), 1);
            assert_eq!(doc.tabs[0].id, "default");
            assert_eq!(doc.active_tab.as_deref(), Some("default"));
        },
        other => panic!("expected a migrated document, got {:?}", other),
    }
}

#[test]
fn loading_nothing_is_not_an_error() {
    assert_eq!(load_document(None), LoadResult::NoDocument);
}

#[test]
fn a_future_version_is_never_guessed_at() {
    let mut fields = obj_fields_of_v1(&sample_v1());
    fields[0].1 = JsonValue::Num(s("3"));
    let doc = JsonValue::Obj(fields);
    assert_eq!(load_document(Some(&doc)), LoadResult::Unreadable);
}

#[test]
fn a_missing_version_tag_is_back_filled() {
    // A current-shaped document without a version tag loads as the
    // current version.
    let doc = JsonValue::Obj(vec![
        (s("tabs"), JsonValue::Arr(vec![])),
        (s("active_tab"), JsonValue::Null),
    ]);
    match load_document(Some(&doc)) {
        LoadResult::Loaded { doc, migrated } => {
            assert!(!migrated);
            assert_eq!(doc.version, 2);
            assert!(doc.tabs.is_empty());
            assert_eq!(doc.active_tab, None);
        },
        other => panic!("expected an empty current document, got {:?}", other),
    }
}

#[test]
fn documents_of_no_known_schema_are_parse_failures() {
    assert_eq!(load_document(Some(&JsonValue::Str(s("nope")))), LoadResult::Unreadable);
    assert_eq!(
        load_document(Some(&JsonValue::Obj(vec![(s("version"), JsonValue::Num(s("1")))]))),
        LoadResult::Unreadable
    );
    let bad_tabs = JsonValue::Obj(vec![(s("tabs"), JsonValue::Arr(vec![JsonValue::Null]))]);
    assert_eq!(load_document(Some(&bad_tabs)), LoadResult::Unreadable);
    let bad_version = JsonValue::Obj(vec![(s("version"), JsonValue::Str(s("two")))]);
    assert_eq!(load_document(Some(&bad_version)), LoadResult::Unreadable);
}

#[test]
fn unknown_fields_are_ignored_on_read() {
    let mut fields = obj_fields_of_v1(&sample_v1());
    fields.push((s("surprise"), JsonValue::Bool(true)));
    match decode_document(&JsonValue::Obj(fields)) {
        DocumentRead::Legacy(read) => assert_eq!(read, sample_v1()),
        other => panic!("expected the older shape, got {:?}", other),
    }
}

fn obj_fields_of_v1(v1: &WorkspaceV1) -> Vec<(String, JsonValue)> {
    vec![
        (s("version"), JsonValue::Num(v1.version.to_string())),
        (s("left_text"), JsonValue::Str(v1.left_text.clone())),
        (s("right_text"), JsonValue::Str(v1.right_text.clone())),
        (s("recipe_path"), JsonValue::Str(v1.recipe_path.clone())),
        (s("model"), JsonValue::Str(v1.model.clone())),
        (s("params"), v1.params.duplicate()),
        (
            s("project_path"),
            match &v1.project_path {
                Some(p) => JsonValue::Str(p.clone()),
                None => JsonValue::Null,
            },
        ),
        (s("updated_at"), JsonValue::Str(v1.updated_at.clone())),
    ]
}

fn encode_v1_object(v1: &WorkspaceV1) -> JsonValue {
    JsonValue::Obj(obj_fields_of_v1(v1))
}
