use promptforge::sandbox::{
    ensure_under, ensure_under_step, extension_allowed, extension_filter, extension_of,
    join_under, parent_of, path_check_error, path_within, resolve_under, CanonResult, PathCheck,
    ResolveStep, ResolvedPath,
};
use promptforge::CoreError;

fn bytes(s: &str) -> Vec<u8> {
    s.as_bytes().to_vec()
}

#[test]
fn containment_check_follows_component_boundaries() {
    assert!(path_within(b"/sandbox", b"/sandbox"));
    assert!(path_within(b"/sandbox", b"/sandbox/notes/new.txt"));
    assert!(!path_within(b"/sandbox", b"/sandboxevil"));
    assert!(!path_within(b"/sandbox", b"/etc/passwd"));
    assert!(path_within(b"/", b"/etc"));
    assert!(!path_within(b"/sandbox", b"/sand"));
}

#[test]
fn parent_walk_matches_path_structure() {
    assert_eq!(parent_of(b"/sandbox/notes/new.txt"), Some(bytes("/sandbox/notes")));
    assert_eq!(parent_of(b"/sandbox/notes"), Some(bytes("/sandbox")));
    assert_eq!(parent_of(b"/sandbox"), Some(bytes("/")));
    assert_eq!(parent_of(b"/"), None);
    assert_eq!(parent_of(b""), None);
    assert_eq!(parent_of(b"name"), Some(bytes("")));
    assert_eq!(parent_of(b"a//b"), Some(bytes("a")));
}

#[test]
fn traversal_that_resolves_outside_is_a_violation() {
    // resolve(root = "/sandbox", "../../etc/passwd"): the joined path
    // canonicalizes to /etc/passwd, which lies outside the root.
    let joined = join_under(b"/sandbox", b"../../etc/passwd");
    assert_eq!(joined, bytes("/sandbox/../../etc/passwd"));
    let attempts = vec![CanonResult::Canonical(bytes("/etc/passwd"))];
    let verdict = ensure_under(b"/sandbox", &joined, &attempts);
    assert_eq!(verdict, PathCheck::Violation);
    assert_eq!(path_check_error(&verdict), Some(CoreError::SandboxViolation));
    assert_eq!(
        path_check_error(&verdict).unwrap().message(),
        "path out of sandbox"
    );
}

#[test]
fn missing_target_with_inside_ancestor_is_allowed() {
    // resolve(root = "/sandbox", "notes/new.txt") where neither notes/ nor
    // the file exists: the walk reaches the existing ancestor /sandbox,
    // which is inside the root.
    let joined = join_under(b"/sandbox", b"notes/new.txt");
    assert_eq!(joined, bytes("/sandbox/notes/new.txt"));
    let attempts = vec![
        CanonResult::Missing,
        CanonResult::Missing,
        CanonResult::Canonical(bytes("/sandbox")),
    ];
    assert_eq!(ensure_under(b"/sandbox", &joined, &attempts), PathCheck::Allowed);
}

#[test]
fn missing_target_with_outside_ancestor_is_still_rejected() {
    // A parent-directory escape whose target does not exist is rejected on
    // the nearest existing ancestor.
    let joined = join_under(b"/sandbox", b"../outside/new.txt");
    let attempts = vec![
        CanonResult::Missing,
        CanonResult::Missing,
        CanonResult::Canonical(bytes("/outside")),
    ];
    assert_eq!(ensure_under(b"/sandbox", &joined, &attempts), PathCheck::Violation);
}

#[test]
fn no_existing_ancestor_is_not_found() {
    let target = bytes("a/b");
    let attempts = vec![
        CanonResult::Missing,
        CanonResult::Missing,
        CanonResult::Missing,
    ];
    let verdict = ensure_under(b"/sandbox", &target, &attempts);
    assert_eq!(verdict, PathCheck::NotFound);
    assert_eq!(path_check_error(&verdict), Some(CoreError::NotFound));
    assert_eq!(path_check_error(&verdict).unwrap().message(), "file not found");
}

#[test]
fn other_failures_pass_through() {
    let attempts = vec![CanonResult::Failed];
    let verdict = ensure_under(b"/sandbox", b"/sandbox/x", &attempts);
    assert_eq!(verdict, PathCheck::IoFailed);
    assert_eq!(path_check_error(&verdict), Some(CoreError::Io));
}

#[test]
fn step_ascends_only_while_candidates_are_missing() {
    match ensure_under_step(b"/s", b"/s/a/b", &CanonResult::Missing) {
        ResolveStep::Ascend(parent) => assert_eq!(parent, bytes("/s/a")),
        _ => panic!("expected an ascent"),
    }
    match ensure_under_step(b"/s", b"/s/a", &CanonResult::Canonical(bytes("/s/a"))) {
        ResolveStep::Decided(d) => assert_eq!(d, PathCheck::Allowed),
        _ => panic!("expected a decision"),
    }
}

#[test]
fn extension_allow_list_is_case_insensitive() {
    let allow = vec![bytes("md"), bytes("PY")];
    assert!(extension_allowed(b"notes/allowed.md", &allow));
    assert!(extension_allowed(b"scripts/EXAMPLE.MD", &allow));
    assert!(extension_allowed(b"scripts/example.py", &allow));
    assert!(!extension_allowed(b"bin/malware.exe", &allow));
    assert!(!extension_allowed(b"no_extension", &allow));
    assert!(!extension_allowed(b".hidden", &allow));
}

#[test]
fn extension_rejection_is_a_policy_error_not_a_violation() {
    let allow = vec![bytes("md")];
    assert_eq!(extension_filter(b"notes/a.md", &allow), Ok(()));
    let err = extension_filter(b"bin/malware.exe", &allow).unwrap_err();
    assert_eq!(err, CoreError::PolicyRejected);
    assert_eq!(err.message(), "unsupported extension");
    assert_ne!(err.message(), CoreError::SandboxViolation.message());
}

#[test]
fn extension_extraction_takes_the_last_dot_of_the_final_component() {
    assert_eq!(extension_of(b"a/b.tar.gz"), Some(bytes("gz")));
    assert_eq!(extension_of(b"a.b/c"), None);
    assert_eq!(extension_of(b"a/.hidden"), None);
    assert_eq!(extension_of(b"x."), Some(bytes("")));
}

#[test]
fn resolving_returns_the_canonical_form_and_the_existed_flag() {
    // An existing target resolves to its own canonical form.
    let attempts = vec![CanonResult::Canonical(bytes("/sandbox/real.txt"))];
    assert_eq!(
        resolve_under(b"/sandbox", b"/sandbox/link.txt", &attempts),
        Ok(ResolvedPath { canonical: bytes("/sandbox/real.txt"), existed: true })
    );

    // A not-yet-existing target resolves through its nearest existing
    // ancestor and is marked as not existing.
    let attempts = vec![
        CanonResult::Missing,
        CanonResult::Canonical(bytes("/sandbox/notes")),
    ];
    assert_eq!(
        resolve_under(b"/sandbox", b"/sandbox/notes/new.txt", &attempts),
        Ok(ResolvedPath { canonical: bytes("/sandbox/notes"), existed: false })
    );

    // Outside the root the resolution fails as a violation, whatever
    // exists.
    let attempts = vec![CanonResult::Canonical(bytes("/etc/passwd"))];
    assert_eq!(
        resolve_under(b"/sandbox", b"/sandbox/../etc/passwd", &attempts),
        Err(CoreError::SandboxViolation)
    );
}

#[test]
fn every_failure_class_has_its_own_stable_message() {
    assert_eq!(CoreError::SandboxViolation.message(), "path out of sandbox");
    assert_eq!(CoreError::NotFound.message(), "file not found");
    assert_eq!(CoreError::PolicyRejected.message(), "unsupported extension");
    assert_eq!(CoreError::Io.message(), "io error");
    assert_eq!(CoreError::Parse.message(), "unreadable document");
    assert_eq!(CoreError::Cancelled.message(), "cancelled");
}

#[test]
fn absolute_inputs_are_taken_as_they_are() {
    assert_eq!(join_under(b"/root", b"/abs/path"), bytes("/abs/path"));
    assert_eq!(join_under(b"/root", b"rel"), bytes("/root/rel"));
}
