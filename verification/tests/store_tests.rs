use promptforge::store::{save_outcome, SaveOutcome, StoreFiles};

#[test]
fn write_with_backup_preserves_the_prior_document() {
    let mut files = StoreFiles::new();
    assert_eq!(files.primary, None);
    assert_eq!(files.backup, None);

    // The first save has nothing to back up.
    files.apply_save(b"{\"version\":1}".to_vec());
    assert_eq!(files.primary.as_deref(), Some(b"{\"version\":1}".as_slice()));
    assert_eq!(files.backup, None);

    // The second save moves the prior document to the backup location
    // before writing the new one.
    files.apply_save(b"{\"version\":2}".to_vec());
    assert_eq!(files.primary.as_deref(), Some(b"{\"version\":2}".as_slice()));
    assert_eq!(files.backup.as_deref(), Some(b"{\"version\":1}".as_slice()));
}

#[test]
fn backup_holds_exactly_the_first_save_after_two_saves() {
    let mut files = StoreFiles { primary: Some(b"seed".to_vec()), backup: Some(b"old".to_vec()) };
    files.apply_save(b"first".to_vec());
    files.apply_save(b"second".to_vec());
    assert_eq!(files.primary.as_deref(), Some(b"second".as_slice()));
    assert_eq!(files.backup.as_deref(), Some(b"first".as_slice()));
}

#[test]
fn backup_failure_never_fails_the_save() {
    assert_eq!(save_outcome(true, false), SaveOutcome::Saved);
    assert_eq!(save_outcome(true, true), SaveOutcome::SavedWithBackupWarning);
    assert_eq!(save_outcome(false, false), SaveOutcome::Failed);
    assert_eq!(save_outcome(false, true), SaveOutcome::Failed);
}
