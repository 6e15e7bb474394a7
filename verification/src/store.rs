//! Backup-before-overwrite persistence, modelled on the pair of files.
//!
//! The state document lives at a fixed primary location with a single
//! backup file alongside it. A save first moves the existing primary
//! document, if any, to the backup location (replacing any prior backup)
//! and then writes the new document to the primary location. The caller
//! performing real file operations follows this model step for step; a
//! backup failure is reported as a warning on a still-successful save,
//! never as a save failure.

use vstd::prelude::*;

verus! {

/// The contents of the primary and backup locations.
#[derive(Debug, Clone, PartialEq, Eq)]
pub struct StoreFiles {
    pub primary: Option<Vec<u8>>,
    pub backup: Option<Vec<u8>>,
}

/// Mathematical shape of a `StoreFiles`.
#[verifier::ext_equal]
pub struct FilesModel {
    pub primary: Option<Seq<u8>>,
    pub backup: Option<Seq<u8>>,
}

/// What one save does: the new contents land at the primary location, and
/// the prior primary contents, if any, become the backup.
pub open spec fn spec_save(m: FilesModel, contents: Seq<u8>) -> FilesModel {
    FilesModel {
        primary: Some(contents),
        backup: if m.primary is Some {
            m.primary
        } else {
            m.backup
        },
    }
}

impl StoreFiles {
    /// The pair of locations as a mathematical record.
    pub open spec fn model(self) -> FilesModel {
        FilesModel {
            primary: match self.primary {
                Some(v) => Some(v@),
                None => None,
            },
            backup: match self.backup {
                Some(v) => Some(v@),
                None => None,
            },
        }
    }

    /// Both locations empty: no document has ever been saved.
    pub fn new() -> (r: Self)
        ensures
            r.model() == (FilesModel { primary: None, backup: None }),
    {
        StoreFiles { primary: None, backup: None }
    }

    /// Save `contents`: move the existing primary document, if any, to the
    /// backup location, then write the new contents to the primary one.
    pub fn apply_save(&mut self, contents: Vec<u8>)
        ensures
            final(self).model() == spec_save(old(self).model(), contents@),
    {
        let displaced = self.primary.take();
        match displaced {
            Some(prior) => {
                self.backup = Some(prior);
            },
            None => {},
        }
        self.primary = Some(contents);
        proof {
            assert(final(self).model() =~= spec_save(old(self).model(), contents@));
        }
    }
}

/// Two consecutive saves leave the second document at the primary location
/// and exactly the first document in the backup, whatever was stored
/// before.
pub proof fn lemma_backup_keeps_prior_save(m: FilesModel, d1: Seq<u8>, d2: Seq<u8>)
    ensures
        spec_save(spec_save(m, d1), d2) == (FilesModel {
            primary: Some(d2),
            backup: Some(d1),
        }),
{
    assert(spec_save(spec_save(m, d1), d2) =~= FilesModel {
        primary: Some(d2),
        backup: Some(d1),
    });
}

/// How a save is reported: a failure to write the new document fails the
/// save; a failure to preserve the old one only attaches a warning to a
/// still-successful save.
#[derive(Debug, PartialEq, Eq)]
pub enum SaveOutcome {
    Saved,
    SavedWithBackupWarning,
    Failed,
}

/// Classify a save from what happened to its two steps.
pub fn save_outcome(primary_written: bool, backup_failed: bool) -> (r: SaveOutcome)
    ensures
        !primary_written ==> r == SaveOutcome::Failed,
        primary_written && backup_failed ==> r == SaveOutcome::SavedWithBackupWarning,
        primary_written && !backup_failed ==> r == SaveOutcome::Saved,
{
    if !primary_written {
        SaveOutcome::Failed
    } else if backup_failed {
        SaveOutcome::SavedWithBackupWarning
    } else {
        SaveOutcome::Saved
    }
}

} // verus!
