//! The decisions of the restore and backup flows.  The surrounding
//! process performs the writes and reads; the choice of what to write
//! and what annotation to record is made — and verified — here.

use vstd::prelude::*;

use crate::store_model::ConfigVersion;

verus! {

/// What the surrounding process must write to restore a snapshot: the
/// structured content when the snapshot carries one, else the raw text
/// into the entity's primary configuration path.
pub enum RestoreAction {
    WriteStructured(serde_json::Value),
    WriteRaw(String),
}

/// Plans the write that restores `version`.
pub fn plan_restore(version: &ConfigVersion) -> (r: RestoreAction)
    ensures
        version.parsed_content matches Some(v) ==> (r matches RestoreAction::WriteStructured(w)
            && w == v),
        version.parsed_content is None ==> (r matches RestoreAction::WriteRaw(c) && c@
            == version.content@),
{
    match &version.parsed_content {
        Some(v) => RestoreAction::WriteStructured(v.clone()),
        None => RestoreAction::WriteRaw(version.content.clone()),
    }
}

/// The annotation recorded when a snapshot is restored, naming the
/// source version.  Restoring saves again as a manual save, so the
/// restore point itself can never be evicted automatically.
pub fn restore_note(version_id: &str) -> (r: String)
    ensures
        r@ == "Restored from version "@ + version_id@,
{
    "Restored from version ".to_owned().concat(version_id)
}

/// The annotation recorded for a manual backup: the caller's note, or
/// the standing one when none was given.
pub fn backup_note(note: Option<String>) -> (r: String)
    ensures
        r@ == (match note {
            Some(n) => n@,
            None => "Manual backup"@,
        }),
{
    match note {
        Some(n) => n,
        None => "Manual backup".to_owned(),
    }
}

} // verus!
