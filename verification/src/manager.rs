//! The version manager: the thin facade the command layer calls, one
//! delegation per store operation.

use vstd::prelude::*;

use crate::errors::StorageError;
use crate::store_model::{
    delete_spec, effective_index, get_version_spec, history_spec, note_view, save_outcome,
    set_max_spec, snap_result_view, snap_views, ConfigVersion, SnapView,
};
use crate::version_storage::VersionStorage;

verus! {

/// The facade over the version store.
#[derive(Clone, Copy, Debug)]
pub struct VersionManager;

impl VersionManager {
    /// Saves a snapshot; see `VersionStorage::save_version`.
    pub fn save_version(
        storage: &mut VersionStorage,
        software_id: &str,
        content: &str,
        parsed_content: Option<serde_json::Value>,
        note: Option<String>,
        is_auto_save: bool,
    ) -> (r: Result<ConfigVersion, StorageError>)
        requires
            old(storage).wf(),
        ensures
            final(storage).wf(),
            exists|id: Seq<char>, ts: i64|
                #[trigger] save_outcome(
                    old(storage)@,
                    software_id@,
                    content@,
                    parsed_content,
                    note_view(note),
                    is_auto_save,
                    id,
                    ts,
                    final(storage)@,
                    snap_result_view(r),
                ),
            r is Err ==> final(storage)@ == old(storage)@,
    {
        storage.save_version(software_id, content, parsed_content, note, is_auto_save)
    }

    /// The history, most recent first; see `VersionStorage::get_history`.
    pub fn get_history(storage: &VersionStorage, software_id: &str, limit: Option<usize>) -> (r:
        Result<Vec<ConfigVersion>, StorageError>)
        requires
            storage.wf(),
        ensures
            r matches Ok(h) && snap_views(h@) == history_spec(storage@, software_id@, limit),
    {
        storage.get_history(software_id, limit)
    }

    /// One snapshot by id; see `VersionStorage::get_version`.
    pub fn get_version(storage: &VersionStorage, software_id: &str, version_id: &str) -> (r:
        Result<ConfigVersion, StorageError>)
        requires
            storage.wf(),
        ensures
            match r {
                Ok(v) => get_version_spec(storage@, software_id@, version_id@) == Ok::<
                    SnapView,
                    StorageError,
                >(v@),
                Err(e) => get_version_spec(storage@, software_id@, version_id@) == Err::<
                    SnapView,
                    StorageError,
                >(e),
            },
    {
        storage.get_version(software_id, version_id)
    }

    /// Removes one snapshot; see `VersionStorage::delete_version`.
    pub fn delete_version(storage: &mut VersionStorage, software_id: &str, version_id: &str) -> (r:
        Result<(), StorageError>)
        requires
            old(storage).wf(),
        ensures
            final(storage).wf(),
            final(storage)@ == delete_spec(old(storage)@, software_id@, version_id@),
            r == Ok::<(), StorageError>(()),
    {
        storage.delete_version(software_id, version_id)
    }

    /// Changes the retention bound; see `VersionStorage::set_max_versions`.
    pub fn set_max_versions(storage: &mut VersionStorage, software_id: &str, max_versions: usize) -> (r:
        Result<(), StorageError>)
        requires
            old(storage).wf(),
        ensures
            final(storage).wf(),
            final(storage)@ == set_max_spec(old(storage)@, software_id@, max_versions as int),
            r == Ok::<(), StorageError>(()),
    {
        storage.set_max_versions(software_id, max_versions)
    }

    /// Reads the retention bound; see `VersionStorage::get_max_versions`.
    pub fn get_max_versions(storage: &VersionStorage, software_id: &str) -> (r: Result<
        usize,
        StorageError,
    >)
        requires
            storage.wf(),
        ensures
            r matches Ok(m) && m as int == effective_index(storage@, software_id@).max_versions,
    {
        storage.get_max_versions(software_id)
    }
}

} // verus!
