use vstd::prelude::*;

verus! {

/// The failure modes of the store.
///
/// `NotFound` reports a missing entity, version id or configuration
/// path; `Io` a failure of the surrounding storage layer (or a fresh
/// snapshot identifier that was already taken); `Parse` a malformed
/// persisted record; `Corruption` an index that references a snapshot
/// blob which is not present.
#[derive(Clone, Copy, Debug, PartialEq, Eq, Structural)]
pub enum StorageError {
    NotFound,
    Io,
    Parse,
    Corruption,
}

impl StorageError {
    /// A short, stable label for the error kind.
    pub fn label(&self) -> (r: &'static str)
        ensures
            *self == StorageError::NotFound ==> r@ == "not found"@,
            *self == StorageError::Io ==> r@ == "storage failure"@,
            *self == StorageError::Parse ==> r@ == "malformed record"@,
            *self == StorageError::Corruption ==> r@ == "index corruption"@,
    {
        match self {
            StorageError::NotFound => "not found",
            StorageError::Io => "storage failure",
            StorageError::Parse => "malformed record",
            StorageError::Corruption => "index corruption",
        }
    }
}

} // verus!
