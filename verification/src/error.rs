//! The failures of the storage. Each of them ends the transaction that met
//! it; none is recovered inside the storage.

use vstd::prelude::*;

verus! {

/// Why an operation of the storage failed.
#[derive(Debug, Copy, Clone, PartialEq, Eq, Hash, Structural)]
pub enum StorageError {
    /// A page index is not below the page count, or a slice is empty or
    /// does not lie within one page.
    OutOfRange,
    /// The key-value store holds no digest vector of the right length under
    /// the state root that a storage was to be opened at.
    StateNotFound,
    /// A page digest other than the zero-page digest has no bytes in the
    /// key-value store.
    PageBytesMissing,
    /// A page was read that holds written bytes not yet committed.
    DirtyReadAttempt,
}

} // verus!
