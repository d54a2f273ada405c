//! The error taxonomy of the key-space layer.

use vstd::prelude::*;

verus! {

/// Everything a storage operation can report.
///
/// `BytesError` is a serializer or deserializer failure; `SledError` is an
/// engine (I/O or internal) failure; `TransactionConflict` is the retry signal
/// used inside the transaction driver and never escapes a successful retry
/// loop; `SnapshotError` carries a snapshot-subsystem failure through.
#[derive(Debug)]
pub enum MetaStorageError {
    BytesError(String),
    SledError(String),
    TransactionConflict,
    SnapshotError(String),
}

impl MetaStorageError {
    /// Whether this error is the transaction conflict signal, which the
    /// transaction driver must turn into an engine-level retry rather than an
    /// abort.
    pub fn is_conflict(&self) -> (r: bool)
        ensures
            r == (*self is TransactionConflict),
    {
        match self {
            MetaStorageError::TransactionConflict => true,
            _ => false,
        }
    }
}

} // verus!
