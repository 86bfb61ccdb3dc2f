//! The error taxonomy of this layer, and the conversion that wraps a fault
//! of the underlying store into it.

use vstd::prelude::*;

verus! {

/// What an operation of this layer can fail with.
#[derive(Clone, Copy, Debug, PartialEq, Eq, Structural)]
pub enum Error {
    /// The environment or a namespace cannot be created or opened.
    StorageOpenError,
    /// A transaction could not begin or commit.
    TransactionError,
    /// A read, write or sync failed at the store level.
    StorageIOError,
}

/// A fault the in-process store itself can raise.
#[derive(Clone, Copy, Debug, PartialEq, Eq, Structural)]
pub enum StoreFault {
    /// The bounded number of namespaces is exhausted.
    NamespaceLimit,
}

/// Wrap a store fault into this layer's error taxonomy.
pub fn convert_error(fault: StoreFault) -> (r: Error)
    ensures
        r == (match fault {
            StoreFault::NamespaceLimit => Error::StorageOpenError,
        }),
{
    match fault {
        StoreFault::NamespaceLimit => Error::StorageOpenError,
    }
}

} // verus!
