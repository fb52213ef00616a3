//! The errors that pass through the library.

use vstd::prelude::*;

verus! {

/// What can go wrong in, or on behalf of, a collection.
#[derive(Debug, Clone, Copy, PartialEq, Eq, Structural)]
pub enum AnkiError {
    /// A table could not be read or written.
    DbError,
    /// A search text could not be understood.
    SearchError,
    /// The scheduler in use cannot answer the request.
    SchedulerUpgradeRequired,
    /// The parameters of a preset do not describe a memory model.
    FsrsParamsInvalid,
    /// No share of cards to remember could be found that is worth aiming for.
    FsrsUnableToDetermineDesiredRetention,
    /// The input was rejected.
    InvalidInput,
    /// The work was called off.
    Interrupted,
}

} // verus!
