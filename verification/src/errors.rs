//! The closed set of domain errors. Every operation reports its failure as
//! one of these variants, so a caller can match on the outcome.

use vstd::prelude::*;

verus! {

/// A domain error of the secret-label manager. None of these is fatal: each
/// operation returns the variant that describes what went wrong, and the
/// caller decides how to report it.
#[derive(Clone, Copy, Debug, PartialEq, Eq, Structural)]
pub enum Error {
    /// A create without `force` found the label already in the index.
    AlreadyExists,
    /// A get found no secret under the label in the secure backend.
    NotFound,
    /// The persisted index exists but cannot be parsed into a label list.
    IndexCorrupt,
    /// The index could not be persisted.
    IndexWriteFailed,
    /// The secure backend rejected a secret write.
    BackendWriteFailed,
    /// The secure backend rejected a secret deletion.
    BackendDeleteFailed,
}

/// The successful outcomes of a delete: the label was removed from both
/// stores, or it was absent to begin with, which is a benign no-op rather
/// than an error.
#[derive(Clone, Copy, Debug, PartialEq, Eq, Structural)]
pub enum DeleteOutcome {
    /// The secret and the index entry were both removed.
    Deleted,
    /// The label was not in the index; nothing was done.
    NotPresent,
}

} // verus!
