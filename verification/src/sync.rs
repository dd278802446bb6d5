//! The synchronizer's decision logic: what a create or a delete must do to
//! the two stores, decided from the label index alone, and in which order.
//! The caller that owns the real stores follows the plan step by step; the
//! in-memory system follows the very same plans.

use vstd::prelude::*;

use crate::index::LabelIndex;

verus! {

/// What a create must do. The order matters: when the label is new, the
/// index is appended and persisted before the secret is written, so that a
/// failed secret write leaves a detectable orphan index entry rather than
/// an unreachable secret.
#[derive(Clone, Copy, Debug, PartialEq, Eq, Structural)]
pub enum CreatePlan {
    /// The label is already present and force is off: fail with
    /// `AlreadyExists` and touch nothing.
    Reject,
    /// The label is new: append it to the index, persist the index, and
    /// only then write the secret.
    AppendThenStore,
    /// The label is present and force is on: the index already lists it, so
    /// only the secret is overwritten.
    StoreOnly,
}

/// What a delete must do. When the label is present, the secret is deleted
/// from the backend first; the index entry falls only after the backend
/// succeeded, so that no secret is ever left unreachable.
#[derive(Clone, Copy, Debug, PartialEq, Eq, Structural)]
pub enum DeletePlan {
    /// The label is not in the index: a benign no-op, not an error.
    NotPresent,
    /// The label is present: delete the secret, and only on success remove
    /// the index entry and persist.
    RemoveSecretFirst,
}

/// The create decision as a function of the index contents.
pub open spec fn create_plan_spec(index: Seq<Seq<char>>, label: Seq<char>, force: bool) -> CreatePlan {
    if index.contains(label) && !force {
        CreatePlan::Reject
    } else if !index.contains(label) {
        CreatePlan::AppendThenStore
    } else {
        CreatePlan::StoreOnly
    }
}

/// The delete decision as a function of the index contents.
pub open spec fn delete_plan_spec(index: Seq<Seq<char>>, label: Seq<char>) -> DeletePlan {
    if index.contains(label) {
        DeletePlan::RemoveSecretFirst
    } else {
        DeletePlan::NotPresent
    }
}

/// Decides what a create of `label` must do, given the current index.
pub fn create_plan(index: &LabelIndex, label: &String, force: bool) -> (p: CreatePlan)
    ensures
        p == create_plan_spec(index@, label@, force),
{
    if index.contains(label) {
        if force {
            CreatePlan::StoreOnly
        } else {
            CreatePlan::Reject
        }
    } else {
        CreatePlan::AppendThenStore
    }
}

/// Decides what a delete of `label` must do, given the current index.
pub fn delete_plan(index: &LabelIndex, label: &String) -> (p: DeletePlan)
    ensures
        p == delete_plan_spec(index@, label@),
{
    if index.contains(label) {
        DeletePlan::RemoveSecretFirst
    } else {
        DeletePlan::NotPresent
    }
}

/// The full label index, unfiltered, in stored order. An empty
/// result is valid and means no saved labels.
pub fn list(index: &LabelIndex) -> (r: Vec<String>)
    ensures
        r.deep_view() == index@,
{
    index.to_labels()
}

} // verus!
