//! The synchronizer over both stores, composed in memory: a label index
//! and a secure backend, driven through the same plans that the real
//! stores follow. The outcome of each fallible store write is an explicit
//! argument, so the partial-failure behavior — which store changed, which
//! did not — is part of every contract, and a failed write can be exercised
//! at will.

use vstd::prelude::*;

use crate::backend::MemBackend;
use crate::errors::{DeleteOutcome, Error};
use crate::index::{without_label, LabelIndex};
use crate::search;
use crate::search::matching_labels;
use crate::sync;
use crate::sync::{CreatePlan, DeletePlan};

verus! {

/// The joint state of the two stores, as the contracts speak of it: the
/// index as a sequence of labels, the backend as a map from label to
/// secret.
pub struct StoresView {
    pub index: Seq<Seq<char>>,
    pub backend: Map<Seq<char>, Seq<char>>,
}

/// The two stores are consistent with the index's own invariant: no label
/// is listed twice.
pub open spec fn stores_wf(s: StoresView) -> bool {
    s.index.no_duplicates()
}

/// What a create does to the stores, and what it returns. `index_ok` and
/// `backend_ok` are the outcomes of the two fallible writes, in the order
/// the synchronizer performs them: the index is persisted first, so a
/// failed secret write leaves an orphan index entry, never an unreachable
/// secret.
pub open spec fn create_step(
    s: StoresView,
    label: Seq<char>,
    secret: Seq<char>,
    force: bool,
    index_ok: bool,
    backend_ok: bool,
) -> (StoresView, Result<(), Error>) {
    if s.index.contains(label) && !force {
        (s, Err(Error::AlreadyExists))
    } else if !s.index.contains(label) && !index_ok {
        (s, Err(Error::IndexWriteFailed))
    } else {
        let with_label = if s.index.contains(label) {
            s.index
        } else {
            s.index.push(label)
        };
        if backend_ok {
            (
                StoresView { index: with_label, backend: s.backend.insert(label, secret) },
                Ok(()),
            )
        } else {
            (StoresView { index: with_label, backend: s.backend }, Err(Error::BackendWriteFailed))
        }
    }
}

/// What a get returns: the backend is authoritative, the index is not
/// consulted, so an orphan index entry surfaces as `NotFound`.
pub open spec fn get_result(s: StoresView, label: Seq<char>) -> Result<Seq<char>, Error> {
    if s.backend.contains_key(label) {
        Ok(s.backend[label])
    } else {
        Err(Error::NotFound)
    }
}

/// What a delete does to the stores, and what it returns. The secret falls
/// first; the index entry is removed only after the backend succeeded, so
/// no reachable secret is ever orphaned. An absent label is a benign
/// no-op.
pub open spec fn delete_step(
    s: StoresView,
    label: Seq<char>,
    backend_ok: bool,
    index_ok: bool,
) -> (StoresView, Result<DeleteOutcome, Error>) {
    if !s.index.contains(label) {
        (s, Ok(DeleteOutcome::NotPresent))
    } else if !backend_ok {
        (s, Err(Error::BackendDeleteFailed))
    } else if !index_ok {
        (StoresView { index: s.index, backend: s.backend.remove(label) }, Err(
            Error::IndexWriteFailed,
        ))
    } else {
        (
            StoresView { index: without_label(s.index, label), backend: s.backend.remove(label) },
            Ok(DeleteOutcome::Deleted),
        )
    }
}

/// Both stores in one place, in memory: the explicit store object that each
/// operation takes and updates. The real tool keeps the index in a file and
/// the secrets in the OS credential store; this composition runs the very
/// same decision logic against in-memory stores, with each store write's
/// outcome injected.
pub struct System {
    index: LabelIndex,
    backend: MemBackend,
}

impl System {
    /// The joint state of the two stores.
    pub closed spec fn stores(&self) -> StoresView {
        StoresView { index: self.index@, backend: self.backend@ }
    }

    /// The representation keeps one backend entry per label.
    pub closed spec fn rep_wf(&self) -> bool {
        self.backend.wf()
    }

    /// Well-formed: the representation invariant and the visible one.
    pub open spec fn wf(&self) -> bool {
        self.rep_wf() && stores_wf(self.stores())
    }

    /// Two empty stores: the state of a first run.
    pub fn new() -> (r: System)
        ensures
            r.wf(),
            r.stores().index == Seq::<Seq<char>>::empty(),
            r.stores().backend == Map::<Seq<char>, Seq<char>>::empty(),
    {
        System { index: LabelIndex::new(), backend: MemBackend::new() }
    }

    /// Creates a secret under `label`: reject a present label
    /// without force; append and persist the index before the secret is
    /// written; never roll the index back when the secret write fails.
    pub fn create(
        &mut self,
        label: &String,
        secret: &String,
        force: bool,
        index_ok: bool,
        backend_ok: bool,
    ) -> (r: Result<(), Error>)
        requires
            old(self).wf(),
        ensures
            final(self).wf(),
            final(self).stores() == create_step(
                old(self).stores(),
                label@,
                secret@,
                force,
                index_ok,
                backend_ok,
            ).0,
            r == create_step(old(self).stores(), label@, secret@, force, index_ok, backend_ok).1,
    {
        let plan = sync::create_plan(&self.index, label, force);
        match plan {
            CreatePlan::Reject => Err(Error::AlreadyExists),
            CreatePlan::AppendThenStore => {
                if !index_ok {
                    return Err(Error::IndexWriteFailed);
                }
                self.index.append(label);
                if backend_ok {
                    self.backend.set(label, secret);
                    Ok(())
                } else {
                    Err(Error::BackendWriteFailed)
                }
            },
            CreatePlan::StoreOnly => {
                if backend_ok {
                    self.backend.set(label, secret);
                    Ok(())
                } else {
                    Err(Error::BackendWriteFailed)
                }
            },
        }
    }

    /// Looks the secret up in the backend alone: an orphan index
    /// entry surfaces here as `NotFound`.
    pub fn get(&self, label: &String) -> (r: Result<String, Error>)
        requires
            self.wf(),
        ensures
            r is Ok <==> get_result(self.stores(), label@) is Ok,
            r matches Ok(secret) ==> get_result(self.stores(), label@) == Ok::<Seq<char>, Error>(
                secret@,
            ),
            r is Err ==> r == Err::<String, Error>(Error::NotFound),
    {
        match self.backend.get(label) {
            Some(secret) => Ok(secret),
            None => Err(Error::NotFound),
        }
    }

    /// Deletes the secret under `label`: an absent label is a
    /// benign no-op; the index entry is kept when the backend refuses, so
    /// the secret stays reachable for a retry.
    pub fn delete(&mut self, label: &String, backend_ok: bool, index_ok: bool) -> (r: Result<
        DeleteOutcome,
        Error,
    >)
        requires
            old(self).wf(),
        ensures
            final(self).wf(),
            final(self).stores() == delete_step(
                old(self).stores(),
                label@,
                backend_ok,
                index_ok,
            ).0,
            r == delete_step(old(self).stores(), label@, backend_ok, index_ok).1,
    {
        let plan = sync::delete_plan(&self.index, label);
        match plan {
            DeletePlan::NotPresent => Ok(DeleteOutcome::NotPresent),
            DeletePlan::RemoveSecretFirst => {
                if !backend_ok {
                    return Err(Error::BackendDeleteFailed);
                }
                self.backend.delete(label);
                if !index_ok {
                    return Err(Error::IndexWriteFailed);
                }
                self.index.remove(label);
                Ok(DeleteOutcome::Deleted)
            },
        }
    }

    /// The full label index, in stored order.
    pub fn list(&self) -> (r: Vec<String>)
        ensures
            r.deep_view() == self.stores().index,
    {
        sync::list(&self.index)
    }

    /// The labels matching `query`, case-insensitively and in index
    /// order; an empty query matches all of them.
    pub fn search(&self, query: &String) -> (r: Vec<String>)
        ensures
            r.deep_view() == matching_labels(self.stores().index, query@),
            query@.len() == 0 ==> r.deep_view() == self.stores().index,
    {
        search::search(&self.index, query)
    }
}

} // verus!
