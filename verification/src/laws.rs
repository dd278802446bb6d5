//! The guarantees that hold across sequences of operations, proved over the
//! store transitions that the synchronizer's contracts are stated with.

use vstd::prelude::*;

use crate::errors::{DeleteOutcome, Error};
use crate::index::{lemma_filter_preserves_no_duplicates, lemma_push_fresh_no_duplicates, neq_pred};
use crate::system::{create_step, delete_step, get_result, stores_wf, StoresView};

verus! {

/// Deleting an absent label is a benign no-op that changes nothing, and
/// deleting it twice produces the same outcome both times, whatever the
/// stores would have answered.
pub proof fn lemma_delete_absent_twice(
    s: StoresView,
    label: Seq<char>,
    backend_ok1: bool,
    index_ok1: bool,
    backend_ok2: bool,
    index_ok2: bool,
)
    requires
        !s.index.contains(label),
    ensures
        delete_step(s, label, backend_ok1, index_ok1) == (
            s,
            Ok::<DeleteOutcome, Error>(DeleteOutcome::NotPresent),
        ),
        delete_step(delete_step(s, label, backend_ok1, index_ok1).0, label, backend_ok2, index_ok2)
            == (s, Ok::<DeleteOutcome, Error>(DeleteOutcome::NotPresent)),
{
}

/// A create that reports success leaves the given secret under the given
/// label: the get that follows returns it exactly.
pub proof fn lemma_create_get_round_trip(
    s: StoresView,
    label: Seq<char>,
    secret: Seq<char>,
    force: bool,
    index_ok: bool,
    backend_ok: bool,
)
    ensures
        ({
            let (s1, r) = create_step(s, label, secret, force, index_ok, backend_ok);
            r is Ok ==> get_result(s1, label) == Ok::<Seq<char>, Error>(secret)
        }),
{
}

/// No operation ever introduces a duplicate label: every create and every
/// delete carries a duplicate-free index to a duplicate-free index, so by
/// induction any sequence of operations does.
pub proof fn lemma_create_preserves_uniqueness(
    s: StoresView,
    label: Seq<char>,
    secret: Seq<char>,
    force: bool,
    index_ok: bool,
    backend_ok: bool,
)
    requires
        stores_wf(s),
    ensures
        stores_wf(create_step(s, label, secret, force, index_ok, backend_ok).0),
{
    if !s.index.contains(label) {
        lemma_push_fresh_no_duplicates(s.index, label);
    }
}

/// The delete half of the uniqueness argument.
pub proof fn lemma_delete_preserves_uniqueness(
    s: StoresView,
    label: Seq<char>,
    backend_ok: bool,
    index_ok: bool,
)
    requires
        stores_wf(s),
    ensures
        stores_wf(delete_step(s, label, backend_ok, index_ok).0),
{
    lemma_filter_preserves_no_duplicates(s.index, neq_pred(label));
}

/// One mutating operation, with the outcomes of its store writes. Get,
/// list and search never change the stores, so a sequence of these two is
/// the general shape of a history.
pub enum Op {
    Create { label: Seq<char>, secret: Seq<char>, force: bool, index_ok: bool, backend_ok: bool },
    Delete { label: Seq<char>, backend_ok: bool, index_ok: bool },
}

/// The stores after one operation.
pub open spec fn apply_op(s: StoresView, op: Op) -> StoresView {
    match op {
        Op::Create { label, secret, force, index_ok, backend_ok } => create_step(
            s,
            label,
            secret,
            force,
            index_ok,
            backend_ok,
        ).0,
        Op::Delete { label, backend_ok, index_ok } => delete_step(
            s,
            label,
            backend_ok,
            index_ok,
        ).0,
    }
}

/// The stores after a whole history, first operation first.
pub open spec fn apply_ops(s: StoresView, ops: Seq<Op>) -> StoresView
    decreases ops.len(),
{
    if ops.len() == 0 {
        s
    } else {
        apply_ops(apply_op(s, ops[0]), ops.drop_first())
    }
}

/// After any sequence of operations on a duplicate-free index, the index
/// is still duplicate-free: no history ever lists a label twice.
pub proof fn lemma_uniqueness_holds_for_any_sequence(s: StoresView, ops: Seq<Op>)
    requires
        stores_wf(s),
    ensures
        stores_wf(apply_ops(s, ops)),
    decreases ops.len(),
{
    if ops.len() != 0 {
        match ops[0] {
            Op::Create { label, secret, force, index_ok, backend_ok } => {
                lemma_create_preserves_uniqueness(s, label, secret, force, index_ok, backend_ok);
            },
            Op::Delete { label, backend_ok, index_ok } => {
                lemma_delete_preserves_uniqueness(s, label, backend_ok, index_ok);
            },
        }
        lemma_uniqueness_holds_for_any_sequence(apply_op(s, ops[0]), ops.drop_first());
    }
}

/// Creating over an existing label with force succeeds, leaves exactly one
/// index entry for the label, and get returns the new secret.
pub proof fn lemma_force_overwrite(
    s: StoresView,
    label: Seq<char>,
    secret1: Seq<char>,
    secret2: Seq<char>,
)
    requires
        stores_wf(s),
    ensures
        ({
            let (s1, r1) = create_step(s, label, secret1, false, true, true);
            let (s2, r2) = create_step(s1, label, secret2, true, true, true);
            r1 is Ok ==> {
                &&& r2 is Ok
                &&& s2.index == s1.index
                &&& s2.index.contains(label)
                &&& s2.index.to_multiset().count(label) == 1
                &&& get_result(s2, label) == Ok::<Seq<char>, Error>(secret2)
            }
        }),
{
    broadcast use vstd::seq_lib::group_to_multiset_ensures;

    let (s1, r1) = create_step(s, label, secret1, false, true, true);
    if r1 is Ok {
        assert(!s.index.contains(label));
        assert(s1.index == s.index.push(label));
        assert(s1.index[s.index.len() as int] == label);
        assert(s1.index.contains(label));
        lemma_push_fresh_no_duplicates(s.index, label);
        s1.index.lemma_multiset_has_no_duplicates();
        assert(s1.index.to_multiset().contains(label));
    }
}

/// Creating over an existing label without force is rejected with
/// `AlreadyExists`, changes nothing, and leaves the first secret in place.
pub proof fn lemma_reject_without_force(
    s: StoresView,
    label: Seq<char>,
    secret1: Seq<char>,
    secret2: Seq<char>,
    index_ok2: bool,
    backend_ok2: bool,
)
    ensures
        ({
            let (s1, r1) = create_step(s, label, secret1, false, true, true);
            let (s2, r2) = create_step(s1, label, secret2, false, index_ok2, backend_ok2);
            r1 is Ok ==> {
                &&& r2 == Err::<(), Error>(Error::AlreadyExists)
                &&& s2 == s1
                &&& get_result(s2, label) == Ok::<Seq<char>, Error>(secret1)
            }
        }),
{
    let (s1, r1) = create_step(s, label, secret1, false, true, true);
    if r1 is Ok {
        assert(s1.index == s.index.push(label));
        assert(s1.index[s.index.len() as int] == label);
        assert(s1.index.contains(label));
    }
}

/// Creating two labels from an empty store and deleting the first leaves a
/// list of exactly the second.
pub proof fn lemma_list_reflects_deletions(
    a: Seq<char>,
    b: Seq<char>,
    secret_a: Seq<char>,
    secret_b: Seq<char>,
)
    requires
        a != b,
    ensures
        ({
            let s0 = StoresView {
                index: Seq::<Seq<char>>::empty(),
                backend: Map::<Seq<char>, Seq<char>>::empty(),
            };
            let (s1, r1) = create_step(s0, a, secret_a, false, true, true);
            let (s2, r2) = create_step(s1, b, secret_b, false, true, true);
            let (s3, r3) = delete_step(s2, a, true, true);
            r1 is Ok && r2 is Ok && r3 == Ok::<DeleteOutcome, Error>(DeleteOutcome::Deleted)
                && s3.index == seq![b]
        }),
{
    let s0 = StoresView {
        index: Seq::<Seq<char>>::empty(),
        backend: Map::<Seq<char>, Seq<char>>::empty(),
    };
    let (s1, r1) = create_step(s0, a, secret_a, false, true, true);
    let (s2, r2) = create_step(s1, b, secret_b, false, true, true);
    assert(!s0.index.contains(a));
    assert(s1.index == s0.index.push(a));
    assert(s1.index =~= seq![a]);
    assert(!s1.index.contains(b)) by {
        assert forall|i: int| 0 <= i < s1.index.len() implies s1.index[i] != b by {
            assert(s1.index[i] == a);
        }
    }
    assert(s2.index =~= seq![a, b]);
    assert(s2.index[0] == a);
    assert(s2.index.contains(a));
    let (s3, r3) = delete_step(s2, a, true, true);
    assert(s3.index == s2.index.filter(neq_pred(a)));
    reveal(Seq::filter);
    assert(s2.index.drop_last() =~= seq![a]);
    assert(seq![a].drop_last() =~= Seq::<Seq<char>>::empty());
    assert(Seq::<Seq<char>>::empty().filter(neq_pred(a)) =~= Seq::<Seq<char>>::empty());
    assert(seq![a].filter(neq_pred(a)) =~= Seq::<Seq<char>>::empty());
    assert(s3.index =~= seq![b]);
}

/// Orphan tolerance: when the secret write of a create fails after the
/// index write succeeded, the label is indexed with no secret behind it; a
/// get then reports `NotFound`, and a later forced create restores full
/// consistency.
pub proof fn lemma_orphan_tolerance(
    s: StoresView,
    label: Seq<char>,
    secret1: Seq<char>,
    secret2: Seq<char>,
)
    requires
        stores_wf(s),
        !s.index.contains(label),
        !s.backend.contains_key(label),
    ensures
        ({
            let (s1, r1) = create_step(s, label, secret1, false, true, false);
            let (s2, r2) = create_step(s1, label, secret2, true, true, true);
            &&& r1 == Err::<(), Error>(Error::BackendWriteFailed)
            &&& s1.index.contains(label)
            &&& !s1.backend.contains_key(label)
            &&& get_result(s1, label) == Err::<Seq<char>, Error>(Error::NotFound)
            &&& r2 is Ok
            &&& s2.index == s1.index
            &&& stores_wf(s2)
            &&& get_result(s2, label) == Ok::<Seq<char>, Error>(secret2)
        }),
{
    let (s1, r1) = create_step(s, label, secret1, false, true, false);
    assert(s1.index == s.index.push(label));
    assert(s1.index[s.index.len() as int] == label);
    assert(s1.index.contains(label));
    lemma_push_fresh_no_duplicates(s.index, label);
}

} // verus!
