//! The label index: an insertion-ordered, duplicate-free list of labels.
//! Because the secure backend offers no enumeration, this index is the
//! authoritative surface for listing and searching labels.

use vstd::prelude::*;

verus! {

broadcast use vstd::seq_lib::group_filter_ensures;

/// The persisted label index. Its view is the sequence of labels, each as a
/// sequence of characters; a well-formed index holds no duplicate labels.
pub struct LabelIndex {
    labels: Vec<String>,
}

impl View for LabelIndex {
    type V = Seq<Seq<char>>;

    closed spec fn view(&self) -> Seq<Seq<char>> {
        self.labels.deep_view()
    }
}

/// Keeps a label when it differs from `label`: the predicate behind label
/// removal.
pub open spec fn neq_pred(label: Seq<char>) -> spec_fn(Seq<char>) -> bool {
    |l: Seq<char>| l != label
}

/// The index contents with every occurrence of `label` removed, order kept.
pub open spec fn without_label(s: Seq<Seq<char>>, label: Seq<char>) -> Seq<Seq<char>> {
    s.filter(neq_pred(label))
}

/// Appending an element that does not yet occur keeps a sequence
/// duplicate-free.
pub proof fn lemma_push_fresh_no_duplicates<A>(s: Seq<A>, x: A)
    requires
        s.no_duplicates(),
        !s.contains(x),
    ensures
        s.push(x).no_duplicates(),
{
    let p = s.push(x);
    assert forall|i: int, j: int|
        0 <= i < p.len() && 0 <= j < p.len() && i != j implies p[i] != p[j] by {
        if i < s.len() && j < s.len() {
            assert(s[i] == p[i] && s[j] == p[j]);
        } else if i < s.len() {
            assert(s[i] != x);
        } else {
            assert(s[j] != x);
        }
    }
}

/// A no-duplicates sequence keeps no duplicates when filtered.
pub proof fn lemma_filter_preserves_no_duplicates<A>(s: Seq<A>, pred: spec_fn(A) -> bool)
    requires
        s.no_duplicates(),
    ensures
        s.filter(pred).no_duplicates(),
    decreases s.len(),
{
    reveal(Seq::filter);
    if s.len() != 0 {
        let rest = s.drop_last();
        lemma_filter_preserves_no_duplicates(rest, pred);
        if pred(s.last()) {
            assert forall|i: int| 0 <= i < rest.filter(pred).len() implies rest.filter(
                pred,
            )[i] != s.last() by {
                let e = rest.filter(pred)[i];
                assert(rest.filter(pred).contains(e));
                rest.lemma_filter_contains_rev(pred, e);
                let j = choose|j: int| 0 <= j < rest.len() && rest[j] == e;
                assert(s[j] == rest[j]);
                assert(s[j] != s[s.len() - 1]);
            }
        }
    }
}

impl LabelIndex {
    /// A well-formed index lists every label at most once.
    pub open spec fn wf(&self) -> bool {
        self@.no_duplicates()
    }

    /// The empty index: the state before any label was ever created.
    pub fn new() -> (r: LabelIndex)
        ensures
            r@ == Seq::<Seq<char>>::empty(),
            r.wf(),
    {
        let r = LabelIndex { labels: Vec::new() };
        proof {
            assert(r@ =~= Seq::<Seq<char>>::empty());
        }
        r
    }

    /// Wraps an already-loaded label list, for example one parsed from the
    /// persisted index file.
    pub fn from_labels(labels: Vec<String>) -> (r: LabelIndex)
        ensures
            r@ == labels.deep_view(),
    {
        LabelIndex { labels }
    }

    /// Whether `label` is a member of the index (case-sensitive, exact).
    pub fn contains(&self, label: &String) -> (r: bool)
        ensures
            r == self@.contains(label@),
    {
        let n = self.labels.len();
        let mut i: usize = 0;
        while i < n
            invariant
                n == self@.len(),
                i <= n,
                forall|j: int| 0 <= j < i ==> self@[j] != label@,
            decreases n - i,
        {
            if self.labels[i].eq(label) {
                proof {
                    assert(self@[i as int] == label@);
                }
                return true;
            }
            i += 1;
        }
        false
    }

    /// Appends `label` at the end of the index. Appending a label that is
    /// not yet a member keeps the index duplicate-free.
    pub fn append(&mut self, label: &String)
        ensures
            final(self)@ == old(self)@.push(label@),
            old(self).wf() && !old(self)@.contains(label@) ==> final(self).wf(),
    {
        self.labels.push(label.clone());
        proof {
            assert(self@ =~= old(self)@.push(label@));
            if old(self).wf() && !old(self)@.contains(label@) {
                lemma_push_fresh_no_duplicates(old(self)@, label@);
            }
        }
    }

    /// Removes every occurrence of `label`, keeping the order of the rest.
    pub fn remove(&mut self, label: &String)
        ensures
            final(self)@ == without_label(old(self)@, label@),
            !final(self)@.contains(label@),
            old(self).wf() ==> final(self).wf(),
    {
        let ghost pred = neq_pred(label@);
        let mut kept: Vec<String> = Vec::new();
        let n = self.labels.len();
        let mut i: usize = 0;
        while i < n
            invariant
                n == self@.len(),
                i <= n,
                pred == neq_pred(label@),
                kept.deep_view() == self@.subrange(0, i as int).filter(pred),
            decreases n - i,
        {
            let ghost prefix = self@.subrange(0, i as int);
            let ghost pre = kept.deep_view();
            if !self.labels[i].eq(label) {
                kept.push(self.labels[i].clone());
                proof {
                    reveal(Seq::filter);
                    assert forall|j: int| 0 <= j < pre.len() + 1 implies kept.deep_view()[j]
                        == pre.push(self@[i as int])[j] by {
                        if j < pre.len() {
                            assert(kept.deep_view()[j] == pre[j]);
                        } else {
                            assert(kept.deep_view()[j] == self@[i as int]);
                        }
                    }
                    assert(kept.deep_view() =~= pre.push(self@[i as int]));
                    assert(self@.subrange(0, i + 1).drop_last() =~= prefix);
                    assert(self@.subrange(0, i + 1).last() == self@[i as int]);
                    assert(self@[i as int] == self.labels@[i as int]@);
                    assert(pred(self@[i as int]));
                    assert(kept.deep_view() =~= self@.subrange(0, i + 1).filter(pred));
                }
            } else {
                proof {
                    reveal(Seq::filter);
                    assert(self@.subrange(0, i + 1).drop_last() =~= prefix);
                    assert(self@.subrange(0, i + 1).last() == self@[i as int]);
                    assert(self@[i as int] == self.labels@[i as int]@);
                    assert(!pred(self@[i as int]));
                    assert(kept.deep_view() =~= self@.subrange(0, i + 1).filter(pred));
                }
            }
            i += 1;
        }
        proof {
            assert(self@.subrange(0, n as int) =~= self@);
        }
        self.labels = kept;
        proof {
            if self@.contains(label@) {
                old(self)@.lemma_filter_contains_rev(pred, label@);
            }
            if old(self).wf() {
                lemma_filter_preserves_no_duplicates(old(self)@, pred);
            }
        }
    }

    /// The labels as an owned list, in index order.
    pub fn to_labels(&self) -> (r: Vec<String>)
        ensures
            r.deep_view() == self@,
    {
        let mut out: Vec<String> = Vec::new();
        let n = self.labels.len();
        let mut i: usize = 0;
        while i < n
            invariant
                n == self@.len(),
                i <= n,
                out.deep_view() == self@.subrange(0, i as int),
            decreases n - i,
        {
            let ghost pre = out.deep_view();
            out.push(self.labels[i].clone());
            proof {
                assert forall|j: int| 0 <= j < pre.len() + 1 implies out.deep_view()[j]
                    == self@.subrange(0, i + 1)[j] by {
                    if j < pre.len() {
                        assert(out.deep_view()[j] == pre[j]);
                        assert(pre[j] == self@[j]);
                    } else {
                        assert(out.deep_view()[j] == self@[i as int]);
                    }
                }
                assert(out.deep_view() =~= self@.subrange(0, i + 1));
            }
            i += 1;
        }
        proof {
            assert(self@.subrange(0, n as int) =~= self@);
        }
        out
    }
}

} // verus!
