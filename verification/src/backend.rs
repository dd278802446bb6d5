//! An in-memory secure backend: an opaque per-label secret store, modeled
//! as an association list whose view is a map from label to secret. It is
//! the in-memory stand-in for the OS credential store, so that the
//! synchronizer over both stores can be exercised and specified; the real
//! store is driven by the unverified shell through the same plans.

use vstd::prelude::*;

verus! {

broadcast use vstd::seq_lib::group_filter_ensures;

/// One stored entry: a label and the secret kept under it.
pub type Entry = (Seq<char>, Seq<char>);

/// Whether some entry of `s` carries the key `k`.
pub open spec fn has_key(s: Seq<Entry>, k: Seq<char>) -> bool {
    exists|i: int| 0 <= i < s.len() && (#[trigger] s[i]).0 == k
}

/// The secret stored under `k`, meaningful only when `k` occurs in `s` and
/// keys are unique.
pub open spec fn value_of(s: Seq<Entry>, k: Seq<char>) -> Seq<char> {
    let i = choose|i: int| 0 <= i < s.len() && (#[trigger] s[i]).0 == k;
    s[i].1
}

/// No two entries carry the same key.
pub open spec fn unique_keys(s: Seq<Entry>) -> bool {
    forall|i: int, j: int|
        0 <= i < s.len() && 0 <= j < s.len() && i != j ==> (#[trigger] s[i]).0 != (
        #[trigger] s[j]).0
}

/// The association list read as a map.
pub open spec fn map_of(s: Seq<Entry>) -> Map<Seq<char>, Seq<char>> {
    Map::new(|k: Seq<char>| has_key(s, k), |k: Seq<char>| value_of(s, k))
}

/// With unique keys, the entry at `i` is the one that `value_of` reads.
proof fn lemma_value_at(s: Seq<Entry>, k: Seq<char>, i: int)
    requires
        unique_keys(s),
        0 <= i < s.len(),
        s[i].0 == k,
    ensures
        has_key(s, k),
        value_of(s, k) == s[i].1,
{
    assert(has_key(s, k));
    let j = choose|j: int| 0 <= j < s.len() && (#[trigger] s[j]).0 == k;
    if i != j {
        assert(s[i].0 != s[j].0);
    }
}

/// Filtering with a predicate that keeps exactly the other keys removes
/// exactly the key `k` from the map.
proof fn lemma_filter_removes_key(s: Seq<Entry>, pred: spec_fn(Entry) -> bool, k: Seq<char>)
    requires
        unique_keys(s),
        forall|e: Entry| #[trigger] pred(e) == (e.0 != k),
    ensures
        unique_keys(s.filter(pred)),
        !has_key(s.filter(pred), k),
        map_of(s.filter(pred)) == map_of(s).remove(k),
{
    let f = s.filter(pred);
    assert forall|i: int, j: int|
        0 <= i < f.len() && 0 <= j < f.len() && i != j implies (#[trigger] f[i]).0 != (
    #[trigger] f[j]).0 by {
        assert(f.contains(f[i]));
        assert(f.contains(f[j]));
        s.lemma_filter_contains_rev(pred, f[i]);
        s.lemma_filter_contains_rev(pred, f[j]);
        let ii = choose|m: int| 0 <= m < s.len() && s[m] == f[i];
        let jj = choose|m: int| 0 <= m < s.len() && s[m] == f[j];
        if f[i].0 == f[j].0 {
            if ii != jj {
                assert(s[ii].0 != s[jj].0);
            } else {
                lemma_filter_distinct_positions(s, pred, i, j);
            }
        }
    }
    assert forall|i: int| 0 <= i < f.len() implies (#[trigger] f[i]).0 != k by {
        s.lemma_filter_pred(pred, i);
    }
    assert forall|k2: Seq<char>| #[trigger]
        has_key(f, k2) implies k2 != k && has_key(s, k2) && value_of(f, k2) == value_of(
        s,
        k2,
    ) by {
        let i = choose|i: int| 0 <= i < f.len() && (#[trigger] f[i]).0 == k2;
        assert(f.contains(f[i]));
        s.lemma_filter_contains_rev(pred, f[i]);
        let m = choose|m: int| 0 <= m < s.len() && s[m] == f[i];
        lemma_value_at(s, k2, m);
        lemma_value_at(f, k2, i);
    }
    assert forall|k2: Seq<char>| k2 != k && #[trigger] has_key(s, k2) implies has_key(
        f,
        k2,
    ) by {
        let i = choose|i: int| 0 <= i < s.len() && (#[trigger] s[i]).0 == k2;
        s.lemma_filter_contains(pred, i);
        let m = choose|m: int| 0 <= m < f.len() && f[m] == s[i];
        assert(f[m].0 == k2);
    }
    assert(map_of(f) =~= map_of(s).remove(k));
}

/// Two distinct positions of a filtered sequence come from distinct
/// positions of the original, so with unique keys their keys differ.
proof fn lemma_filter_distinct_positions(s: Seq<Entry>, pred: spec_fn(Entry) -> bool, i: int, j: int)
    requires
        unique_keys(s),
        0 <= i < s.filter(pred).len(),
        0 <= j < s.filter(pred).len(),
        i != j,
    ensures
        s.filter(pred)[i].0 != s.filter(pred)[j].0,
    decreases s.len(),
{
    reveal(Seq::filter);
    let f = s.filter(pred);
    if s.len() != 0 {
        let rest = s.drop_last();
        let fr = rest.filter(pred);
        if pred(s.last()) {
            let lo = if i < j {
                i
            } else {
                j
            };
            let hi = if i < j {
                j
            } else {
                i
            };
            if hi < fr.len() {
                lemma_filter_distinct_positions(rest, pred, i, j);
            } else {
                assert(f[hi] == s.last());
                assert(fr.contains(fr[lo]));
                rest.lemma_filter_contains_rev(pred, fr[lo]);
                let m = choose|m: int| 0 <= m < rest.len() && rest[m] == fr[lo];
                assert(s[m] == rest[m]);
                assert(s[m].0 != s[s.len() - 1].0);
            }
        } else {
            lemma_filter_distinct_positions(rest, pred, i, j);
        }
    }
}

/// Appending a fresh key inserts it into the map.
proof fn lemma_push_inserts_key(s: Seq<Entry>, k: Seq<char>, v: Seq<char>)
    requires
        unique_keys(s),
        !has_key(s, k),
    ensures
        unique_keys(s.push((k, v))),
        map_of(s.push((k, v))) == map_of(s).insert(k, v),
{
    let p = s.push((k, v));
    assert forall|i: int, j: int|
        0 <= i < p.len() && 0 <= j < p.len() && i != j implies (#[trigger] p[i]).0 != (
    #[trigger] p[j]).0 by {
        if i < s.len() && j < s.len() {
            assert(s[i] == p[i] && s[j] == p[j]);
        } else if i < s.len() {
            assert(p[j] == (k, v));
            assert(s[i].0 != k);
        } else {
            assert(p[i] == (k, v));
            assert(s[j].0 != k);
        }
    }
    assert(p[s.len() as int] == (k, v));
    lemma_value_at(p, k, s.len() as int);
    assert forall|k2: Seq<char>| #[trigger] has_key(p, k2) && k2 != k implies has_key(s, k2)
        && value_of(p, k2) == value_of(s, k2) by {
        let i = choose|i: int| 0 <= i < p.len() && (#[trigger] p[i]).0 == k2;
        assert(i < s.len());
        assert(s[i] == p[i]);
        lemma_value_at(s, k2, i);
        lemma_value_at(p, k2, i);
    }
    assert forall|k2: Seq<char>| #[trigger] has_key(s, k2) implies has_key(p, k2) by {
        let i = choose|i: int| 0 <= i < s.len() && (#[trigger] s[i]).0 == k2;
        assert(p[i].0 == k2);
    }
    assert(map_of(p) =~= map_of(s).insert(k, v));
}

/// The in-memory secret store. Its view is the map from stored label to
/// stored secret; a well-formed store keeps one entry per label.
pub struct MemBackend {
    entries: Vec<(String, String)>,
}

impl View for MemBackend {
    type V = Map<Seq<char>, Seq<char>>;

    closed spec fn view(&self) -> Map<Seq<char>, Seq<char>> {
        map_of(self.entry_views())
    }
}

impl MemBackend {
    /// The stored entries, each as a pair of character sequences.
    pub closed spec fn entry_views(&self) -> Seq<Entry> {
        Seq::new(self.entries@.len(), |i: int| (self.entries@[i].0@, self.entries@[i].1@))
    }

    /// A well-formed store keeps at most one entry per label.
    pub open spec fn wf(&self) -> bool {
        unique_keys(self.entry_views())
    }

    /// The empty store.
    pub fn new() -> (r: MemBackend)
        ensures
            r@ == Map::<Seq<char>, Seq<char>>::empty(),
            r.wf(),
    {
        let r = MemBackend { entries: Vec::new() };
        proof {
            assert(r.entry_views() =~= Seq::<Entry>::empty());
            assert(r@ =~= Map::<Seq<char>, Seq<char>>::empty());
        }
        r
    }

    /// Looks up the secret stored under `label`, if any.
    pub fn get(&self, label: &String) -> (r: Option<String>)
        requires
            self.wf(),
        ensures
            r is Some <==> self@.contains_key(label@),
            r matches Some(secret) ==> secret@ == self@[label@],
    {
        let n = self.entries.len();
        let mut i: usize = 0;
        while i < n
            invariant
                self.wf(),
                n == self.entry_views().len(),
                i <= n,
                forall|j: int| 0 <= j < i ==> (#[trigger] self.entry_views()[j]).0 != label@,
            decreases n - i,
        {
            if self.entries[i].0.eq(label) {
                let secret = self.entries[i].1.clone();
                proof {
                    assert(self.entry_views()[i as int].0 == label@);
                    lemma_value_at(self.entry_views(), label@, i as int);
                    assert(secret@ == self.entry_views()[i as int].1);
                }
                return Some(secret);
            }
            proof {
                assert(self.entry_views()[i as int].0 == self.entries@[i as int].0@);
            }
            i += 1;
        }
        proof {
            assert(!has_key(self.entry_views(), label@));
        }
        None
    }

    /// Removes the entry stored under `label`, if any.
    pub fn delete(&mut self, label: &String)
        requires
            old(self).wf(),
        ensures
            final(self)@ == old(self)@.remove(label@),
            !final(self)@.contains_key(label@),
            final(self).wf(),
    {
        let ghost pred = |e: Entry| e.0 != label@;
        let mut kept: Vec<(String, String)> = Vec::new();
        let n = self.entries.len();
        let mut i: usize = 0;
        proof {
            assert(views_of(kept@) =~= Seq::<Entry>::empty());
            assert(self.entry_views() =~= views_of(self.entries@));
        }
        while i < n
            invariant
                n == self.entries@.len(),
                i <= n,
                pred == (|e: Entry| e.0 != label@),
                views_of(kept@) == views_of(self.entries@).subrange(0, i as int).filter(pred),
            decreases n - i,
        {
            let ghost whole = views_of(self.entries@);
            let ghost prefix = whole.subrange(0, i as int);
            let ghost pre = views_of(kept@);
            if !self.entries[i].0.eq(label) {
                let e = (self.entries[i].0.clone(), self.entries[i].1.clone());
                kept.push(e);
                proof {
                    reveal(Seq::filter);
                    assert forall|j: int| 0 <= j < pre.len() + 1 implies views_of(kept@)[j]
                        == pre.push(whole[i as int])[j] by {
                        if j < pre.len() {
                            assert(views_of(kept@)[j] == pre[j]);
                        } else {
                            assert(views_of(kept@)[j] == whole[i as int]);
                        }
                    }
                    assert(views_of(kept@) =~= pre.push(whole[i as int]));
                    assert(whole.subrange(0, i + 1).drop_last() =~= prefix);
                    assert(whole.subrange(0, i + 1).last() == whole[i as int]);
                    assert(pred(whole[i as int]));
                    assert(views_of(kept@) =~= whole.subrange(0, i + 1).filter(pred));
                }
            } else {
                proof {
                    reveal(Seq::filter);
                    assert(whole.subrange(0, i + 1).drop_last() =~= prefix);
                    assert(whole.subrange(0, i + 1).last() == whole[i as int]);
                    assert(!pred(whole[i as int]));
                    assert(views_of(kept@) =~= whole.subrange(0, i + 1).filter(pred));
                }
            }
            i += 1;
        }
        proof {
            assert(views_of(self.entries@).subrange(0, n as int) =~= views_of(self.entries@));
        }
        self.entries = kept;
        proof {
            assert(self.entry_views() =~= views_of(kept@));
            assert(old(self).entry_views() =~= views_of(old(self).entries@));
            lemma_filter_removes_key(old(self).entry_views(), pred, label@);
        }
    }

    /// Stores `secret` under `label`, replacing any earlier secret.
    pub fn set(&mut self, label: &String, secret: &String)
        requires
            old(self).wf(),
        ensures
            final(self)@ == old(self)@.insert(label@, secret@),
            final(self).wf(),
    {
        self.delete(label);
        let ghost mid = self.entry_views();
        let ghost mid_entries = self.entries@;
        let e = (label.clone(), secret.clone());
        self.entries.push(e);
        proof {
            assert forall|j: int| 0 <= j < mid.len() + 1 implies self.entry_views()[j]
                == mid.push((label@, secret@))[j] by {
                if j < mid.len() {
                    assert(self.entries@[j] == mid_entries[j]);
                    assert(mid[j] == (mid_entries[j].0@, mid_entries[j].1@));
                    assert(self.entry_views()[j] == (self.entries@[j].0@, self.entries@[j].1@));
                } else {
                    assert(self.entry_views()[j] == (label@, secret@));
                }
            }
            assert(self.entry_views() =~= mid.push((label@, secret@)));
            lemma_push_inserts_key(mid, label@, secret@);
            assert(old(self)@.remove(label@).insert(label@, secret@) =~= old(self)@.insert(
                label@,
                secret@,
            ));
        }
    }
}

/// The entries of an association list of strings, each as a pair of
/// character sequences.
pub open spec fn views_of(s: Seq<(String, String)>) -> Seq<Entry> {
    Seq::new(s.len(), |i: int| (s[i].0@, s[i].1@))
}

} // verus!
