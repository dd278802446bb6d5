//! The search read path: a pure, case-insensitive substring filter over the
//! label index, in index order. Case folding goes through
//! `str::to_lowercase` behind a trusted wrapper; the substring test and the
//! filter itself are verified.

use vstd::prelude::*;

use crate::index::LabelIndex;

verus! {

/// The case-folded form of a string, as `str::to_lowercase` computes it: a
/// function of the characters alone.
pub uninterp spec fn lower_of(s: Seq<char>) -> Seq<char>;

/// Whether `needle` occurs contiguously inside `hay`. The empty needle
/// occurs in everything.
pub open spec fn is_substring_of(needle: Seq<char>, hay: Seq<char>) -> bool {
    exists|k: int|
        0 <= k <= hay.len() - needle.len() && #[trigger] hay.subrange(k, k + needle.len())
            == needle
}

/// Whether a label matches a query: the case-folded query occurs inside the
/// case-folded label.
pub open spec fn label_matches(label: Seq<char>, query: Seq<char>) -> bool {
    is_substring_of(lower_of(query), lower_of(label))
}

/// Matches a label against `query`: the predicate behind search.
pub open spec fn match_pred(query: Seq<char>) -> spec_fn(Seq<char>) -> bool {
    |l: Seq<char>| label_matches(l, query)
}

/// The labels of the index that match `query`, in index order.
pub open spec fn matching_labels(index: Seq<Seq<char>>, query: Seq<char>) -> Seq<Seq<char>> {
    index.filter(match_pred(query))
}

/// Relies on str::to_lowercase: the case-folded characters are a function
/// of the input characters alone, and an empty input folds to nothing.
#[verifier::external_body]
fn lowercase_chars(s: &str) -> (r: Vec<char>)
    ensures
        r@ == lower_of(s@),
        s@.len() == 0 ==> r@.len() == 0,
{
    s.to_lowercase().chars().collect()
}

/// Whether `needle` stands at position `k` of `hay`.
fn occurs_at(hay: &Vec<char>, needle: &Vec<char>, k: usize) -> (r: bool)
    requires
        k + needle@.len() <= hay@.len(),
    ensures
        r == (hay@.subrange(k as int, k + needle@.len()) == needle@),
{
    let n = needle.len();
    let hlen = hay.len();
    let mut j: usize = 0;
    while j < n
        invariant
            n == needle@.len(),
            hlen == hay@.len(),
            k + n <= hlen,
            j <= n,
            forall|m: int| 0 <= m < j ==> hay@[k + m] == needle@[m],
        decreases n - j,
    {
        if hay[k + j] != needle[j] {
            proof {
                assert(hay@.subrange(k as int, k + needle@.len())[j as int] == hay@[k + j]);
            }
            return false;
        }
        j += 1;
    }
    proof {
        assert(hay@.subrange(k as int, k + needle@.len()) =~= needle@);
    }
    true
}

/// Whether `label` matches `query`, case-insensitively. An empty query
/// matches every label.
pub fn matches_query(label: &String, query: &String) -> (r: bool)
    ensures
        r == label_matches(label@, query@),
        query@.len() == 0 ==> r,
{
    let hay = lowercase_chars(label.as_str());
    let needle = lowercase_chars(query.as_str());
    if needle.len() == 0 {
        proof {
            assert(hay@.subrange(0, 0 + needle@.len() as int) =~= needle@);
            assert(is_substring_of(needle@, hay@));
        }
        return true;
    }
    if needle.len() > hay.len() {
        return false;
    }
    let limit = hay.len() - needle.len();
    let mut k: usize = 0;
    while k <= limit
        invariant
            hay@ == lower_of(label@),
            needle@ == lower_of(query@),
            limit == hay@.len() - needle@.len(),
            1 <= needle@.len() <= hay@.len(),
            hay@.len() <= usize::MAX,
            k <= limit + 1,
            forall|m: int|
                0 <= m < k ==> #[trigger] hay@.subrange(m, m + needle@.len()) != needle@,
        decreases limit + 1 - k,
    {
        if occurs_at(&hay, &needle, k) {
            proof {
                assert(0 <= k as int <= hay@.len() - needle@.len());
            }
            return true;
        }
        k += 1;
    }
    false
}

/// Returns every label of the index that matches `query`, case-insensitively
/// and in index order; an empty query returns the whole index.
pub fn search(index: &LabelIndex, query: &String) -> (r: Vec<String>)
    ensures
        r.deep_view() == matching_labels(index@, query@),
        query@.len() == 0 ==> r.deep_view() == index@,
{
    let ghost pred = match_pred(query@);
    let labels = index.to_labels();
    let mut out: Vec<String> = Vec::new();
    let n = labels.len();
    let mut i: usize = 0;
    while i < n
        invariant
            n == labels@.len(),
            labels.deep_view() == index@,
            i <= n,
            pred == match_pred(query@),
            out.deep_view() == index@.subrange(0, i as int).filter(pred),
            query@.len() == 0 ==> forall|j: int| 0 <= j < i ==> pred(index@[j]),
        decreases n - i,
    {
        let ghost prefix = index@.subrange(0, i as int);
        let ghost pre = out.deep_view();
        proof {
            assert(labels.deep_view()[i as int] == labels@[i as int]@);
        }
        if matches_query(&labels[i], query) {
            out.push(labels[i].clone());
            proof {
                reveal(Seq::filter);
                assert forall|j: int| 0 <= j < pre.len() + 1 implies out.deep_view()[j]
                    == pre.push(index@[i as int])[j] by {
                    if j < pre.len() {
                        assert(out.deep_view()[j] == pre[j]);
                    } else {
                        assert(out.deep_view()[j] == labels@[i as int]@);
                    }
                }
                assert(out.deep_view() =~= pre.push(index@[i as int]));
                assert(index@.subrange(0, i + 1).drop_last() =~= prefix);
                assert(index@.subrange(0, i + 1).last() == index@[i as int]);
                assert(pred(index@[i as int]));
                assert(out.deep_view() =~= index@.subrange(0, i + 1).filter(pred));
            }
        } else {
            proof {
                reveal(Seq::filter);
                assert(index@.subrange(0, i + 1).drop_last() =~= prefix);
                assert(index@.subrange(0, i + 1).last() == index@[i as int]);
                assert(!pred(index@[i as int]));
                assert(out.deep_view() =~= index@.subrange(0, i + 1).filter(pred));
            }
        }
        i += 1;
    }
    proof {
        assert(index@.subrange(0, n as int) =~= index@);
        if query@.len() == 0 {
            lemma_filter_all_true(index@, pred);
        }
    }
    out
}

/// Filtering with a predicate that holds everywhere keeps the sequence.
proof fn lemma_filter_all_true<A>(s: Seq<A>, pred: spec_fn(A) -> bool)
    requires
        forall|i: int| 0 <= i < s.len() ==> pred(s[i]),
    ensures
        s.filter(pred) == s,
    decreases s.len(),
{
    reveal(Seq::filter);
    if s.len() != 0 {
        let rest = s.drop_last();
        lemma_filter_all_true(rest, pred);
        assert(pred(s.last()));
        assert(s.filter(pred) =~= rest.push(s.last()));
        assert(rest.push(s.last()) =~= s);
    }
}

} // verus!
