//! Lookup and deletion reasoning over sequences of rows.
//!
//! Every table of the store is a sequence of rows.  A point lookup is "the
//! first row matching a predicate" and a deletion is a filter; the lemmas
//! here characterise both so each table operation can reuse them.

use vstd::prelude::*;

verus! {

/// The first element of `s` satisfying `p`, scanning from the front;
/// `None` when no element matches.
pub open spec fn first_match<A>(s: Seq<A>, p: spec_fn(A) -> bool) -> Option<A>
    decreases s.len(),
{
    if s.len() <= 0 {
        None
    } else if p(s[0]) {
        Some(s[0])
    } else {
        first_match(s.drop_first(), p)
    }
}

/// There is no match exactly when no element satisfies the predicate.
pub proof fn lemma_first_match_none<A>(s: Seq<A>, p: spec_fn(A) -> bool)
    ensures
        (first_match(s, p) is None) <==> (forall|k: int| 0 <= k < s.len() ==> !p(s[k])),
    decreases s.len(),
{
    if s.len() > 0 && !p(s[0]) {
        lemma_first_match_none(s.drop_first(), p);
        if first_match(s, p) is None {
            assert forall|k: int| 0 <= k < s.len() implies !p(s[k]) by {
                if k > 0 {
                    assert(s.drop_first()[k - 1] == s[k]);
                }
            }
        } else {
            let k0 = choose|k: int| 0 <= k < s.drop_first().len() && p(s.drop_first()[k]);
            assert(s.drop_first()[k0] == s[k0 + 1]);
        }
    }
}

/// If `j` is the earliest matching index, the lookup returns `s[j]`.
pub proof fn lemma_first_match_index<A>(s: Seq<A>, p: spec_fn(A) -> bool, j: int)
    requires
        0 <= j < s.len(),
        p(s[j]),
        forall|k: int| 0 <= k < j ==> !p(s[k]),
    ensures
        first_match(s, p) == Some(s[j]),
    decreases j,
{
    if j > 0 {
        assert(forall|k: int|
            0 <= k < s.drop_first().len() ==> #[trigger] s.drop_first()[k] == s[k + 1]);
        lemma_first_match_index(s.drop_first(), p, j - 1);
    }
}

/// A found row satisfies the predicate and occurs in the sequence.
pub proof fn lemma_first_match_found<A>(s: Seq<A>, p: spec_fn(A) -> bool)
    ensures
        first_match(s, p) matches Some(x) ==> p(x) && exists|k: int|
            0 <= k < s.len() && s[k] == x,
    decreases s.len(),
{
    if s.len() > 0 && !p(s[0]) {
        lemma_first_match_found(s.drop_first(), p);
        if first_match(s, p) is Some {
            let x = first_match(s, p)->Some_0;
            let k = choose|k: int| 0 <= k < s.drop_first().len() && s.drop_first()[k] == x;
            assert(s[k + 1] == x);
        }
    }
}

/// How a point update at the unique matching row shows up in a lookup:
/// rows that did not match still do not, so the lookup finds the patched
/// row exactly where it found the old one.
pub proof fn lemma_first_match_point<A>(olds: Seq<A>, news: Seq<A>, p: spec_fn(A) -> bool)
    requires
        olds.len() == news.len(),
        forall|i: int, j: int|
            0 <= i < j < olds.len() ==> !(p(#[trigger] olds[i]) && p(#[trigger] olds[j])),
        forall|j: int| 0 <= j < olds.len() ==> (p(#[trigger] news[j]) <==> p(#[trigger] olds[j])),
        forall|j: int| 0 <= j < olds.len() && !p(#[trigger] olds[j]) ==> news[j] == olds[j],
    ensures
        first_match(olds, p) is None ==> first_match(news, p) is None,
        forall|j: int|
            0 <= j < olds.len() && p(#[trigger] olds[j]) ==> first_match(olds, p) == Some(olds[j])
                && first_match(news, p) == Some(news[j]),
{
    lemma_first_match_none(olds, p);
    lemma_first_match_none(news, p);
    if first_match(olds, p) is None {
        assert forall|k: int| 0 <= k < news.len() implies !p(#[trigger] news[k]) by {
            assert(!p(olds[k]));
        }
    }
    assert forall|j: int| 0 <= j < olds.len() && p(#[trigger] olds[j]) implies first_match(
        olds,
        p,
    ) == Some(olds[j]) && first_match(news, p) == Some(news[j]) by {
        assert forall|k: int| 0 <= k < j implies !p(#[trigger] olds[k]) by {
            assert(!(p(olds[k]) && p(olds[j])));
        }
        assert forall|k: int| 0 <= k < j implies !p(#[trigger] news[k]) by {
            assert(!(p(olds[k]) && p(olds[j])));
            assert(!p(olds[k]));
        }
        lemma_first_match_index(olds, p, j);
        lemma_first_match_index(news, p, j);
    }
}

/// Every element of a filtered sequence occurs in the original sequence.
pub proof fn lemma_filter_from<A>(s: Seq<A>, p: spec_fn(A) -> bool)
    ensures
        forall|i: int|
            0 <= i < s.filter(p).len() ==> exists|k: int|
                0 <= k < s.len() && s[k] == #[trigger] s.filter(p)[i],
    decreases s.len(),
{
    reveal(Seq::filter);
    if s.len() > 0 {
        lemma_filter_from(s.drop_last(), p);
        let out = s.filter(p);
        let sub = s.drop_last().filter(p);
        assert forall|i: int| 0 <= i < out.len() implies exists|k: int|
            0 <= k < s.len() && s[k] == #[trigger] out[i] by {
            if i < sub.len() {
                assert(out[i] == sub[i]);
                let k = choose|k: int| 0 <= k < s.drop_last().len() && s.drop_last()[k] == sub[i];
                assert(s[k] == out[i]);
            } else {
                assert(s[s.len() - 1] == out[i]);
            }
        }
    }
}

/// Filtering keeps any pairwise property of the rows (no row is duplicated
/// by a deletion, so pairwise-distinct projections stay distinct).
pub proof fn lemma_filter_pairwise<A>(s: Seq<A>, p: spec_fn(A) -> bool, d: spec_fn(A, A) -> bool)
    requires
        forall|i: int, j: int| 0 <= i < j < s.len() ==> d(s[i], s[j]),
    ensures
        forall|i: int, j: int|
            0 <= i < j < s.filter(p).len() ==> d(
                #[trigger] s.filter(p)[i],
                #[trigger] s.filter(p)[j],
            ),
    decreases s.len(),
{
    reveal(Seq::filter);
    if s.len() > 0 {
        assert(forall|i: int, j: int|
            0 <= i < j < s.drop_last().len() ==> d(
                #[trigger] s.drop_last()[i],
                #[trigger] s.drop_last()[j],
            ));
        lemma_filter_pairwise(s.drop_last(), p, d);
        lemma_filter_from(s.drop_last(), p);
        let out = s.filter(p);
        let sub = s.drop_last().filter(p);
        assert forall|i: int, j: int| 0 <= i < j < out.len() implies d(out[i], out[j]) by {
            if j < sub.len() {
                assert(out[i] == sub[i] && out[j] == sub[j]);
            } else if p(s.last()) && j == sub.len() {
                assert(out[i] == sub[i] && out[j] == s.last());
                let k = choose|k: int|
                    0 <= k < s.drop_last().len() && s.drop_last()[k] == sub[i];
                assert(s[k] == sub[i]);
                assert(d(s[k], s[s.len() - 1]));
            }
        }
    }
}

/// Filtering keeps any property that held of every row.
pub proof fn lemma_filter_all<A>(s: Seq<A>, p: spec_fn(A) -> bool, q: spec_fn(A) -> bool)
    requires
        forall|i: int| 0 <= i < s.len() ==> q(s[i]),
    ensures
        forall|i: int| 0 <= i < s.filter(p).len() ==> q(#[trigger] s.filter(p)[i]),
{
    lemma_filter_from(s, p);
    assert forall|i: int| 0 <= i < s.filter(p).len() implies q(#[trigger] s.filter(p)[i]) by {
        let k = choose|k: int| 0 <= k < s.len() && s[k] == s.filter(p)[i];
        assert(q(s[k]));
    }
}

/// How one more scanned row extends a running filter of a prefix.
pub proof fn lemma_filter_take_step<A>(s: Seq<A>, p: spec_fn(A) -> bool, i: int)
    requires
        0 <= i < s.len(),
    ensures
        s.take(i + 1).filter(p) == if p(s[i]) {
            s.take(i).filter(p).push(s[i])
        } else {
            s.take(i).filter(p)
        },
{
    reveal(Seq::filter);
    assert(s.take(i + 1).drop_last() =~= s.take(i));
    assert(s.take(i + 1).last() == s[i]);
}

/// A full-length prefix is the sequence itself.
pub proof fn lemma_take_all<A>(s: Seq<A>)
    ensures
        s.take(s.len() as int) =~= s,
{
}

} // verus!
