//! Facts about sequences that the proofs of this crate share.
use vstd::prelude::*;

verus! {

/// Filtering nothing leaves nothing.
pub proof fn lemma_filter_none<A>(s: Seq<A>, pred: spec_fn(A) -> bool)
    ensures
        s.take(0).filter(pred) == Seq::<A>::empty(),
{
    reveal(Seq::filter);
    assert(s.take(0) =~= Seq::<A>::empty());
}

/// Filtering one element more of a sequence adds that element where the
/// predicate holds of it.
pub proof fn lemma_filter_next<A>(s: Seq<A>, pred: spec_fn(A) -> bool, i: int)
    requires
        0 <= i < s.len(),
    ensures
        s.take(i + 1).filter(pred) == if pred(s[i]) {
            s.take(i).filter(pred).push(s[i])
        } else {
            s.take(i).filter(pred)
        },
{
    reveal(Seq::filter);
    assert(s.take(i + 1).drop_last() =~= s.take(i));
}

/// An element of a filtered sequence satisfies the predicate and stands in
/// the sequence that was filtered.
pub proof fn lemma_filter_source<A>(s: Seq<A>, pred: spec_fn(A) -> bool, i: int) -> (j: int)
    requires
        0 <= i < s.filter(pred).len(),
    ensures
        0 <= j < s.len(),
        s[j] == s.filter(pred)[i],
        pred(s[j]),
    decreases s.len(),
{
    reveal(Seq::filter);
    if pred(s.last()) && i == s.drop_last().filter(pred).len() {
        s.len() - 1
    } else {
        lemma_filter_source(s.drop_last(), pred, i)
    }
}

/// Two elements of a filtered sequence stand in the sequence that was
/// filtered in the same order.
pub proof fn lemma_filter_sources<A>(s: Seq<A>, pred: spec_fn(A) -> bool, i: int, k: int) -> (r: (
    int,
    int,
))
    requires
        0 <= i < k < s.filter(pred).len(),
    ensures
        0 <= r.0 < r.1 < s.len(),
        s[r.0] == s.filter(pred)[i],
        s[r.1] == s.filter(pred)[k],
    decreases s.len(),
{
    reveal(Seq::filter);
    if pred(s.last()) && k == s.drop_last().filter(pred).len() {
        let j = lemma_filter_source(s.drop_last(), pred, i);
        (j, s.len() - 1)
    } else {
        lemma_filter_sources(s.drop_last(), pred, i, k)
    }
}

/// An element that satisfies the predicate stands in the filtered sequence.
pub proof fn lemma_filter_keeps<A>(s: Seq<A>, pred: spec_fn(A) -> bool, j: int) -> (i: int)
    requires
        0 <= j < s.len(),
        pred(s[j]),
    ensures
        0 <= i < s.filter(pred).len(),
        s.filter(pred)[i] == s[j],
    decreases s.len(),
{
    reveal(Seq::filter);
    if j == s.len() - 1 {
        s.drop_last().filter(pred).len() as int
    } else {
        lemma_filter_keeps(s.drop_last(), pred, j)
    }
}

/// Filtering a sequence with one element more.
pub proof fn lemma_filter_push<A>(s: Seq<A>, e: A, pred: spec_fn(A) -> bool)
    ensures
        s.push(e).filter(pred) == if pred(e) {
            s.filter(pred).push(e)
        } else {
            s.filter(pred)
        },
{
    reveal(Seq::filter);
    assert(s.push(e).drop_last() =~= s);
}

/// Two predicates that agree on the elements of a sequence filter it alike.
pub proof fn lemma_filter_same<A>(s: Seq<A>, p: spec_fn(A) -> bool, q: spec_fn(A) -> bool)
    requires
        forall|i: int| 0 <= i < s.len() ==> p(#[trigger] s[i]) == q(s[i]),
    ensures
        s.filter(p) == s.filter(q),
    decreases s.len(),
{
    reveal(Seq::filter);
    if s.len() > 0 {
        assert forall|i: int| 0 <= i < s.drop_last().len() implies p(#[trigger] s.drop_last()[i])
            == q(s.drop_last()[i]) by {
            assert(s.drop_last()[i] == s[i]);
        }
        lemma_filter_same(s.drop_last(), p, q);
        assert(p(s[s.len() - 1]) == q(s[s.len() - 1]));
    }
}

/// Filtering twice is filtering once by both predicates.
pub proof fn lemma_filter_twice<A>(
    s: Seq<A>,
    p: spec_fn(A) -> bool,
    q: spec_fn(A) -> bool,
    both: spec_fn(A) -> bool,
)
    requires
        forall|i: int| 0 <= i < s.len() ==> both(#[trigger] s[i]) == (p(s[i]) && q(s[i])),
    ensures
        s.filter(p).filter(q) == s.filter(both),
    decreases s.len(),
{
    reveal(Seq::filter);
    if s.len() > 0 {
        assert forall|i: int| 0 <= i < s.drop_last().len() implies both(
            #[trigger] s.drop_last()[i],
        ) == (p(s.drop_last()[i]) && q(s.drop_last()[i])) by {
            assert(s.drop_last()[i] == s[i]);
        }
        lemma_filter_twice(s.drop_last(), p, q, both);
        assert(both(s[s.len() - 1]) == (p(s[s.len() - 1]) && q(s[s.len() - 1])));
        if p(s.last()) {
            lemma_filter_push(s.drop_last().filter(p), s.last(), q);
        }
    }
}

/// A filter that no element passes leaves nothing.
pub proof fn lemma_filter_empty<A>(s: Seq<A>, pred: spec_fn(A) -> bool)
    requires
        forall|i: int| 0 <= i < s.len() ==> !pred(#[trigger] s[i]),
    ensures
        s.filter(pred) == Seq::<A>::empty(),
    decreases s.len(),
{
    reveal(Seq::filter);
    if s.len() > 0 {
        assert forall|i: int| 0 <= i < s.drop_last().len() implies !pred(
            #[trigger] s.drop_last()[i],
        ) by {
            assert(s.drop_last()[i] == s[i]);
        }
        lemma_filter_empty(s.drop_last(), pred);
        assert(!pred(s[s.len() - 1]));
    } else {
        assert(s =~= Seq::<A>::empty());
    }
}

/// A filter that every element passes changes nothing.
pub proof fn lemma_filter_all<A>(s: Seq<A>, pred: spec_fn(A) -> bool)
    requires
        forall|i: int| 0 <= i < s.len() ==> pred(#[trigger] s[i]),
    ensures
        s.filter(pred) == s,
    decreases s.len(),
{
    reveal(Seq::filter);
    if s.len() > 0 {
        assert forall|i: int| 0 <= i < s.drop_last().len() implies pred(
            #[trigger] s.drop_last()[i],
        ) by {
            assert(s.drop_last()[i] == s[i]);
        }
        lemma_filter_all(s.drop_last(), pred);
        assert(pred(s[s.len() - 1]));
        assert(s.drop_last().push(s.last()) =~= s);
    } else {
        assert(s.filter(pred) =~= s);
    }
}

} // verus!
