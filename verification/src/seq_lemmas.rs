use vstd::prelude::*;

verus! {

/// Filtering a sequence with one element more.
pub proof fn lemma_filter_push<A>(s: Seq<A>, x: A, pred: spec_fn(A) -> bool)
    ensures
        s.push(x).filter(pred) == if pred(x) {
            s.filter(pred).push(x)
        } else {
            s.filter(pred)
        },
{
    reveal(Seq::filter);
    assert(s.push(x).drop_last() =~= s);
}

/// Every element of a filtered sequence satisfies the predicate.
pub proof fn lemma_filter_satisfies<A>(s: Seq<A>, pred: spec_fn(A) -> bool)
    ensures
        forall|i: int| 0 <= i < s.filter(pred).len() ==> pred(#[trigger] s.filter(pred)[i]),
        s.filter(pred).len() <= s.len(),
    decreases s.len(),
{
    reveal(Seq::filter);
    if s.len() > 0 {
        lemma_filter_satisfies(s.drop_last(), pred);
    }
}

/// A sequence whose elements all satisfy the predicate is its own filtering.
pub proof fn lemma_filter_all<A>(s: Seq<A>, pred: spec_fn(A) -> bool)
    requires
        forall|i: int| 0 <= i < s.len() ==> pred(#[trigger] s[i]),
    ensures
        s.filter(pred) == s,
    decreases s.len(),
{
    reveal(Seq::filter);
    if s.len() > 0 {
        let init = s.drop_last();
        assert forall|i: int| 0 <= i < init.len() implies pred(#[trigger] init[i]) by {
            assert(init[i] == s[i]);
        }
        lemma_filter_all(init, pred);
        assert(init.push(s.last()) =~= s);
    }
}

/// A sequence none of whose elements satisfies the predicate filters to nothing.
pub proof fn lemma_filter_none<A>(s: Seq<A>, pred: spec_fn(A) -> bool)
    requires
        forall|i: int| 0 <= i < s.len() ==> !pred(#[trigger] s[i]),
    ensures
        s.filter(pred) == Seq::<A>::empty(),
    decreases s.len(),
{
    reveal(Seq::filter);
    if s.len() > 0 {
        let init = s.drop_last();
        assert forall|i: int| 0 <= i < init.len() implies !pred(#[trigger] init[i]) by {
            assert(init[i] == s[i]);
        }
        lemma_filter_none(init, pred);
    } else {
        assert(s =~= Seq::<A>::empty());
    }
}

/// Filtering distributes over concatenation.
pub proof fn lemma_filter_concat<A>(a: Seq<A>, b: Seq<A>, pred: spec_fn(A) -> bool)
    ensures
        (a + b).filter(pred) == a.filter(pred) + b.filter(pred),
    decreases b.len(),
{
    reveal(Seq::filter);
    if b.len() == 0 {
        assert(a + b =~= a);
        assert(a.filter(pred) + b.filter(pred) =~= a.filter(pred));
    } else {
        let init = b.drop_last();
        lemma_filter_concat(a, init, pred);
        assert((a + b).drop_last() =~= a + init);
        assert((a + b).last() == b.last());
        if pred(b.last()) {
            assert((a.filter(pred) + init.filter(pred)).push(b.last()) =~= a.filter(pred)
                + init.filter(pred).push(b.last()));
        }
    }
}

/// Predicates that agree on the elements of a sequence filter it alike.
pub proof fn lemma_filter_agree<A>(s: Seq<A>, p: spec_fn(A) -> bool, q: spec_fn(A) -> bool)
    requires
        forall|i: int| 0 <= i < s.len() ==> p(#[trigger] s[i]) == q(s[i]),
    ensures
        s.filter(p) == s.filter(q),
    decreases s.len(),
{
    reveal(Seq::filter);
    if s.len() > 0 {
        let init = s.drop_last();
        assert forall|i: int| 0 <= i < init.len() implies p(#[trigger] init[i]) == q(init[i]) by {
            assert(init[i] == s[i]);
        }
        lemma_filter_agree(init, p, q);
        assert(p(s[s.len() - 1]) == q(s[s.len() - 1]));
    }
}

/// Filtering twice is filtering by both predicates: where the second
/// implies the first on the elements, the first filtering changes nothing.
pub proof fn lemma_filter_twice<A>(s: Seq<A>, first: spec_fn(A) -> bool, second: spec_fn(A) -> bool)
    requires
        forall|i: int| 0 <= i < s.len() && second(#[trigger] s[i]) ==> first(s[i]),
    ensures
        s.filter(first).filter(second) == s.filter(second),
    decreases s.len(),
{
    reveal(Seq::filter);
    if s.len() > 0 {
        let init = s.drop_last();
        assert forall|i: int| 0 <= i < init.len() && second(#[trigger] init[i]) implies first(
            init[i],
        ) by {
            assert(init[i] == s[i]);
        }
        lemma_filter_twice(init, first, second);
        let x = s[s.len() - 1];
        assert(x == s.last());
        if first(x) {
            lemma_filter_push(init.filter(first), x, second);
        }
    }
}

/// Filtering by two predicates in turn is filtering by a third that holds
/// exactly where both hold.
pub proof fn lemma_filter_both<A>(
    s: Seq<A>,
    first: spec_fn(A) -> bool,
    second: spec_fn(A) -> bool,
    both: spec_fn(A) -> bool,
)
    requires
        forall|i: int| 0 <= i < s.len() ==> both(#[trigger] s[i]) == (first(s[i]) && second(s[i])),
    ensures
        s.filter(first).filter(second) == s.filter(both),
    decreases s.len(),
{
    reveal(Seq::filter);
    if s.len() > 0 {
        let init = s.drop_last();
        assert forall|i: int| 0 <= i < init.len() implies both(#[trigger] init[i]) == (first(
            init[i],
        ) && second(init[i])) by {
            assert(init[i] == s[i]);
        }
        lemma_filter_both(init, first, second, both);
        let x = s[s.len() - 1];
        assert(x == s.last());
        if first(x) {
            lemma_filter_push(init.filter(first), x, second);
        }
    }
}

/// An element that satisfies the predicate stands in the filtered sequence.
pub proof fn lemma_filter_keeps<A>(s: Seq<A>, pred: spec_fn(A) -> bool, i: int)
    requires
        0 <= i < s.len(),
        pred(s[i]),
    ensures
        exists|j: int| 0 <= j < s.filter(pred).len() && s.filter(pred)[j] == s[i],
    decreases s.len(),
{
    reveal(Seq::filter);
    let init = s.drop_last();
    if i == s.len() - 1 {
        assert(s.last() == s[i]);
        let j = init.filter(pred).len() as int;
        assert(s.filter(pred)[j] == s[i]);
    } else {
        assert(init[i] == s[i]);
        lemma_filter_keeps(init, pred, i);
        let j = choose|j: int| 0 <= j < init.filter(pred).len() && init.filter(pred)[j] == init[i];
        assert(s.filter(pred)[j] == s[i]);
    }
}

/// Every element of a filtered sequence stands in the sequence it was filtered from.
pub proof fn lemma_filter_source<A>(s: Seq<A>, pred: spec_fn(A) -> bool, i: int)
    requires
        0 <= i < s.filter(pred).len(),
    ensures
        exists|k: int| 0 <= k < s.len() && s[k] == s.filter(pred)[i],
        pred(s.filter(pred)[i]),
    decreases s.len(),
{
    reveal(Seq::filter);
    if s.len() > 0 {
        let init = s.drop_last();
        let sub = init.filter(pred);
        if i < sub.len() {
            lemma_filter_source(init, pred, i);
            let k = choose|k: int| 0 <= k < init.len() && init[k] == sub[i];
            assert(s[k] == s.filter(pred)[i]);
        } else {
            assert(s[s.len() - 1] == s.filter(pred)[i]);
        }
    }
}

/// Filtering one element more either appends that element or changes nothing.
pub proof fn lemma_filter_step<A>(s: Seq<A>, pred: spec_fn(A) -> bool, i: int)
    requires
        0 <= i < s.len(),
    ensures
        s.take(i + 1).filter(pred) == if pred(s[i]) {
            s.take(i).filter(pred).push(s[i])
        } else {
            s.take(i).filter(pred)
        },
{
    reveal(Seq::filter);
    assert(s.take(i + 1).drop_last() =~= s.take(i));
    assert(s.take(i + 1).last() == s[i]);
}

} // verus!
