//! Sums of a per-element quantity over a sequence.
use vstd::prelude::*;

verus! {

/// `f(s[0]) + ... + f(s[len - 1])`.
pub open spec fn sum_of<A>(s: Seq<A>, f: spec_fn(A) -> int) -> int
    decreases s.len(),
{
    if s.len() == 0 {
        0
    } else {
        sum_of(s.drop_last(), f) + f(s.last())
    }
}

pub proof fn lemma_sum_push<A>(s: Seq<A>, x: A, f: spec_fn(A) -> int)
    ensures
        sum_of(s.push(x), f) == sum_of(s, f) + f(x),
{
    assert(s.push(x).drop_last() =~= s);
}

pub proof fn lemma_sum_concat<A>(a: Seq<A>, b: Seq<A>, f: spec_fn(A) -> int)
    ensures
        sum_of(a + b, f) == sum_of(a, f) + sum_of(b, f),
    decreases b.len(),
{
    if b.len() == 0 {
        assert(a + b =~= a);
    } else {
        lemma_sum_concat(a, b.drop_last(), f);
        assert((a + b).drop_last() =~= a + b.drop_last());
    }
}

/// Removing the element at `i` takes its term out of the sum.
pub proof fn lemma_sum_remove<A>(s: Seq<A>, i: int, f: spec_fn(A) -> int)
    requires
        0 <= i < s.len(),
    ensures
        sum_of(s.remove(i), f) == sum_of(s, f) - f(s[i]),
{
    let a = s.subrange(0, i);
    let b = s.subrange(i + 1, s.len() as int);
    assert(s =~= a.push(s[i]) + b);
    assert(s.remove(i) =~= a + b);
    lemma_sum_concat(a.push(s[i]), b, f);
    lemma_sum_concat(a, b, f);
    lemma_sum_push(a, s[i], f);
}

/// Each term within `[lo, hi]` puts the sum within `[lo * len, hi * len]`.
pub proof fn lemma_sum_bounds<A>(s: Seq<A>, f: spec_fn(A) -> int, lo: int, hi: int)
    requires
        forall|i: int| 0 <= i < s.len() ==> lo <= #[trigger] f(s[i]) <= hi,
    ensures
        lo * s.len() <= sum_of(s, f) <= hi * s.len(),
    decreases s.len(),
{
    if s.len() > 0 {
        let d = s.drop_last();
        assert forall|i: int| 0 <= i < d.len() implies lo <= #[trigger] f(d[i]) <= hi by {
            assert(d[i] == s[i]);
        }
        lemma_sum_bounds(d, f, lo, hi);
        let k = d.len() as int;
        assert(lo * (k + 1) == lo * k + lo) by (nonlinear_arith);
        assert(hi * (k + 1) == hi * k + hi) by (nonlinear_arith);
        assert(f(s[k]) == f(s.last()));
    }
}

} // verus!
