//! Finite sums and filters over sequences.

use vstd::prelude::*;

verus! {

/// `f(0) + f(1) + ... + f(n - 1)`.
pub open spec fn sum_to(n: int, f: spec_fn(int) -> nat) -> nat
    decreases n,
{
    if n <= 0 {
        0
    } else {
        sum_to(n - 1, f) + f(n - 1)
    }
}

/// Sums agree when the summands agree.
pub proof fn lemma_sum_to_congruent(n: int, f: spec_fn(int) -> nat, g: spec_fn(int) -> nat)
    requires
        forall|i: int| 0 <= i < n ==> #[trigger] f(i) == g(i),
    ensures
        sum_to(n, f) == sum_to(n, g),
    decreases n,
{
    if n > 0 {
        lemma_sum_to_congruent(n - 1, f, g);
    }
}

/// The sum of two summands is the sum of the two sums.
pub proof fn lemma_sum_to_add(n: int, f: spec_fn(int) -> nat, g: spec_fn(int) -> nat, h: spec_fn(int) -> nat)
    requires
        forall|i: int| 0 <= i < n ==> #[trigger] h(i) == f(i) + g(i),
    ensures
        sum_to(n, h) == sum_to(n, f) + sum_to(n, g),
    decreases n,
{
    if n > 0 {
        lemma_sum_to_add(n - 1, f, g, h);
    }
}

/// A summand that is `c` at index `j` alone and zero elsewhere sums to `c`
/// when `j` is in range, and to zero otherwise.
pub proof fn lemma_sum_to_single(n: int, f: spec_fn(int) -> nat, j: int, c: nat)
    requires
        forall|i: int| 0 <= i < n && i != j ==> #[trigger] f(i) == 0,
        0 <= j < n ==> f(j) == c,
    ensures
        sum_to(n, f) == if 0 <= j < n { c } else { 0 },
    decreases n,
{
    if n > 0 {
        lemma_sum_to_single(n - 1, f, j, c);
    }
}

/// A sequence none of whose elements satisfy `p` filters to nothing.
pub proof fn lemma_filter_none<A>(s: Seq<A>, p: spec_fn(A) -> bool)
    requires
        forall|i: int| 0 <= i < s.len() ==> !p(#[trigger] s[i]),
    ensures
        s.filter(p) == Seq::<A>::empty(),
    decreases s.len(),
{
    reveal(Seq::filter);
    if s.len() > 0 {
        lemma_filter_none(s.drop_last(), p);
    }
    assert(s.filter(p) =~= Seq::<A>::empty());
}

}
