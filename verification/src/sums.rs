//! Finite sums, the vocabulary in which the library's laws about totals
//! and counts are stated.
use vstd::prelude::*;

verus! {

/// Sum of a finite sequence of integers.
pub open spec fn sum_of(s: Seq<int>) -> int
    decreases s.len(),
{
    if s.len() == 0 {
        0
    } else {
        sum_of(s.drop_last()) + s.last()
    }
}

/// Summing the first `n + 1` terms of `f` adds term `n` to the sum of the
/// first `n`.
pub proof fn lemma_sum_of_new_step(n: nat, f: spec_fn(int) -> int)
    ensures
        sum_of(Seq::new(n + 1, f)) == sum_of(Seq::new(n, f)) + f(n as int),
{
    assert(Seq::new(n + 1, f).drop_last() =~= Seq::new(n, f));
}

} // verus!
