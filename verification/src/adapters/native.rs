//! Comparators that need no outside crate: plain arithmetic on RGB bytes.
use vstd::prelude::*;

use crate::degradation::byte_diff;
use crate::error::TvaError;
use crate::fraction::Fraction;
use crate::pixel_buffer::PixelBuffer;
use crate::sums::{lemma_sum_of_new_step, sum_of};

verus! {

/// Sum of `|a[i] - b[i]|` over the first `n` bytes.
pub open spec fn sum_byte_diff(a: Seq<u8>, b: Seq<u8>, n: int) -> int
    decreases n,
{
    if n <= 0 {
        0
    } else {
        sum_byte_diff(a, b, n - 1) + byte_diff(a[n - 1], b[n - 1])
    }
}

proof fn lemma_sum_byte_diff_bound(a: Seq<u8>, b: Seq<u8>, n: int)
    requires
        n >= 0,
    ensures
        0 <= sum_byte_diff(a, b, n) <= 255 * n,
    decreases n,
{
    if n > 0 {
        lemma_sum_byte_diff_bound(a, b, n - 1);
    }
}

/// Mean absolute difference per byte, on the scale 0 to 255 whatever the
/// frame size; a smaller score means more similar frames.
#[derive(Debug, Clone, Copy, Default, PartialEq, Eq, Structural)]
pub struct MadComparator;

impl MadComparator {
    /// The mean absolute byte difference of two buffers of equal size, as
    /// `sum / len`; `0 / 1` for empty buffers.
    pub fn compare(&self, a: &PixelBuffer, b: &PixelBuffer) -> (r: Result<Fraction, TvaError>)
        requires
            a@.len() == b@.len(),
            255 * a@.len() <= u64::MAX,
        ensures
            a@.len() == 0 ==> r == Ok::<Fraction, TvaError>(Fraction { numer: 0, denom: 1 }),
            a@.len() > 0 ==> r == Ok::<Fraction, TvaError>(
                Fraction {
                    numer: sum_byte_diff(a@, b@, a@.len() as int) as u64,
                    denom: a@.len() as u64,
                },
            ),
            r matches Ok(f) ==> f.numer <= 255 * f.denom,
    {
        let x = a.as_bytes();
        let y = b.as_bytes();
        let n = x.len();
        if n == 0 {
            return Ok(Fraction { numer: 0, denom: 1 });
        }
        let mut sum: u64 = 0;
        let mut i: usize = 0;
        while i < n
            invariant
                n == x@.len(),
                x@ == a@,
                y@ == b@,
                x@.len() == y@.len(),
                255 * n <= u64::MAX,
                i <= n,
                sum == sum_byte_diff(a@, b@, i as int),
            decreases n - i,
        {
            proof {
                lemma_sum_byte_diff_bound(a@, b@, i as int);
            }
            let d: u64 = if x[i] >= y[i] {
                (x[i] - y[i]) as u64
            } else {
                (y[i] - x[i]) as u64
            };
            sum = sum + d;
            i = i + 1;
        }
        proof {
            lemma_sum_byte_diff_bound(a@, b@, n as int);
        }
        Ok(Fraction { numer: sum, denom: n as u64 })
    }

    /// Smaller scores mean more similar frames.
    pub fn higher_is_similar(&self) -> (r: bool)
        ensures
            !r,
    {
        false
    }

    /// The metric's name, `mad`.
    pub fn name(&self) -> (r: &'static str)
        ensures
            r@ == "mad"@,
    {
        "mad"
    }
}

/// Comparing a buffer with itself scores zero.
pub proof fn lemma_mad_of_identical_is_zero(a: Seq<u8>, n: int)
    requires
        0 <= n <= a.len(),
    ensures
        sum_byte_diff(a, a, n) == 0,
    decreases n,
{
    if n > 0 {
        lemma_mad_of_identical_is_zero(a, n - 1);
    }
}

/// The score does not depend on the order of the two buffers.
pub proof fn lemma_mad_symmetric(a: Seq<u8>, b: Seq<u8>, n: int)
    ensures
        sum_byte_diff(a, b, n) == sum_byte_diff(b, a, n),
    decreases n,
{
    if n > 0 {
        lemma_mad_symmetric(a, b, n - 1);
    }
}

/// Buffers that differ by the same amount `d` in every byte score exactly
/// `d` per byte, whatever their size.
pub proof fn lemma_mad_uniform_difference(a: Seq<u8>, b: Seq<u8>, n: int, d: int)
    requires
        0 <= n <= a.len(),
        n <= b.len(),
        forall|i: int| 0 <= i < n ==> byte_diff(#[trigger] a[i], b[i]) == d,
    ensures
        sum_byte_diff(a, b, n) == d * n,
    decreases n,
{
    if n > 0 {
        lemma_mad_uniform_difference(a, b, n - 1, d);
        assert(byte_diff(a[n - 1], b[n - 1]) == d);
        assert(d * (n - 1) + d == d * n) by (nonlinear_arith);
    } else {
        assert(d * n == 0) by (nonlinear_arith)
            requires
                n == 0,
        ;
    }
}


/// The summed difference over the first `n` bytes adds up `|a[i] - b[i]|`
/// for every byte position `i < n`.
pub proof fn lemma_mad_sum_adds_byte_differences(a: Seq<u8>, b: Seq<u8>, n: nat)
    ensures
        sum_byte_diff(a, b, n as int) == sum_of(
            Seq::new(n, |i: int| if a[i] >= b[i] { a[i] - b[i] } else { b[i] - a[i] }),
        ),
    decreases n,
{
    if n > 0 {
        let f = |i: int| if a[i] >= b[i] { a[i] - b[i] } else { b[i] - a[i] };
        lemma_mad_sum_adds_byte_differences(a, b, (n - 1) as nat);
        lemma_sum_of_new_step((n - 1) as nat, f);
    }
}

} // verus!
