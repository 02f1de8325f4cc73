//! Frame-time statistics.
use vstd::prelude::*;
use vstd::relations::{sorted_by, total_ordering};


verus! {

/// Ascending order on `u64`.
pub open spec fn ascending() -> spec_fn(u64, u64) -> bool {
    |x: u64, y: u64| x <= y
}

/// The keys in ascending order.
pub open spec fn sorted_keys(keys: Seq<u64>) -> Seq<u64> {
    keys.sort_by(ascending())
}

/// The rank read by the 99th percentile among `n` values: `⌊n · 99 / 100⌋`.
pub open spec fn p99_rank(n: int) -> int {
    n * 99 / 100
}

/// Calls `slice::sort_unstable` on the vector: std documents it as sorting
/// the slice in ascending order, so the result holds the same values,
/// ascending.
#[verifier::external_body]
fn sort_ascending(v: &mut Vec<u64>)
    ensures
        final(v)@.to_multiset() == old(v)@.to_multiset(),
        sorted_by(final(v)@, ascending()),
{
    v.sort_unstable();
}

fn copy_keys(keys: &[u64]) -> (r: Vec<u64>)
    ensures
        r@ == keys@,
{
    let n = keys.len();
    let mut out: Vec<u64> = Vec::with_capacity(n);
    let mut i: usize = 0;
    while i < n
        invariant
            n == keys@.len(),
            i <= n,
            out@ == keys@.take(i as int),
        decreases n - i,
    {
        out.push(keys[i]);
        i = i + 1;
        assert(out@ =~= keys@.take(i as int));
    }
    assert(out@ =~= keys@);
    out
}

/// The 99th-percentile frame time of a series: the value of rank
/// `⌊len · 99 / 100⌋` once the series is sorted ascending, or `None` for an
/// empty series.
///
/// Frame times are passed as order keys: any encoding that orders like the
/// frame times themselves (such as the bit pattern of a non-negative float)
/// gives back the key of the percentile.
pub fn p99(frame_times: &[u64]) -> (r: Option<u64>)
    ensures
        frame_times@.len() == 0 ==> r is None,
        frame_times@.len() > 0 ==> r == Some(
            sorted_keys(frame_times@)[p99_rank(frame_times@.len() as int)],
        ),
{
    let n = frame_times.len();
    if n == 0 {
        return None;
    }
    let mut v = copy_keys(frame_times);
    sort_ascending(&mut v);
    proof {
        broadcast use vstd::seq_lib::group_to_multiset_ensures;

        assert(v@.len() == v@.to_multiset().len());
        assert(frame_times@.len() == frame_times@.to_multiset().len());
    }
    let rank = ((n as u128) * 99 / 100) as usize;
    let idx = if rank < n - 1 { rank } else { n - 1 };
    proof {
        let leq = ascending();
        assert(total_ordering(leq));
        frame_times@.lemma_sort_by_ensures(leq);
        vstd::seq_lib::lemma_sorted_unique(v@, sorted_keys(frame_times@), leq);
        assert(p99_rank(n as int) < n);
    }
    Some(v[idx])
}

/// The percentile rank is the floor of `0.99 * n`: the largest `r` with
/// `100 * r <= 99 * n`. For a non-empty series it is a valid position.
pub proof fn lemma_p99_rank_is_floor_of_99_percent(n: nat)
    ensures
        100 * p99_rank(n as int) <= 99 * n < 100 * (p99_rank(n as int) + 1),
        n > 0 ==> 0 <= p99_rank(n as int) < n,
{
}

/// Sorting keeps every key, as often as it occurs, and puts them in
/// ascending order.
pub proof fn lemma_sorted_keys_ascending_permutation(keys: Seq<u64>)
    ensures
        sorted_keys(keys).len() == keys.len(),
        sorted_keys(keys).to_multiset() == keys.to_multiset(),
        forall|i: int, j: int|
            0 <= i <= j < keys.len() ==> sorted_keys(keys)[i] <= sorted_keys(keys)[j],
{
    let leq = ascending();
    assert(total_ordering(leq));
    keys.lemma_sort_by_ensures(leq);
    broadcast use vstd::seq_lib::group_to_multiset_ensures;

    assert(sorted_keys(keys).len() == sorted_keys(keys).to_multiset().len());
    assert(keys.len() == keys.to_multiset().len());
    let s = sorted_keys(keys);
    assert forall|i: int, j: int| 0 <= i <= j < keys.len() implies s[i] <= s[j] by {
        if i < j {
            assert(leq(s[i], s[j]));
        }
    }
}

} // verus!
