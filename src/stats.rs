//! Order statistics and sums over integer samples.
use vstd::prelude::*;

verus! {

/// One throughput measurement: events counted over an interval.
#[derive(Debug, Clone, Copy, PartialEq, Eq, Structural)]
pub struct ThroughputSample {
    pub count: u64,
    pub elapsed_us: u64,
}

pub open spec fn sorted(s: Seq<u64>) -> bool {
    forall|i: int, j: int| 0 <= i <= j < s.len() ==> s[i] <= s[j]
}

/// `r` is the value at position `k` once `s` is sorted ascending.
pub open spec fn order_statistic(s: Seq<u64>, k: int, r: u64) -> bool {
    exists|t: Seq<u64>|
        #![trigger t.to_multiset()]
        sorted(t) && t.to_multiset() == s.to_multiset() && 0 <= k < t.len() && t[k] == r
}

/// Position of the `pct`-th percentile among `n` sorted values:
/// `floor(n * pct / 100)`, capped at the last position.
pub open spec fn percentile_index(n: int, pct: int) -> int {
    if n * pct / 100 < n - 1 {
        n * pct / 100
    } else {
        n - 1
    }
}

/// Relies on `slice::sort_unstable`: afterwards the vector holds the same
/// values in ascending order.
#[verifier::external_body]
fn sort_values(v: &mut Vec<u64>)
    ensures
        sorted(final(v)@),
        final(v)@.to_multiset() == old(v)@.to_multiset(),
{
    v.sort_unstable()
}

/// The `pct`-th percentile of `values` (0 when there are none).
pub fn percentile(values: &Vec<u64>, pct: u64) -> (r: u64)
    requires
        pct <= 100,
    ensures
        values@.len() == 0 ==> r == 0,
        values@.len() > 0 ==> order_statistic(
            values@,
            percentile_index(values@.len() as int, pct as int),
            r,
        ),
{
    let n = values.len();
    if n == 0 {
        return 0;
    }
    let mut sorted_copy = values.clone();
    assert(sorted_copy@ == values@);
    sort_values(&mut sorted_copy);
    proof {
        assert(n * pct <= n * 100) by (nonlinear_arith)
            requires
                pct <= 100,
        ;
        assert(sorted_copy@.len() == n) by {
            sorted_copy@.to_multiset_ensures();
            values@.to_multiset_ensures();
        }
    }
    let raw = ((n as u128) * (pct as u128) / 100) as usize;
    let idx = if raw < n - 1 {
        raw
    } else {
        n - 1
    };
    let r = sorted_copy[idx];
    assert(sorted(sorted_copy@) && sorted_copy@.to_multiset() == values@.to_multiset());
    r
}

pub open spec fn sum_of(s: Seq<u64>) -> int
    decreases s.len(),
{
    if s.len() == 0 {
        0
    } else {
        sum_of(s.drop_last()) + s.last()
    }
}

pub open spec fn sq_sum_of(s: Seq<u64>) -> int
    decreases s.len(),
{
    if s.len() == 0 {
        0
    } else {
        sq_sum_of(s.drop_last()) + s.last() * s.last()
    }
}

/// `x`, or `u128::MAX` when `x` exceeds it.
pub open spec fn saturated(x: int) -> int {
    if x > u128::MAX {
        u128::MAX as int
    } else {
        x
    }
}

/// The sum of `n` values below 2^64 stays below `n` times the largest
/// value; sums of squares are not negative.
pub proof fn lemma_sum_bounds(s: Seq<u64>)
    ensures
        0 <= sum_of(s) <= s.len() * 0xffff_ffff_ffff_ffff,
        0 <= sq_sum_of(s),
    decreases s.len(),
{
    if s.len() > 0 {
        lemma_sum_bounds(s.drop_last());
        let x = s.last();
        assert(x * x >= 0) by (nonlinear_arith);
        assert(s.drop_last().len() * 0xffff_ffff_ffff_ffff + 0xffff_ffff_ffff_ffff == s.len()
            * 0xffff_ffff_ffff_ffff) by (nonlinear_arith)
            requires
                s.drop_last().len() + 1 == s.len(),
        ;
    }
}

/// Adds `v` to a running sum and to a running sum of squares that stops
/// at `u128::MAX`.
pub(crate) fn add_sample(sum: u128, sq: u128, v: u64, Ghost(s): Ghost<Seq<u64>>) -> (r: (u128, u128))
    requires
        sum == sum_of(s),
        sq == saturated(sq_sum_of(s)),
        s.len() < 0xffff_ffff_ffff_ffff,
    ensures
        r.0 == sum_of(s.push(v)),
        r.1 == saturated(sq_sum_of(s.push(v))),
{
    let ghost t = s.push(v);
    let w = v as u128;
    proof {
        assert(t.drop_last() =~= s);
        lemma_sum_bounds(t);
        assert(t.len() * 0xffff_ffff_ffff_ffff <= 0xffff_ffff_ffff_ffff * 0xffff_ffff_ffff_ffff)
            by (nonlinear_arith)
            requires
                t.len() <= 0xffff_ffff_ffff_ffff,
        ;
        assert(w * w <= 0xffff_ffff_ffff_ffff * 0xffff_ffff_ffff_ffff) by (nonlinear_arith)
            requires
                w <= 0xffff_ffff_ffff_ffff,
        ;
    }
    let w2 = w * w;
    let sq2 = if sq > u128::MAX - w2 {
        u128::MAX
    } else {
        sq + w2
    };
    (sum + w, sq2)
}

} // verus!
