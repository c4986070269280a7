//! Cumulative mean normalization: each difference is divided by the mean of
//! the differences up to and including its own lag.

use crate::difference::words;
use crate::ratio::{ratios, Ratio, Ratio64};
use crate::sample::MAX_SQ_DIST;
use num_traits::FromPrimitive;
use vstd::prelude::*;

verus! {

/// The largest product of window length and number of lags for which every
/// normalized difference of 16-bit samples is sure to fit in a `Ratio64`.
pub const MAX_LAG_PAIRS: u64 = 0x1_0000_0000;

/// The sum `d[1] + ... + d[tau]` of the differences up to and including lag
/// `tau`.
pub open spec fn running_sum(d: Seq<int>, tau: int) -> int
    decreases tau,
{
    if tau <= 0 {
        0
    } else {
        running_sum(d, tau - 1) + d[tau]
    }
}

/// The normalized difference at lag `tau`: `tau * d[tau]` over the running
/// sum, which is +infinity while the running sum is zero.
pub open spec fn cmndf_at(d: Seq<int>, tau: int) -> Ratio {
    Ratio { num: tau * d[tau], den: running_sum(d, tau) }
}

/// The normalized differences for every lag of `d`.
pub open spec fn cmndf_seq(d: Seq<int>) -> Seq<Ratio> {
    Seq::new(d.len(), |tau: int| cmndf_at(d, tau))
}

/// Both parts of every normalized difference of `d` fit in 64 bits.
pub open spec fn cmndf_fits(d: Seq<int>) -> bool {
    forall|tau: int|
        0 <= tau < d.len() ==> {
            &&& (#[trigger] cmndf_at(d, tau)).num <= u64::MAX
            &&& cmndf_at(d, tau).den <= u64::MAX
        }
}

/// `num_traits::FromPrimitive::from_usize` for `u64`. Every `usize` is
/// representable in 64 bits, so the conversion always succeeds and keeps the
/// number.
#[verifier::external_body]
fn word_from_usize(n: usize) -> (w: Option<u64>)
    ensures
        w == Some(n as u64),
{
    u64::from_usize(n)
}

/// The running sum of non-negative differences is not negative and does not
/// shrink as the lag grows.
pub proof fn lemma_running_sum_monotone(d: Seq<int>, a: int, b: int)
    requires
        a <= b < d.len(),
        forall|k: int| 0 <= k < d.len() ==> d[k] >= 0,
    ensures
        0 <= running_sum(d, a) <= running_sum(d, b),
    decreases b,
{
    if b <= 0 {
    } else if a == b {
        lemma_running_sum_monotone(d, a - 1, b - 1);
    } else {
        lemma_running_sum_monotone(d, a, b - 1);
    }
}

/// The running sum up to lag `tau` is at most `tau` times a bound on the
/// single differences.
pub proof fn lemma_running_sum_bound(d: Seq<int>, tau: int, bound: int)
    requires
        0 <= tau < d.len(),
        forall|k: int| 0 <= k < d.len() ==> d[k] <= bound,
    ensures
        running_sum(d, tau) <= tau * bound,
    decreases tau,
{
    if tau > 0 {
        lemma_running_sum_bound(d, tau - 1, bound);
        assert((tau - 1) * bound + bound == tau * bound) by (nonlinear_arith);
    } else {
        assert(0 * bound == 0);
    }
}

/// The differences of a window of 16-bit samples normalize within 64 bits
/// when the product of the window's length and the number of lags is at most
/// `MAX_LAG_PAIRS`.
pub proof fn lemma_capacity(d: Seq<int>, window_len: int)
    requires
        d.len() <= window_len,
        d.len() * window_len <= MAX_LAG_PAIRS,
        forall|tau: int|
            0 <= tau < d.len() ==> 0 <= #[trigger] d[tau] <= (window_len - tau) * MAX_SQ_DIST,
    ensures
        cmndf_fits(d),
{
    let bound = window_len * MAX_SQ_DIST;
    assert forall|tau: int| 0 <= tau < d.len() implies {
        &&& (#[trigger] cmndf_at(d, tau)).num <= u64::MAX
        &&& cmndf_at(d, tau).den <= u64::MAX
    } by {
        assert forall|k: int| 0 <= k < d.len() implies d[k] <= bound by {
            assert(d[k] <= (window_len - k) * MAX_SQ_DIST);
        }
        lemma_running_sum_bound(d, tau, bound);
        assert(d[tau] <= bound);
        assert(tau * d[tau] <= tau * bound) by (nonlinear_arith)
            requires
                0 <= tau,
                d[tau] <= bound,
        ;
        assert(tau * bound <= u64::MAX) by (nonlinear_arith)
            requires
                0 <= tau < d.len(),
                d.len() * window_len <= 0x1_0000_0000,
                0 <= window_len,
                bound == window_len * 0xFFFE_0001,
        ;
    }
}

/// The normalized differences of `diff`, one exact ratio per lag. The entry
/// for lag 0 is +infinity.
pub fn normalize(diff: &[u64]) -> (c: Vec<Ratio64>)
    requires
        cmndf_fits(words(diff@)),
    ensures
        ratios(c@) == cmndf_seq(words(diff@)),
{
    let n: usize = diff.len();
    let ghost d = words(diff@);
    let mut c: Vec<Ratio64> = Vec::new();
    if n == 0 {
        return c;
    }
    c.push(Ratio64::infinity());
    assert(c@[0]@ == cmndf_at(d, 0)) by {
        assert(0 * d[0] == 0);
        assert(running_sum(d, 0) == 0);
    }
    let mut sum: u64 = 0;
    let mut tau: usize = 1;
    while tau < n
        invariant
            1 <= tau <= n,
            n == diff@.len(),
            d == words(diff@),
            cmndf_fits(d),
            sum as int == running_sum(d, tau - 1),
            c@.len() == tau,
            forall|k: int| 0 <= k < tau ==> (#[trigger] c@[k])@ == cmndf_at(d, k),
        decreases n - tau,
    {
        let term: u64 = diff[tau];
        assert(cmndf_at(d, tau as int).den == sum + term);
        assert(cmndf_at(d, tau as int).num == tau * term);
        let lag: u64 = word_from_usize(tau).unwrap();
        sum = sum + term;
        c.push(Ratio64::new(lag * term, sum));
        tau += 1;
    }
    c
}

} // verus!
