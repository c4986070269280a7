//! The difference function: for each candidate lag, the sum of the squared
//! distances between the window and itself shifted by that lag.

use crate::sample::{sq, values, Sample, MAX_SQ_DIST};
use vstd::prelude::*;

verus! {

/// The longest window whose difference function is sure to fit in 64 bits.
pub const MAX_WINDOW: u64 = 0x1_0000_0000;

/// The sum of the squared distances of the first `n` sample pairs at lag
/// `tau`: `(s[0] - s[tau])^2 + ... + (s[n - 1] - s[n - 1 + tau])^2`.
pub open spec fn pair_sum(s: Seq<int>, tau: int, n: int) -> int
    decreases n,
{
    if n <= 0 {
        0
    } else {
        pair_sum(s, tau, n - 1) + sq(s[n - 1] - s[n - 1 + tau])
    }
}

/// The difference function at lag `tau`: the sum over all `len - tau` pairs
/// that the window holds at that lag.
pub open spec fn difference_at(s: Seq<int>, tau: int) -> int {
    pair_sum(s, tau, s.len() - tau)
}

/// The difference function for the lags `0 .. taumax`.
pub open spec fn difference_seq(s: Seq<int>, taumax: int) -> Seq<int> {
    Seq::new(taumax as nat, |tau: int| difference_at(s, tau))
}

/// The integers held by a sequence of machine words.
pub open spec fn words(d: Seq<u64>) -> Seq<int> {
    Seq::new(d.len(), |i: int| d[i] as int)
}

/// A sum of squares is not negative.
pub proof fn lemma_pair_sum_nonnegative(s: Seq<int>, tau: int, n: int)
    ensures
        pair_sum(s, tau, n) >= 0,
    decreases n,
{
    if n > 0 {
        lemma_pair_sum_nonnegative(s, tau, n - 1);
        let gap = s[n - 1] - s[n - 1 + tau];
        assert(gap * gap >= 0) by (nonlinear_arith);
    }
}

/// At lag 0 every sample is paired with itself, so the sum is zero.
pub proof fn lemma_pair_sum_lag_zero(s: Seq<int>, n: int)
    ensures
        pair_sum(s, 0, n) == 0,
    decreases n,
{
    if n > 0 {
        lemma_pair_sum_lag_zero(s, n - 1);
        assert(s[n - 1] - s[n - 1 + 0] == 0);
        assert(sq(0) == 0);
    }
}

/// The difference function of the window `window` for the lags
/// `0 .. taumax`, one 64-bit sum per lag. Lag 0 pairs each sample with
/// itself and is zero.
pub fn difference_function<S: Sample>(window: &[S], taumax: usize) -> (diff: Vec<u64>)
    requires
        taumax <= window@.len() <= MAX_WINDOW,
    ensures
        words(diff@) == difference_seq(values(window@), taumax as int),
        forall|tau: int|
            0 <= tau < taumax ==> (#[trigger] diff@[tau]) <= (window@.len() - tau) * MAX_SQ_DIST,
{
    let n: usize = window.len();
    let mut diff: Vec<u64> = Vec::new();
    if taumax == 0 {
        return diff;
    }
    proof {
        lemma_pair_sum_lag_zero(values(window@), n as int);
    }
    diff.push(0);
    let mut tau: usize = 1;
    while tau < taumax
        invariant
            1 <= tau <= taumax <= n,
            n == window@.len(),
            n <= MAX_WINDOW,
            diff@.len() == tau,
            forall|k: int|
                0 <= k < tau ==> (#[trigger] diff@[k]) as int == difference_at(
                    values(window@),
                    k,
                ),
            forall|k: int| 0 <= k < tau ==> (#[trigger] diff@[k]) <= (n - k) * MAX_SQ_DIST,
        decreases taumax - tau,
    {
        let pairs: usize = n - tau;
        let mut acc: u64 = 0;
        let mut i: usize = 0;
        while i < pairs
            invariant
                i <= pairs,
                pairs == n - tau,
                1 <= tau <= n,
                n == window@.len(),
                n <= MAX_WINDOW,
                acc as int == pair_sum(values(window@), tau as int, i as int),
                acc <= i * MAX_SQ_DIST,
            decreases pairs - i,
        {
            let d: u64 = window[i].sq_dist(&window[i + tau]);
            acc = acc + d;
            i += 1;
        }
        diff.push(acc);
        tau += 1;
    }
    diff
}

} // verus!
