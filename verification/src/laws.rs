//! What holds of the estimate for every window: its range, its value on
//! silent and on exactly periodic windows, its independence of the sample
//! encoding, and the effect of the threshold.

use crate::cmndf::{cmndf_at, cmndf_seq, lemma_running_sum_monotone, running_sum};
use crate::difference::{
    difference_at, difference_seq, lemma_pair_sum_nonnegative, pair_sum,
};
use crate::estimator::{default_threshold, period_at, yin_period};
use crate::ratio::Ratio;
use crate::sample::{sq, values, BIAS};
use crate::search::{
    all_wf, descend, first_below, lemma_descend_is_local_min, lemma_descend_stops_at_floor,
    lemma_first_below_is_first, lemma_lower_threshold_same_period,
    lemma_period_in_range, lemma_period_when_not_crossed, lemma_running_min_is_least,
    lemma_running_min_range, period_of,
};
use vstd::prelude::*;

verus! {

/// The window `s` with `k` added to every sample.
pub open spec fn shifted(s: Seq<int>, k: int) -> Seq<int> {
    Seq::new(s.len(), |i: int| s[i] + k)
}

/// Every sample of the window equals the first.
pub open spec fn constant(s: Seq<int>) -> bool {
    forall|i: int| 0 <= i < s.len() ==> #[trigger] s[i] == s[0]
}

/// The window repeats itself exactly after `period` samples.
pub open spec fn periodic(s: Seq<int>, period: int) -> bool {
    forall|i: int| 0 <= i < s.len() - period ==> #[trigger] s[i] == s[i + period]
}

/// The normalized differences of a window have non-negative parts.
pub proof fn lemma_window_cmndf_wf(s: Seq<int>, taumax: int)
    requires
        0 <= taumax,
    ensures
        all_wf(cmndf_seq(difference_seq(s, taumax))),
        forall|tau: int| 0 <= tau < taumax ==> (#[trigger] difference_seq(s, taumax)[tau]) >= 0,
{
    let d = difference_seq(s, taumax);
    assert forall|tau: int| 0 <= tau < taumax implies (#[trigger] d[tau]) >= 0 by {
        lemma_pair_sum_nonnegative(s, tau, s.len() - tau);
    }
    assert forall|tau: int| 0 <= tau < d.len() implies (#[trigger] cmndf_seq(d)[tau]).wf() by {
        lemma_running_sum_monotone(d, tau, tau);
        assert(d[tau] >= 0);
        assert(tau * d[tau] >= 0) by (nonlinear_arith)
            requires
                tau >= 0,
                d[tau] >= 0,
        ;
    }
}

/// The estimate is a lag: it is not negative and it is below `taumax`.
pub proof fn lemma_period_bounds(s: Seq<int>, taumax: int, threshold: Ratio)
    requires
        1 <= taumax,
    ensures
        0 <= period_at(s, taumax, threshold) < taumax,
        0 <= yin_period(s, taumax) < taumax,
{
    lemma_period_in_range(cmndf_seq(difference_seq(s, taumax)), threshold);
    lemma_period_in_range(cmndf_seq(difference_seq(s, taumax)), default_threshold());
}

/// Adding the same number to every sample leaves every pair sum unchanged.
proof fn lemma_pair_sum_offset(s: Seq<int>, k: int, tau: int, n: int)
    requires
        0 <= tau,
        n + tau <= s.len(),
    ensures
        pair_sum(shifted(s, k), tau, n) == pair_sum(s, tau, n),
    decreases n,
{
    if n > 0 {
        lemma_pair_sum_offset(s, k, tau, n - 1);
        assert(shifted(s, k)[n - 1] - shifted(s, k)[n - 1 + tau] == s[n - 1] - s[n - 1 + tau]);
    }
}

/// The estimate does not depend on a common offset of the samples.
pub proof fn lemma_offset_invariance(s: Seq<int>, k: int, taumax: int, threshold: Ratio)
    requires
        0 <= taumax <= s.len(),
    ensures
        difference_seq(shifted(s, k), taumax) == difference_seq(s, taumax),
        period_at(shifted(s, k), taumax, threshold) == period_at(s, taumax, threshold),
        yin_period(shifted(s, k), taumax) == yin_period(s, taumax),
{
    assert forall|tau: int| 0 <= tau < taumax implies difference_at(shifted(s, k), tau)
        == difference_at(s, tau) by {
        lemma_pair_sum_offset(s, k, tau, s.len() - tau);
    }
    assert(difference_seq(shifted(s, k), taumax) =~= difference_seq(s, taumax));
}

/// A waveform gives the same estimate as signed, centered samples and as
/// their offset-binary codes.
pub proof fn lemma_domain_equivalence(
    signed: Seq<i16>,
    codes: Seq<u16>,
    taumax: int,
    threshold: Ratio,
)
    requires
        0 <= taumax <= signed.len(),
        codes.len() == signed.len(),
        forall|i: int| 0 <= i < signed.len() ==> (#[trigger] codes[i]) == signed[i] + BIAS,
    ensures
        period_at(values(codes), taumax, threshold) == period_at(
            values(signed),
            taumax,
            threshold,
        ),
        yin_period(values(codes), taumax) == yin_period(values(signed), taumax),
{
    assert(values(codes) =~= shifted(values(signed), BIAS as int));
    lemma_offset_invariance(values(signed), BIAS as int, taumax, threshold);
}

/// In a constant window every pair sum is zero.
proof fn lemma_pair_sum_constant(s: Seq<int>, tau: int, n: int)
    requires
        constant(s),
        0 <= tau,
        n + tau <= s.len(),
    ensures
        pair_sum(s, tau, n) == 0,
    decreases n,
{
    if n > 0 {
        lemma_pair_sum_constant(s, tau, n - 1);
        assert(s[n - 1] == s[0]);
        assert(s[n - 1 + tau] == s[0]);
        assert(sq(0) == 0);
    }
}

/// A running sum of zeros is zero.
proof fn lemma_running_sum_zero(d: Seq<int>, tau: int)
    requires
        tau < d.len(),
        forall|k: int| 0 <= k < d.len() ==> #[trigger] d[k] == 0,
    ensures
        running_sum(d, tau) == 0,
    decreases tau,
{
    if tau > 0 {
        lemma_running_sum_zero(d, tau - 1);
    }
}

/// A constant window, silence included, has the estimate 0 at every
/// threshold: no lag holds a finite normalized difference.
pub proof fn lemma_constant_window(s: Seq<int>, taumax: int, threshold: Ratio)
    requires
        1 <= taumax <= s.len(),
        constant(s),
    ensures
        period_at(s, taumax, threshold) == 0,
        yin_period(s, taumax) == 0,
{
    let d = difference_seq(s, taumax);
    let c = cmndf_seq(d);
    assert forall|tau: int| 0 <= tau < d.len() implies #[trigger] d[tau] == 0 by {
        lemma_pair_sum_constant(s, tau, s.len() - tau);
    }
    assert forall|tau: int| 0 <= tau < c.len() implies !(#[trigger] c[tau]).finite() by {
        lemma_running_sum_zero(d, tau);
    }
    lemma_window_cmndf_wf(s, taumax);
    lemma_period_when_not_crossed(c, threshold);
    lemma_period_when_not_crossed(c, default_threshold());
}

/// Where no lag of the window is below a threshold, the estimate at that
/// threshold is the lag of the least normalized difference, the earliest
/// such lag. Every lower threshold gives the same estimate, and no
/// threshold at all gives an estimate with a smaller normalized difference.
pub proof fn lemma_threshold_not_crossed(
    s: Seq<int>,
    taumax: int,
    threshold: Ratio,
    lower: Ratio,
    other: Ratio,
)
    requires
        1 <= taumax,
        threshold.wf(),
        lower.wf(),
        !threshold.below(lower),
        forall|tau: int|
            1 <= tau < taumax ==> !(#[trigger] cmndf_at(difference_seq(s, taumax), tau)).below(
                threshold,
            ),
    ensures
        period_at(s, taumax, lower) == period_at(s, taumax, threshold),
        period_at(s, taumax, threshold) != 0 ==> forall|tau: int|
            1 <= tau < taumax ==> !(#[trigger] cmndf_at(difference_seq(s, taumax), tau)).below(
                cmndf_at(difference_seq(s, taumax), period_at(s, taumax, threshold)),
            ),
        forall|tau: int|
            1 <= tau < period_at(s, taumax, threshold) ==> cmndf_at(
                difference_seq(s, taumax),
                period_at(s, taumax, threshold),
            ).below(#[trigger] cmndf_at(difference_seq(s, taumax), tau)),
        period_at(s, taumax, threshold) == 0 ==> period_at(s, taumax, other) == 0,
        period_at(s, taumax, threshold) != 0 ==> period_at(s, taumax, other) != 0 && !cmndf_at(
            difference_seq(s, taumax),
            period_at(s, taumax, other),
        ).below(cmndf_at(difference_seq(s, taumax), period_at(s, taumax, threshold))),
{
    let d = difference_seq(s, taumax);
    let c = cmndf_seq(d);
    lemma_window_cmndf_wf(s, taumax);
    assert forall|j: int| 1 <= j < c.len() implies !(#[trigger] c[j]).below(threshold) by {
        assert(c[j] == cmndf_at(d, j));
    }
    lemma_period_when_not_crossed(c, threshold);
    lemma_lower_threshold_same_period(c, threshold, lower);
    lemma_period_in_range(c, threshold);
    let p = period_of(c, threshold);
    assert(c[p] == cmndf_at(d, p));
    assert forall|tau: int| 1 <= tau < taumax && p != 0 implies !(#[trigger] cmndf_at(
        d,
        tau,
    )).below(cmndf_at(d, p)) by {
        assert(c[tau] == cmndf_at(d, tau));
    }
    assert forall|tau: int| 1 <= tau < p implies cmndf_at(d, p).below(
        #[trigger] cmndf_at(d, tau),
    ) by {
        assert(c[tau] == cmndf_at(d, tau));
    }
    lemma_period_in_range(c, other);
    let q = period_of(c, other);
    assert(c[q] == cmndf_at(d, q));
    lemma_first_below_is_first(c, other, 1);
    let t = first_below(c, other, 1);
    if t < c.len() {
        lemma_descend_is_local_min(c, t);
        assert(c[t].finite());
        assert(q >= 1);
    } else {
        lemma_running_min_is_least(c, c.len() - 1);
    }
}

/// A pair sum that holds a pair of unequal samples is positive.
proof fn lemma_pair_sum_positive(s: Seq<int>, tau: int, n: int, i: int)
    requires
        0 <= i < n,
        s[i] != s[i + tau],
    ensures
        pair_sum(s, tau, n) > 0,
    decreases n,
{
    let gap = s[n - 1] - s[n - 1 + tau];
    if i == n - 1 {
        lemma_pair_sum_nonnegative(s, tau, n - 1);
        assert(gap * gap > 0) by (nonlinear_arith)
            requires
                gap != 0,
        ;
    } else {
        lemma_pair_sum_positive(s, tau, n - 1, i);
        assert(gap * gap >= 0) by (nonlinear_arith);
    }
}

/// Where every sample equals its successor, every sample equals the first.
proof fn lemma_no_step_is_constant(s: Seq<int>, i: int)
    requires
        0 <= i < s.len(),
        forall|j: int| 0 <= j < s.len() - 1 ==> #[trigger] s[j] == s[j + 1],
    ensures
        s[i] == s[0],
    decreases i,
{
    if i > 0 {
        lemma_no_step_is_constant(s, i - 1);
        assert(s[i - 1] == s[i - 1 + 1]);
    }
}

/// In a window that is not constant, the difference at lag 1 is positive, and
/// so is every running sum from lag 1 on.
pub proof fn lemma_not_constant_is_finite(s: Seq<int>, taumax: int, tau: int)
    requires
        1 <= tau < taumax <= s.len(),
        !constant(s),
    ensures
        difference_seq(s, taumax)[1] > 0,
        running_sum(difference_seq(s, taumax), tau) > 0,
        cmndf_seq(difference_seq(s, taumax))[tau].finite(),
{
    let d = difference_seq(s, taumax);
    if forall|j: int| 0 <= j < s.len() - 1 ==> #[trigger] s[j] == s[j + 1] {
        assert forall|i: int| 0 <= i < s.len() implies #[trigger] s[i] == s[0] by {
            lemma_no_step_is_constant(s, i);
        }
    }
    let i = choose|i: int| 0 <= i < s.len() - 1 && #[trigger] s[i] != s[i + 1];
    lemma_pair_sum_positive(s, 1, s.len() - 1, i);
    assert(d[1] == difference_at(s, 1));
    lemma_window_cmndf_wf(s, taumax);
    lemma_running_sum_monotone(d, 1, tau);
    assert(running_sum(d, 1) == running_sum(d, 0) + d[1]);
    assert(running_sum(d, 0) == 0);
}

/// With at least one lag to choose from, the estimate is 0 for constant
/// windows and for no others.
pub proof fn lemma_zero_iff_constant(s: Seq<int>, taumax: int, threshold: Ratio)
    requires
        2 <= taumax <= s.len(),
    ensures
        period_at(s, taumax, threshold) == 0 <==> constant(s),
        yin_period(s, taumax) == 0 <==> constant(s),
{
    if constant(s) {
        lemma_constant_window(s, taumax, threshold);
    } else {
        lemma_not_constant_has_period(s, taumax, threshold);
        lemma_not_constant_has_period(s, taumax, default_threshold());
    }
}

/// A window that is not constant has an estimate of at least 1.
pub proof fn lemma_not_constant_has_period(s: Seq<int>, taumax: int, threshold: Ratio)
    requires
        2 <= taumax <= s.len(),
        !constant(s),
    ensures
        period_at(s, taumax, threshold) >= 1,
{
    let c = cmndf_seq(difference_seq(s, taumax));
    lemma_window_cmndf_wf(s, taumax);
    lemma_not_constant_is_finite(s, taumax, 1);
    lemma_first_below_is_first(c, threshold, 1);
    let t = first_below(c, threshold, 1);
    if t < c.len() {
        lemma_descend_is_local_min(c, t);
    } else {
        lemma_running_min_is_least(c, c.len() - 1);
        lemma_running_min_range(c, c.len() - 1);
        assert(c[1].finite());
    }
}

/// At the lag of an exact period every pair repeats, so the difference is
/// zero.
proof fn lemma_pair_sum_periodic(s: Seq<int>, period: int, n: int)
    requires
        0 <= period,
        periodic(s, period),
        n + period <= s.len(),
    ensures
        pair_sum(s, period, n) == 0,
    decreases n,
{
    if n > 0 {
        lemma_pair_sum_periodic(s, period, n - 1);
        assert(s[n - 1] == s[n - 1 + period]);
        assert(sq(0) == 0);
    }
}

/// A window that repeats exactly after `period` samples and is not constant
/// has an estimate from 1 to `period`, at every positive threshold. Where no
/// shorter lag is below the threshold, the estimate is `period` itself.
pub proof fn lemma_periodic_window(s: Seq<int>, taumax: int, period: int, threshold: Ratio)
    requires
        1 <= period < taumax <= s.len(),
        periodic(s, period),
        !constant(s),
        threshold.wf(),
        threshold.num > 0,
    ensures
        1 <= period_at(s, taumax, threshold) <= period,
        (forall|tau: int|
            1 <= tau < period ==> !(#[trigger] cmndf_at(difference_seq(s, taumax), tau)).below(
                threshold,
            )) ==> period_at(s, taumax, threshold) == period,
{
    let d = difference_seq(s, taumax);
    let c = cmndf_seq(d);
    lemma_window_cmndf_wf(s, taumax);
    lemma_pair_sum_periodic(s, period, s.len() - period);
    lemma_not_constant_is_finite(s, taumax, period);
    assert(d[period] == 0);
    assert(c[period] == cmndf_at(d, period));
    assert(period * d[period] == 0);
    assert(c[period].num == 0 && c[period].den > 0);
    assert(c[period].below(threshold)) by {
        if threshold.den > 0 {
            assert(0 * threshold.den < threshold.num * c[period].den) by (nonlinear_arith)
                requires
                    threshold.num > 0,
                    c[period].den > 0,
            ;
        }
    }
    assert forall|j: int| 0 <= j < c.len() implies !(#[trigger] c[j]).below(c[period]) by {
        assert(c[j].wf());
        assert(c[j].num * c[period].den >= 0) by (nonlinear_arith)
            requires
                c[j].num >= 0,
                c[period].den > 0,
        ;
        assert(c[period].num * c[j].den == 0) by (nonlinear_arith)
            requires
                c[period].num == 0,
        ;
    }
    lemma_first_below_is_first(c, threshold, 1);
    let t = first_below(c, threshold, 1);
    assert(t <= period) by {
        if t > period {
            assert(!c[period].below(threshold));
        }
    }
    lemma_descend_is_local_min(c, t);
    lemma_descend_stops_at_floor(c, t, period);
    assert(period_at(s, taumax, threshold) == descend(c, t));
    if forall|tau: int| 1 <= tau < period ==> !(#[trigger] cmndf_at(d, tau)).below(threshold) {
        if t < period {
            assert(c[t] == cmndf_at(d, t));
        }
    }
}

/// At the default threshold, a window that repeats exactly after `period`
/// samples and is not constant has an estimate from 1 to `period`.
pub proof fn lemma_periodic_window_default(s: Seq<int>, taumax: int, period: int)
    requires
        1 <= period < taumax <= s.len(),
        periodic(s, period),
        !constant(s),
    ensures
        1 <= yin_period(s, taumax) <= period,
{
    lemma_periodic_window(s, taumax, period, default_threshold());
}

} // verus!
