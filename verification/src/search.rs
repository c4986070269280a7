//! The threshold search: the first lag whose normalized difference is below
//! the threshold, refined to the bottom of its dip, or else the lag of the
//! least normalized difference.
//!
//! Lag 0 is never a candidate: as a result, 0 says that no lag holds a
//! finite value.

use crate::ratio::{
    lemma_below_then_not_above, lemma_below_transitive, lemma_not_above_then_below, ratios, Ratio,
    Ratio64,
};
use vstd::prelude::*;

verus! {

/// Every entry of `c` has non-negative parts.
pub open spec fn all_wf(c: Seq<Ratio>) -> bool {
    forall|i: int| 0 <= i < c.len() ==> (#[trigger] c[i]).wf()
}

/// Whether the value at lag `tau` is strictly below the least value found so
/// far, which lag `m` holds. With `m == 0` nothing has been found yet, and
/// every finite value is an improvement.
pub open spec fn improves(c: Seq<Ratio>, tau: int, m: int) -> bool {
    if m == 0 {
        c[tau].finite()
    } else {
        c[tau].below(c[m])
    }
}

/// The lag of the least value among `c[1 ..= n]`, the smallest such lag
/// where several hold it, and 0 where none of them is finite.
pub open spec fn running_min(c: Seq<Ratio>, n: int) -> int
    decreases n,
{
    if n <= 0 {
        0
    } else {
        let m = running_min(c, n - 1);
        if improves(c, n, m) {
            n
        } else {
            m
        }
    }
}

/// The first lag in `from .. c.len()` whose value is below `threshold`, or
/// `c.len()` where there is none.
pub open spec fn first_below(c: Seq<Ratio>, threshold: Ratio, from: int) -> int
    decreases c.len() - from,
{
    if from >= c.len() {
        c.len() as int
    } else if c[from].below(threshold) {
        from
    } else {
        first_below(c, threshold, from + 1)
    }
}

/// The lag reached from `t` by stepping forward for as long as the next
/// value is strictly smaller: the first local minimum at or after `t`.
pub open spec fn descend(c: Seq<Ratio>, t: int) -> int
    decreases c.len() - t,
{
    if t + 1 < c.len() && c[t + 1].below(c[t]) {
        descend(c, t + 1)
    } else {
        t
    }
}

/// The period that the search reports for the normalized differences `c`:
/// where some lag from 1 on is below `threshold`, the first local minimum at
/// or after the first such lag; otherwise the lag of the least value.
pub open spec fn period_of(c: Seq<Ratio>, threshold: Ratio) -> int {
    let t = first_below(c, threshold, 1);
    if t < c.len() {
        descend(c, t)
    } else {
        running_min(c, c.len() - 1)
    }
}

/// The running minimum of `c[1 ..= n]` is one of the lags `0 ..= n`.
pub proof fn lemma_running_min_range(c: Seq<Ratio>, n: int)
    requires
        0 <= n,
    ensures
        0 <= running_min(c, n) <= n,
    decreases n,
{
    if n > 0 {
        lemma_running_min_range(c, n - 1);
    }
}

/// The running minimum is 0 exactly where none of `c[1 ..= n]` is finite.
/// Otherwise its value is finite, no value among `c[1 ..= n]` is below it,
/// and it is strictly below every value at an earlier lag.
pub proof fn lemma_running_min_is_least(c: Seq<Ratio>, n: int)
    requires
        all_wf(c),
        0 <= n < c.len(),
    ensures
        running_min(c, n) == 0 <==> forall|j: int| 1 <= j <= n ==> !(#[trigger] c[j]).finite(),
        running_min(c, n) != 0 ==> c[running_min(c, n)].finite(),
        running_min(c, n) != 0 ==> forall|j: int|
            1 <= j <= n ==> !(#[trigger] c[j]).below(c[running_min(c, n)]),
        forall|j: int|
            1 <= j < running_min(c, n) ==> c[running_min(c, n)].below(#[trigger] c[j]),
    decreases n,
{
    if n > 0 {
        lemma_running_min_is_least(c, n - 1);
        lemma_running_min_range(c, n - 1);
        let m = running_min(c, n - 1);
        if improves(c, n, m) {
            assert(c[n].finite());
            if m != 0 {
                assert forall|j: int| 1 <= j <= n implies !(#[trigger] c[j]).below(c[n]) by {
                    if j < n && c[j].below(c[n]) {
                        lemma_below_transitive(c[j], c[n], c[m]);
                    }
                }
                assert forall|j: int| 1 <= j < n implies c[n].below(#[trigger] c[j]) by {
                    lemma_below_then_not_above(c[n], c[m], c[j]);
                }
            } else {
                assert forall|j: int| 1 <= j < n implies c[n].below(#[trigger] c[j]) by {
                    assert(!c[j].finite());
                }
            }
        } else {
            if m == 0 {
                assert(!c[n].finite());
            }
        }
    }
}

/// `first_below` lies in `from ..= c.len()`, no lag from `from` up to it is
/// below the threshold, and the lag itself is, unless it is `c.len()`.
pub proof fn lemma_first_below_is_first(c: Seq<Ratio>, threshold: Ratio, from: int)
    requires
        0 <= from <= c.len(),
    ensures
        from <= first_below(c, threshold, from) <= c.len(),
        forall|j: int|
            from <= j < first_below(c, threshold, from) ==> !(#[trigger] c[j]).below(threshold),
        first_below(c, threshold, from) < c.len() ==> c[first_below(c, threshold, from)].below(
            threshold,
        ),
    decreases c.len() - from,
{
    if from < c.len() && !c[from].below(threshold) {
        lemma_first_below_is_first(c, threshold, from + 1);
    }
}

/// Where no lag from `from` on is below the threshold, `first_below` is
/// `c.len()`.
pub proof fn lemma_first_below_none(c: Seq<Ratio>, threshold: Ratio, from: int)
    requires
        0 <= from <= c.len(),
        forall|j: int| from <= j < c.len() ==> !(#[trigger] c[j]).below(threshold),
    ensures
        first_below(c, threshold, from) == c.len(),
    decreases c.len() - from,
{
    if from < c.len() {
        lemma_first_below_none(c, threshold, from + 1);
    }
}

/// `descend` ends at or after its start and inside `c`; the values strictly
/// fall along the way, and the value after the end, if there is one, is not
/// smaller than the value at the end.
pub proof fn lemma_descend_is_local_min(c: Seq<Ratio>, t: int)
    requires
        0 <= t < c.len(),
    ensures
        t <= descend(c, t) < c.len(),
        forall|j: int| t <= j < descend(c, t) ==> (#[trigger] c[j + 1]).below(c[j]),
        descend(c, t) + 1 < c.len() ==> !c[descend(c, t) + 1].below(c[descend(c, t)]),
    decreases c.len() - t,
{
    if t + 1 < c.len() && c[t + 1].below(c[t]) {
        lemma_descend_is_local_min(c, t + 1);
        assert forall|j: int| t <= j < descend(c, t) implies (#[trigger] c[j + 1]).below(
            c[j],
        ) by {
            if j == t {
            }
        }
    }
}

/// The value at the end of a descent is the start's value or one below it.
pub proof fn lemma_descend_not_above_start(c: Seq<Ratio>, t: int)
    requires
        all_wf(c),
        0 <= t < c.len(),
    ensures
        descend(c, t) == t || c[descend(c, t)].below(c[t]),
    decreases c.len() - t,
{
    if t + 1 < c.len() && c[t + 1].below(c[t]) {
        lemma_descend_not_above_start(c, t + 1);
        lemma_descend_is_local_min(c, t + 1);
        if descend(c, t + 1) != t + 1 {
            lemma_below_transitive(c[descend(c, t + 1)], c[t + 1], c[t]);
        }
    }
}

/// A descent does not pass a lag whose value nothing is below.
pub proof fn lemma_descend_stops_at_floor(c: Seq<Ratio>, t: int, floor: int)
    requires
        0 <= t <= floor < c.len(),
        forall|j: int| 0 <= j < c.len() ==> !(#[trigger] c[j]).below(c[floor]),
    ensures
        descend(c, t) <= floor,
    decreases floor - t,
{
    if t < floor {
        if c[t + 1].below(c[t]) {
            lemma_descend_stops_at_floor(c, t + 1, floor);
        }
    } else {
        if t + 1 < c.len() {
            assert(!c[t + 1].below(c[floor]));
        }
    }
}

/// The reported period is a lag of `c`.
pub proof fn lemma_period_in_range(c: Seq<Ratio>, threshold: Ratio)
    requires
        c.len() > 0,
    ensures
        0 <= period_of(c, threshold) < c.len(),
{
    lemma_first_below_is_first(c, threshold, 1);
    let t = first_below(c, threshold, 1);
    if t < c.len() {
        lemma_descend_is_local_min(c, t);
    } else {
        lemma_running_min_range(c, c.len() - 1);
    }
}

/// Where some lag is below the threshold, the reported period is at or after
/// the first such lag, is a local minimum reached by a strict descent from
/// it, and its value is below the threshold too.
pub proof fn lemma_period_when_crossed(c: Seq<Ratio>, threshold: Ratio)
    requires
        all_wf(c),
        threshold.wf(),
        1 <= first_below(c, threshold, 1) < c.len(),
    ensures
        first_below(c, threshold, 1) <= period_of(c, threshold) < c.len(),
        c[period_of(c, threshold)].below(threshold),
        forall|j: int|
            first_below(c, threshold, 1) <= j < period_of(c, threshold) ==> (#[trigger] c[j
                + 1]).below(c[j]),
        period_of(c, threshold) + 1 < c.len() ==> !c[period_of(c, threshold) + 1].below(
            c[period_of(c, threshold)],
        ),
{
    let t = first_below(c, threshold, 1);
    lemma_first_below_is_first(c, threshold, 1);
    lemma_descend_is_local_min(c, t);
    lemma_descend_not_above_start(c, t);
    if descend(c, t) != t {
        lemma_below_transitive(c[descend(c, t)], c[t], threshold);
    }
}

/// Where no lag is below the threshold, the reported period is the lag of
/// the least value: no value is below the one it holds, every value at an
/// earlier lag is strictly above it, and it is 0 exactly where no lag holds a
/// finite value.
pub proof fn lemma_period_when_not_crossed(c: Seq<Ratio>, threshold: Ratio)
    requires
        all_wf(c),
        c.len() > 0,
        forall|j: int| 1 <= j < c.len() ==> !(#[trigger] c[j]).below(threshold),
    ensures
        period_of(c, threshold) == running_min(c, c.len() - 1),
        period_of(c, threshold) == 0 <==> forall|j: int|
            1 <= j < c.len() ==> !(#[trigger] c[j]).finite(),
        period_of(c, threshold) != 0 ==> forall|j: int|
            1 <= j < c.len() ==> !(#[trigger] c[j]).below(c[period_of(c, threshold)]),
        forall|j: int|
            1 <= j < period_of(c, threshold) ==> c[period_of(c, threshold)].below(#[trigger] c[j]),
{
    lemma_first_below_none(c, threshold, 1);
    lemma_running_min_is_least(c, c.len() - 1);
}

/// A threshold that no lag is below gives the same period as every
/// threshold under it.
pub proof fn lemma_lower_threshold_same_period(c: Seq<Ratio>, threshold: Ratio, lower: Ratio)
    requires
        all_wf(c),
        threshold.wf(),
        lower.wf(),
        c.len() > 0,
        !threshold.below(lower),
        forall|j: int| 1 <= j < c.len() ==> !(#[trigger] c[j]).below(threshold),
    ensures
        period_of(c, lower) == period_of(c, threshold),
{
    assert forall|j: int| 1 <= j < c.len() implies !(#[trigger] c[j]).below(lower) by {
        if c[j].below(lower) {
            lemma_below_then_not_above(c[j], lower, threshold);
        }
    }
    lemma_first_below_none(c, threshold, 1);
    lemma_first_below_none(c, lower, 1);
}

/// Whether the value at `tau` improves on the minimum held at `m`.
fn improves_on(c: &[Ratio64], tau: usize, m: usize) -> (b: bool)
    requires
        tau < c@.len(),
        m < c@.len(),
    ensures
        b == improves(ratios(c@), tau as int, m as int),
{
    if m == 0 {
        c[tau].den != 0
    } else {
        c[tau].below(&c[m])
    }
}

/// Searches the normalized differences `c`, indexed by lag, for the period.
///
/// The lags are scanned from 1 upward while the least value seen so far is
/// tracked, the earlier lag winning a tie. As soon as that least value is
/// below `threshold`, the scan stops and the lag walks forward for as long as
/// the next value is strictly smaller. Where the threshold is never crossed,
/// the lag of the least value is the result, and 0 where no lag holds a finite
/// value. `c[0]` is never read.
pub fn search(c: &[Ratio64], threshold: Ratio64) -> (lag: usize)
    ensures
        lag as int == period_of(ratios(c@), threshold@),
        c@.len() > 0 ==> lag < c@.len(),
{
    let n: usize = c.len();
    let ghost r = ratios(c@);
    let ghost thr = threshold@;
    if n == 0 {
        return 0;
    }
    let mut tau_min: usize = 0;
    let mut tau: usize = 1;
    while tau < n
        invariant
            1 <= tau <= n,
            n == c@.len(),
            r == ratios(c@),
            thr == threshold@,
            tau_min < tau,
            tau_min as int == running_min(r, tau - 1),
            tau_min != 0 ==> !r[tau_min as int].below(thr),
            first_below(r, thr, 1) == first_below(r, thr, tau as int),
        decreases n - tau,
    {
        let ghost before = tau_min;
        if improves_on(c, tau, tau_min) {
            tau_min = tau;
        }
        if tau_min != 0 && c[tau_min].below(&threshold) {
            assert(tau_min == tau);
            while tau_min + 1 < n && c[tau_min + 1].below(&c[tau_min])
                invariant
                    tau <= tau_min < n,
                    n == c@.len(),
                    r == ratios(c@),
                    descend(r, tau as int) == descend(r, tau_min as int),
                decreases n - tau_min,
            {
                tau_min += 1;
            }
            return tau_min;
        }
        proof {
            if r[tau as int].below(thr) {
                assert(tau_min == before && before != 0);
                lemma_not_above_then_below(r[before as int], r[tau as int], thr);
            }
        }
        tau += 1;
    }
    tau_min
}

} // verus!
