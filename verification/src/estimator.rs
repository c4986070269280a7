//! The estimator: difference function, normalization and search in one
//! call, for one window or for a run of windows.

use crate::cmndf::{cmndf_seq, lemma_capacity, normalize, MAX_LAG_PAIRS};
use crate::difference::{difference_function, difference_seq, words};
use crate::ratio::{lemma_product_fits, Ratio, Ratio64};
use crate::sample::{values, Sample};
use crate::search::{period_of, search};
use vstd::prelude::*;
use vstd::slice::slice_subrange;

verus! {

/// Why a window was not analysed.
#[derive(Clone, Copy, Debug, PartialEq, Eq)]
pub enum EstimateError {
    /// No lag to search, more lags than samples, or a buffer whose length is
    /// not the window size.
    InvalidConfiguration,
    /// The window size times the number of lags is above `MAX_LAG_PAIRS`.
    WindowTooLarge,
}

/// Numerator of the detection threshold.
pub const THRESHOLD_NUM: u64 = 1;

/// Denominator of the detection threshold.
pub const THRESHOLD_DEN: u64 = 10;

/// The detection threshold, one tenth.
pub open spec fn default_threshold() -> Ratio {
    Ratio { num: THRESHOLD_NUM as int, den: THRESHOLD_DEN as int }
}

/// The buffer holds exactly one window, and there is at least one lag and at
/// most one per sample.
pub open spec fn valid_config(len: int, window_size: int, taumax: int) -> bool {
    len == window_size && 1 <= taumax <= window_size
}

/// The configuration stays within what 64-bit ratios can hold.
pub open spec fn within_capacity(window_size: int, taumax: int) -> bool {
    taumax * window_size <= MAX_LAG_PAIRS
}

/// The period, in samples, of the window `s` among the lags `0 .. taumax`
/// at the given threshold.
pub open spec fn period_at(s: Seq<int>, taumax: int, threshold: Ratio) -> int {
    period_of(cmndf_seq(difference_seq(s, taumax)), threshold)
}

/// The period of the window `s` at the default threshold.
pub open spec fn yin_period(s: Seq<int>, taumax: int) -> int {
    period_at(s, taumax, default_threshold())
}

/// A number of lags that is within capacity and at most the window size is
/// at most 65536, so every lag fits in 16 bits.
pub proof fn lemma_lags_fit_u16(window_size: int, taumax: int)
    requires
        0 <= taumax <= window_size,
        within_capacity(window_size, taumax),
    ensures
        taumax <= 0x1_0000,
{
    assert(taumax <= 0x1_0000) by (nonlinear_arith)
        requires
            0 <= taumax <= window_size,
            taumax * window_size <= 0x1_0000_0000,
    ;
}

/// The period of one window of samples at a threshold of the caller's
/// choice.
pub fn estimate_period<S: Sample>(window: &[S], taumax: usize, threshold: Ratio64) -> (lag: usize)
    requires
        1 <= taumax <= window@.len(),
        within_capacity(window@.len() as int, taumax as int),
    ensures
        lag as int == period_at(values(window@), taumax as int, threshold@),
        lag < taumax,
{
    proof {
        assert(window@.len() <= MAX_LAG_PAIRS) by (nonlinear_arith)
            requires
                1 <= taumax,
                taumax * window@.len() <= MAX_LAG_PAIRS,
        ;
    }
    let diff: Vec<u64> = difference_function(window, taumax);
    proof {
        lemma_capacity(words(diff@), window@.len() as int);
    }
    let c: Vec<Ratio64> = normalize(diff.as_slice());
    search(c.as_slice(), threshold)
}

/// The period of one window at the default threshold, as a 16-bit word.
fn period_word<S: Sample>(window: &[S], taumax: usize) -> (period: u16)
    requires
        1 <= taumax <= window@.len(),
        within_capacity(window@.len() as int, taumax as int),
    ensures
        period as int == yin_period(values(window@), taumax as int),
        (period as int) < taumax,
{
    proof {
        lemma_lags_fit_u16(window@.len() as int, taumax as int);
    }
    let lag: usize = estimate_period(window, taumax, Ratio64::new(THRESHOLD_NUM, THRESHOLD_DEN));
    lag as u16
}

/// The period of one window of offset-binary samples: the YIN estimate at
/// the threshold of one tenth.
pub fn yin(sig: &[u16], window_size: usize, taumax: usize) -> (period: u16)
    requires
        valid_config(sig@.len() as int, window_size as int, taumax as int),
        within_capacity(window_size as int, taumax as int),
    ensures
        period as int == yin_period(values(sig@), taumax as int),
        (period as int) < taumax,
{
    period_word(sig, taumax)
}

/// The period of one window of signed, centered samples.
pub fn yin_centered(sig: &[i16], window_size: usize, taumax: usize) -> (period: u16)
    requires
        valid_config(sig@.len() as int, window_size as int, taumax as int),
        within_capacity(window_size as int, taumax as int),
    ensures
        period as int == yin_period(values(sig@), taumax as int),
        (period as int) < taumax,
{
    period_word(sig, taumax)
}

/// Checks a configuration: `Ok` exactly when it is valid and within
/// capacity.
pub fn check_config(len: usize, window_size: usize, taumax: usize) -> (r: Result<
    (),
    EstimateError,
>)
    ensures
        r is Ok <==> valid_config(len as int, window_size as int, taumax as int)
            && within_capacity(window_size as int, taumax as int),
        r == Err::<(), EstimateError>(EstimateError::InvalidConfiguration) <==> !valid_config(
            len as int,
            window_size as int,
            taumax as int,
        ),
{
    if taumax == 0 || taumax > window_size || len != window_size {
        return Err(EstimateError::InvalidConfiguration);
    }
    proof {
        lemma_product_fits(taumax as u64, window_size as u64);
    }
    let pairs: u128 = (taumax as u128) * (window_size as u128);
    if pairs > MAX_LAG_PAIRS as u128 {
        return Err(EstimateError::WindowTooLarge);
    }
    Ok(())
}

/// The period of one window after checking the configuration.
///
/// An invalid configuration is refused before anything is computed, and so
/// is one beyond capacity; every other window has a period, silent ones
/// included.
pub fn estimate<S: Sample>(window: &[S], window_size: usize, taumax: usize) -> (r: Result<
    u16,
    EstimateError,
>)
    ensures
        match r {
            Ok(period) => {
                &&& valid_config(window@.len() as int, window_size as int, taumax as int)
                &&& within_capacity(window_size as int, taumax as int)
                &&& period as int == yin_period(values(window@), taumax as int)
                &&& (period as int) < taumax
            },
            Err(EstimateError::InvalidConfiguration) => !valid_config(
                window@.len() as int,
                window_size as int,
                taumax as int,
            ),
            Err(EstimateError::WindowTooLarge) => {
                &&& valid_config(window@.len() as int, window_size as int, taumax as int)
                &&& !within_capacity(window_size as int, taumax as int)
            },
        },
{
    match check_config(window.len(), window_size, taumax) {
        Err(e) => Err(e),
        Ok(_) => Ok(period_word(window, taumax)),
    }
}

/// The `k`-th of the consecutive windows of `window_size` samples that
/// `samples` holds.
pub open spec fn window_at<S>(samples: Seq<S>, window_size: int, k: int) -> Seq<S> {
    samples.subrange(k * window_size, (k + 1) * window_size)
}

/// The periods of the consecutive, non-overlapping windows of `window_size`
/// samples in `samples`, in order. Samples after the last full window are
/// left out.
pub fn estimate_windows<S: Sample>(samples: &[S], window_size: usize, taumax: usize) -> (r: Result<
    Vec<u16>,
    EstimateError,
>)
    ensures
        match r {
            Ok(periods) => {
                &&& valid_config(window_size as int, window_size as int, taumax as int)
                &&& within_capacity(window_size as int, taumax as int)
                &&& periods@.len() == samples@.len() / (window_size as nat)
                &&& forall|k: int|
                    0 <= k < periods@.len() ==> (#[trigger] periods@[k]) as int == yin_period(
                        values(window_at(samples@, window_size as int, k)),
                        taumax as int,
                    )
            },
            Err(EstimateError::InvalidConfiguration) => !valid_config(
                window_size as int,
                window_size as int,
                taumax as int,
            ),
            Err(EstimateError::WindowTooLarge) => {
                &&& valid_config(window_size as int, window_size as int, taumax as int)
                &&& !within_capacity(window_size as int, taumax as int)
            },
        },
{
    match check_config(window_size, window_size, taumax) {
        Err(e) => {
            return Err(e);
        },
        Ok(_) => {},
    }
    let len: usize = samples.len();
    let count: usize = len / window_size;
    let mut periods: Vec<u16> = Vec::new();
    let mut k: usize = 0;
    while k < count
        invariant
            k <= count,
            len == samples@.len(),
            count == len / window_size,
            valid_config(window_size as int, window_size as int, taumax as int),
            within_capacity(window_size as int, taumax as int),
            periods@.len() == k,
            forall|j: int|
                0 <= j < k ==> (#[trigger] periods@[j]) as int == yin_period(
                    values(window_at(samples@, window_size as int, j)),
                    taumax as int,
                ),
        decreases count - k,
    {
        proof {
            assert((k + 1) * window_size <= len) by (nonlinear_arith)
                requires
                    k + 1 <= count,
                    count == len / window_size,
                    window_size >= 1,
            ;
            assert(k * window_size + window_size == (k + 1) * window_size) by (nonlinear_arith);
        }
        let start: usize = k * window_size;
        let window: &[S] = slice_subrange(samples, start, start + window_size);
        periods.push(period_word(window, taumax));
        k += 1;
    }
    Ok(periods)
}

} // verus!
