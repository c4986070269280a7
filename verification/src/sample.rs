//! The two sample domains: unsigned offset-binary words and signed,
//! centered words.

use vstd::prelude::*;

verus! {

/// Half the range of a 16-bit sample: the bias of the offset-binary encoding.
pub const BIAS: u16 = 0x8000;

/// The largest squared distance between two 16-bit samples, `65535 * 65535`.
pub const MAX_SQ_DIST: u64 = 0xFFFE_0001;

/// The square of an integer.
pub open spec fn sq(x: int) -> int {
    x * x
}

/// A 16-bit audio sample in some encoding.
pub trait Sample: Sized {
    /// The integer that the sample holds.
    spec fn value(&self) -> int;

    /// The squared distance between two samples, computed from their absolute
    /// difference.
    fn sq_dist(&self, other: &Self) -> (d: u64)
        ensures
            d == sq(self.value() - other.value()),
            d <= MAX_SQ_DIST,
    ;
}

/// The integers held by a window of samples.
pub open spec fn values<S: Sample>(window: Seq<S>) -> Seq<int> {
    Seq::new(window.len(), |i: int| window[i].value())
}

/// Squares of gaps of at most 65535 stay within `MAX_SQ_DIST`.
proof fn lemma_sq_gap(gap: int)
    requires
        0 <= gap <= 0xFFFF,
    ensures
        0 <= gap * gap <= MAX_SQ_DIST,
{
    assert(0 <= gap * gap <= 0xFFFF * 0xFFFF) by (nonlinear_arith)
        requires
            0 <= gap <= 0xFFFF,
    ;
}

/// The square of a difference does not depend on its sign.
proof fn lemma_sq_symmetric(a: int, b: int)
    ensures
        sq(a - b) == sq(b - a),
{
    assert((a - b) * (a - b) == (b - a) * (b - a)) by (nonlinear_arith);
}

impl Sample for u16 {
    open spec fn value(&self) -> int {
        *self as int
    }

    fn sq_dist(&self, other: &u16) -> (d: u64) {
        let a: u64 = *self as u64;
        let b: u64 = *other as u64;
        let gap: u64 = if a >= b {
            a - b
        } else {
            b - a
        };
        proof {
            lemma_sq_gap(gap as int);
            lemma_sq_symmetric(a as int, b as int);
        }
        gap * gap
    }
}

impl Sample for i16 {
    open spec fn value(&self) -> int {
        *self as int
    }

    fn sq_dist(&self, other: &i16) -> (d: u64) {
        let a: i32 = *self as i32;
        let b: i32 = *other as i32;
        let gap: i32 = if a >= b {
            a - b
        } else {
            b - a
        };
        let gap: u64 = gap as u64;
        proof {
            lemma_sq_gap(gap as int);
            lemma_sq_symmetric(a as int, b as int);
        }
        gap * gap
    }
}

/// The offset-binary code of a signed sample: the sample plus half the
/// range, which is the sample's bit pattern with the sign bit flipped.
pub fn offset_binary(sample: i16) -> (code: u16)
    ensures
        code as int == sample as int + BIAS as int,
{
    let bits: u16 = sample as u16;
    assert((bits ^ 0x8000u16) as int == sample as int + 0x8000) by (bit_vector)
        requires
            bits == sample as u16,
    ;
    bits ^ BIAS
}

/// The offset-binary codes of a run of signed samples, in order.
pub fn encode_window(samples: &[i16]) -> (codes: Vec<u16>)
    ensures
        codes@.len() == samples@.len(),
        forall|i: int|
            0 <= i < samples@.len() ==> (#[trigger] codes@[i]) as int == samples@[i] as int
                + BIAS as int,
{
    let mut codes: Vec<u16> = Vec::new();
    let mut i: usize = 0;
    while i < samples.len()
        invariant
            i <= samples@.len(),
            codes@.len() == i,
            forall|j: int|
                0 <= j < i ==> (#[trigger] codes@[j]) as int == samples@[j] as int + BIAS as int,
        decreases samples@.len() - i,
    {
        codes.push(offset_binary(samples[i]));
        i += 1;
    }
    codes
}

} // verus!
