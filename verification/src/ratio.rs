//! Non-negative ratios extended with +infinity, and their strict order.

use vstd::prelude::*;

verus! {

/// The mathematical value `num / den` of a normalized difference, where a
/// zero denominator stands for +infinity.
pub struct Ratio {
    pub num: int,
    pub den: int,
}

impl Ratio {
    /// Neither part is negative.
    pub open spec fn wf(self) -> bool {
        self.num >= 0 && self.den >= 0
    }

    /// The ratio is an ordinary number, not +infinity.
    pub open spec fn finite(self) -> bool {
        self.den > 0
    }

    /// `self < other` in the extended order: finite ratios compare by cross
    /// multiplication, every finite ratio is below +infinity, and +infinity is
    /// below nothing.
    pub open spec fn below(self, other: Ratio) -> bool {
        self.den > 0 && (other.den <= 0 || self.num * other.den < other.num * self.den)
    }
}

/// A ratio of two machine words; `den == 0` stands for +infinity.
#[derive(Clone, Copy, Debug, PartialEq, Eq)]
pub struct Ratio64 {
    pub num: u64,
    pub den: u64,
}

impl View for Ratio64 {
    type V = Ratio;

    open spec fn view(&self) -> Ratio {
        Ratio { num: self.num as int, den: self.den as int }
    }
}

/// The values of a sequence of machine ratios.
pub open spec fn ratios(c: Seq<Ratio64>) -> Seq<Ratio> {
    Seq::new(c.len(), |i: int| c[i]@)
}

impl Ratio64 {
    /// The ratio `num / den`.
    pub fn new(num: u64, den: u64) -> (r: Ratio64)
        ensures
            r.num == num,
            r.den == den,
    {
        Ratio64 { num, den }
    }

    /// +infinity.
    pub fn infinity() -> (r: Ratio64)
        ensures
            !r@.finite(),
            r.num == 0,
            r.den == 0,
    {
        Ratio64 { num: 0, den: 0 }
    }

    /// Whether `self` is strictly below `other`, decided exactly.
    pub fn below(&self, other: &Ratio64) -> (b: bool)
        ensures
            b == self@.below(other@),
    {
        if self.den == 0 {
            return false;
        }
        if other.den == 0 {
            return true;
        }
        proof {
            lemma_product_fits(self.num, other.den);
            lemma_product_fits(other.num, self.den);
        }
        let left: u128 = (self.num as u128) * (other.den as u128);
        let right: u128 = (other.num as u128) * (self.den as u128);
        left < right
    }
}

/// The product of two 64-bit words fits in 128 bits.
pub proof fn lemma_product_fits(a: u64, b: u64)
    ensures
        a * b <= u128::MAX,
{
    assert(a * b <= 0xffff_ffff_ffff_ffff * 0xffff_ffff_ffff_ffff) by (nonlinear_arith)
        requires
            0 <= a <= 0xffff_ffff_ffff_ffff,
            0 <= b <= 0xffff_ffff_ffff_ffff,
    ;
}

/// `a < b` and `b <= c` give `a < c`.
pub proof fn lemma_below_then_not_above(a: Ratio, b: Ratio, c: Ratio)
    requires
        a.wf(),
        b.wf(),
        c.wf(),
        a.below(b),
        !c.below(b),
    ensures
        a.below(c),
{
    if c.den > 0 {
        assert(b.den > 0);
        assert(a.num * c.den < c.num * a.den) by (nonlinear_arith)
            requires
                a.num >= 0,
                b.num >= 0,
                c.num >= 0,
                a.den > 0,
                b.den > 0,
                c.den > 0,
                a.num * b.den < b.num * a.den,
                c.num * b.den >= b.num * c.den,
        ;
    }
}

/// `a <= b` and `b < c` give `a < c`.
pub proof fn lemma_not_above_then_below(a: Ratio, b: Ratio, c: Ratio)
    requires
        a.wf(),
        b.wf(),
        c.wf(),
        !b.below(a),
        b.below(c),
    ensures
        a.below(c),
{
    assert(b.den > 0);
    assert(a.den > 0);
    if c.den > 0 {
        assert(a.num * c.den < c.num * a.den) by (nonlinear_arith)
            requires
                a.num >= 0,
                b.num >= 0,
                c.num >= 0,
                a.den > 0,
                b.den > 0,
                c.den > 0,
                b.num * a.den >= a.num * b.den,
                b.num * c.den < c.num * b.den,
        ;
    }
}

/// The order is transitive.
pub proof fn lemma_below_transitive(a: Ratio, b: Ratio, c: Ratio)
    requires
        a.wf(),
        b.wf(),
        c.wf(),
        a.below(b),
        b.below(c),
    ensures
        a.below(c),
{
    lemma_below_asymmetric(b, c);
    lemma_below_then_not_above(a, b, c);
}

/// Of two ratios, at most one is below the other.
pub proof fn lemma_below_asymmetric(a: Ratio, b: Ratio)
    requires
        a.wf(),
        b.wf(),
        a.below(b),
    ensures
        !b.below(a),
{
}

} // verus!
