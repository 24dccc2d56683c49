use vstd::prelude::*;

verus! {

/// An exact non-negative rational number `num / den`.
#[derive(Clone, Copy, Debug, PartialEq, Eq, Structural)]
pub struct Ratio {
    pub num: u128,
    pub den: u128,
}

impl Ratio {
    pub fn new(num: u128, den: u128) -> (r: Ratio)
        requires
            den > 0,
        ensures
            r.num == num,
            r.den == den,
            r.wf(),
    {
        Ratio { num, den }
    }

    /// The ratio one (full agreement).
    pub fn one() -> (r: Ratio)
        ensures
            r.num == 1,
            r.den == 1,
    {
        Ratio { num: 1, den: 1 }
    }

    /// Well-formed ratios have a positive denominator.
    pub open spec fn wf(self) -> bool {
        self.den > 0
    }
}

/// A similarity threshold `num / den`, compared exactly against similarity fractions.
#[derive(Clone, Copy, Debug, PartialEq, Eq, Structural)]
pub struct Threshold {
    pub num: u32,
    pub den: u32,
}

impl Threshold {
    pub open spec fn wf(self) -> bool {
        self.den > 0
    }

    /// Whether the fraction `n / d` (with `d > 0`) reaches this threshold.
    pub open spec fn admits(self, n: int, d: int) -> bool {
        n * self.den >= d * self.num
    }

    pub fn new(num: u32, den: u32) -> (t: Threshold)
        requires
            den > 0,
        ensures
            t.num == num,
            t.den == den,
            t.wf(),
    {
        Threshold { num, den }
    }

    /// Exact test of `n / d >= num / den` for fractions whose parts stay below `2^66`.
    pub fn admits_exec(&self, n: u128, d: u128) -> (r: bool)
        requires
            n <= 0x4_0000_0000_0000_0000u128,
            d <= 0x4_0000_0000_0000_0000u128,
        ensures
            r == self.admits(n as int, d as int),
    {
        proof {
            lemma_small_product_fits(n, self.den);
            lemma_small_product_fits(d, self.num);
        }
        n * (self.den as u128) >= d * (self.num as u128)
    }
}

/// A factor below `2^66` times a `u32` fits in a `u128`.
pub proof fn lemma_small_product_fits(a: u128, b: u32)
    requires
        a <= 0x4_0000_0000_0000_0000u128,
    ensures
        a as int * b as int <= u128::MAX,
        a as int * b as int >= 0,
{
    assert(a as int * b as int <= 0x4_0000_0000_0000_0000int * 0xffff_ffffint) by (nonlinear_arith)
        requires
            a <= 0x4_0000_0000_0000_0000int,
            b <= 0xffff_ffffint,
            a >= 0,
            b >= 0,
    ;
    assert(a as int * b as int >= 0) by (nonlinear_arith)
        requires
            a >= 0,
            b >= 0,
    ;
}

} // verus!
