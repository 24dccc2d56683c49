use vstd::prelude::*;

verus! {

/// An unsigned number below `2^256`, in two 128-bit halves.
pub struct Wide {
    pub hi: u128,
    pub lo: u128,
}

pub open spec fn pow128() -> int {
    0x1_0000_0000_0000_0000_0000_0000_0000_0000int
}

pub open spec fn pow64() -> int {
    0x1_0000_0000_0000_0000int
}

impl Wide {
    pub open spec fn value(self) -> int {
        self.hi as int * pow128() + self.lo as int
    }
}

proof fn lemma_split_product(ab: int, h: int, l: int, c: int)
    requires
        ab == h * pow64() + l,
    ensures
        ab * c == h * c * pow64() + l * c,
{
    assert(ab * c == h * c * pow64() + l * c) by (nonlinear_arith)
        requires
            ab == h * pow64() + l,
    ;
}

proof fn lemma_bounds_64(a: int, b: int)
    requires
        0 <= a < pow64(),
        0 <= b < pow64(),
    ensures
        0 <= a * b <= (pow64() - 1) * (pow64() - 1),
        (pow64() - 1) * (pow64() - 1) < pow128(),
{
    assert(0xffff_ffff_ffff_ffffint * 0xffff_ffff_ffff_ffffint == 0xffff_ffff_ffff_fffe_0000_0000_0000_0001int) by (nonlinear_arith);
    assert(0 <= a * b <= (pow64() - 1) * (pow64() - 1)) by (nonlinear_arith)
        requires
            0 <= a < pow64(),
            0 <= b < pow64(),
    ;
}

/// The product `a * b * c` of three numbers below `2^64`.
pub fn mul3(a: u64, b: u64, c: u64) -> (w: Wide)
    ensures
        w.value() == a as int * b as int * c as int,
{
    proof {
        lemma_bounds_64(a as int, b as int);
    }
    let ab: u128 = (a as u128) * (b as u128);
    let h: u128 = ab / 0x1_0000_0000_0000_0000u128;
    let l: u128 = ab % 0x1_0000_0000_0000_0000u128;
    proof {
        assert(ab as int == h as int * pow64() + l as int);
        assert(h < pow64()) by {
            assert(ab as int <= (pow64() - 1) * (pow64() - 1));
        }
        lemma_bounds_64(h as int, c as int);
        lemma_bounds_64(l as int, c as int);
        lemma_split_product(ab as int, h as int, l as int, c as int);
    }
    let hc: u128 = h * (c as u128);
    let lc: u128 = l * (c as u128);
    let top: u128 = hc / 0x1_0000_0000_0000_0000u128;
    let mid: u128 = hc % 0x1_0000_0000_0000_0000u128;
    proof {
        assert(hc as int == top as int * pow64() + mid as int);
        assert(mid as int * pow64() <= (pow64() - 1) * pow64()) by (nonlinear_arith)
            requires
                0 <= mid < pow64(),
        ;
        assert(hc as int * pow64() == top as int * pow128() + mid as int * pow64()) by (nonlinear_arith)
            requires
                hc as int == top as int * pow64() + mid as int,
        ;
    }
    let shifted: u128 = mid * 0x1_0000_0000_0000_0000u128;
    if lc > u128::MAX - shifted {
        let lo: u128 = lc - (u128::MAX - shifted) - 1;
        Wide { hi: top + 1, lo }
    } else {
        Wide { hi: top, lo: lc + shifted }
    }
}

/// The sum of two wide numbers whose sum stays below `2^256`.
pub fn wide_sum(x: &Wide, y: &Wide) -> (w: Wide)
    requires
        x.hi as int + y.hi as int + 1 <= u128::MAX,
    ensures
        w.value() == x.value() + y.value(),
{
    if x.lo > u128::MAX - y.lo {
        Wide { hi: x.hi + y.hi + 1, lo: x.lo - (u128::MAX - y.lo) - 1 }
    } else {
        Wide { hi: x.hi + y.hi, lo: x.lo + y.lo }
    }
}

/// Whether `x >= y`.
pub fn ge(x: &Wide, y: &Wide) -> (r: bool)
    ensures
        r == (x.value() >= y.value()),
{
    x.hi > y.hi || (x.hi == y.hi && x.lo >= y.lo)
}

} // verus!
