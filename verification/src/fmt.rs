use vstd::prelude::*;

use crate::text::string_of;

verus! {

/// The character of a decimal digit.
pub open spec fn digit_char(d: nat) -> char
    recommends
        d < 10,
{
    (48 + d) as char
}

/// The decimal representation of a natural number, without leading zeros.
pub open spec fn decimal(n: nat) -> Seq<char>
    decreases n,
{
    if n < 10 {
        seq![digit_char(n)]
    } else {
        decimal(n / 10).push(digit_char(n % 10))
    }
}

fn push_decimal(n: u64, out: &mut Vec<char>)
    ensures
        final(out)@ == old(out)@ + decimal(n as nat),
    decreases n,
{
    if n >= 10 {
        push_decimal(n / 10, out);
    }
    let d: u8 = (n % 10) as u8;
    out.push((48u8 + d) as char);
    proof {
        assert(digit_char((n % 10) as nat) == (48u8 + d) as char);
    }
}

/// The decimal text of `n`, as `n.to_string()` writes it.
pub fn decimal_string(n: u64) -> (s: String)
    ensures
        s@ == decimal(n as nat),
{
    let mut v: Vec<char> = Vec::new();
    push_decimal(n, &mut v);
    proof {
        assert(v@ =~= decimal(n as nat));
    }
    string_of(v.as_slice())
}

/// `n / d` rounded to the nearest integer, ties to the even neighbour (the rounding that
/// Rust's `{:.0}` float formatting applies).
pub open spec fn round_half_even(n: nat, d: nat) -> nat
    recommends
        d > 0,
{
    let q = n / d;
    let r = n % d;
    if 2 * r > d {
        q + 1
    } else if 2 * r == d && q % 2 == 1 {
        q + 1
    } else {
        q
    }
}

pub fn round_half_even_exec(n: u128, d: u128) -> (q: u128)
    requires
        d > 0,
        n <= u64::MAX,
        d <= u64::MAX,
    ensures
        q == round_half_even(n as nat, d as nat),
{
    let q = n / d;
    let r = n % d;
    if 2 * r > d {
        q + 1
    } else if 2 * r == d && q % 2 == 1 {
        q + 1
    } else {
        q
    }
}

/// The percentage `100 * n / d` with no decimals, as `{:.0}` prints it.
pub open spec fn percent0(n: nat, d: nat) -> Seq<char> {
    decimal(round_half_even(100 * n, d))
}

pub fn percent0_string(n: u128, d: u128) -> (s: String)
    requires
        d > 0,
        n <= 0xffff_ffff_ffffu128,
        d <= u64::MAX,
    ensures
        s@ == percent0(n as nat, d as nat),
{
    let q = round_half_even_exec(100 * n, d);
    proof {
        vstd::arithmetic::div_mod::lemma_div_is_ordered_by_denominator((100 * n) as int, 1, d as int);
    }
    decimal_string(q as u64)
}

} // verus!
