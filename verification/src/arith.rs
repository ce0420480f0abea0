//! Small arithmetic helpers shared by the planners.

use vstd::prelude::*;

verus! {

/// Quotient rounded up.
pub open spec fn ceil_div(a: int, b: int) -> int {
    (a + b - 1) / b
}

/// `u64` quotient rounded up.
pub fn div_ceil_u64(a: u64, b: u64) -> (r: u64)
    requires
        b > 0,
    ensures
        r == ceil_div(a as int, b as int),
{
    let q: u64 = a / b;
    let m: u64 = a % b;
    proof {
        let (x, y) = (a as int, b as int);
        vstd::arithmetic::div_mod::lemma_fundamental_div_mod(x, y);
        vstd::arithmetic::div_mod::lemma_mod_division_less_than_divisor(x, y);
        assert(0 <= x % y < y);
        assert(x == y * (x / y) + x % y);
        if m == 0 {
            lemma_div_unique(x + y - 1, y, x / y, y - 1);
        } else {
            assert(y * (x / y + 1) == y * (x / y) + y) by (nonlinear_arith);
            lemma_div_unique(x + y - 1, y, x / y + 1, x % y - 1);
            assert(x / y + 1 <= x) by (nonlinear_arith)
                requires
                    x == y * (x / y) + x % y,
                    x % y >= 1,
                    y >= 1,
                    x / y >= 0,
            ;
        }
    }
    if m == 0 {
        q
    } else {
        q + 1
    }
}

/// `usize` quotient rounded up.
pub fn div_ceil_usize(a: usize, b: usize) -> (r: usize)
    requires
        b > 0,
    ensures
        r == ceil_div(a as int, b as int),
{
    let r: u64 = div_ceil_u64(a as u64, b as u64);
    proof {
        lemma_ceil_div_bounds(a as int, b as int);
    }
    r as usize
}

/// `u32` quotient rounded up.
pub fn div_ceil_u32(a: u32, b: u32) -> (r: u32)
    requires
        b > 0,
    ensures
        r == ceil_div(a as int, b as int),
{
    let r: u64 = div_ceil_u64(a as u64, b as u64);
    proof {
        lemma_ceil_div_bounds(a as int, b as int);
    }
    r as u32
}

/// A quotient is pinned by its remainder being in range.
pub proof fn lemma_div_unique(x: int, d: int, q: int, r: int)
    requires
        d > 0,
        0 <= r < d,
        x == d * q + r,
    ensures
        x / d == q,
        x % d == r,
{
    assert(d * q == q * d) by (nonlinear_arith);
    vstd::arithmetic::div_mod::lemma_fundamental_div_mod_converse(x, d, q, r);
}

/// The rounded-up quotient is the least `q` with `b * q >= a`.
pub proof fn lemma_ceil_div_bounds(a: int, b: int)
    requires
        a >= 0,
        b > 0,
    ensures
        0 <= ceil_div(a, b) <= a,
        b * ceil_div(a, b) >= a,
        b * ceil_div(a, b) < a + b,
{
    let x = a + b - 1;
    vstd::arithmetic::div_mod::lemma_fundamental_div_mod(x, b);
    let q = x / b;
    assert(x == b * q + x % b);
    assert(0 <= x % b < b);
    assert(b * q >= a);
    assert(q >= 0) by (nonlinear_arith)
        requires
            b * q >= a,
            a >= 0,
            b > 0,
            b * q < a + b,
    ;
    assert(q <= a) by (nonlinear_arith)
        requires
            b * q < a + b,
            a >= 0,
            b > 0,
            q >= 0,
    ;
}

/// The rounded-up quotient grows with the dividend.
pub proof fn lemma_ceil_div_mono(a: int, c: int, b: int)
    requires
        0 <= a <= c,
        b > 0,
    ensures
        ceil_div(a, b) <= ceil_div(c, b),
{
    vstd::arithmetic::div_mod::lemma_div_is_ordered(a + b - 1, c + b - 1, b);
}

} // verus!
