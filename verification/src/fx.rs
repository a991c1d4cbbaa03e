//! Fixed-point scalars.
//!
//! Every scalar in this crate — coordinates, noise samples, random
//! draws, tunable parameters — is an `i64` counting units of `1/ONE`.
//! This module holds the arithmetic those scalars need: truncating and
//! ceiling division, clamping into the unit interval, and an integer
//! square root, each with an exact contract.

use vstd::arithmetic::div_mod::{
    lemma_basic_div, lemma_div_basics_5, lemma_div_by_self, lemma_div_is_ordered,
    lemma_div_multiples_vanish, lemma_div_pos_is_pos,
};
use vstd::prelude::*;

verus! {

/// One unit of the fixed-point scale: scalars count ten-thousandths.
pub const ONE: i64 = 10000;

/// Magnitude bound under which all products taken in this crate fit in
/// an `i64`.
pub const FX_MAX: i64 = 0x4000_0000_0000_0000;

/// Truncating division (rounding toward zero) for a positive divisor:
/// the rounding of every signed fixed-point product in this crate.
pub open spec fn tdiv(a: int, b: int) -> int {
    if a >= 0 {
        a / b
    } else {
        -((-a) / b)
    }
}

/// Ceiling division for a non-negative dividend and positive divisor.
pub open spec fn cdiv(a: int, b: int) -> int {
    (a + b - 1) / b
}

/// The clamp of `x` into the fixed-point unit interval `[0, ONE]`.
pub open spec fn clamp01_spec(x: int) -> int {
    if x < 0 {
        0
    } else if x > ONE {
        ONE as int
    } else {
        x
    }
}

/// Whether `x` lies in the fixed-point unit interval `[0, ONE]`.
pub open spec fn in01(x: int) -> bool {
    0 <= x <= ONE
}

/// Clamps a scalar into the fixed-point unit interval.
pub fn clamp01(x: i64) -> (r: i64)
    ensures
        r == clamp01_spec(x as int),
        in01(r as int),
{
    if x < 0 {
        0
    } else if x > ONE {
        ONE
    } else {
        x
    }
}

/// Truncating division of a bounded signed scalar by a positive one.
pub fn tdiv64(a: i64, b: i64) -> (r: i64)
    requires
        0 < b,
        -FX_MAX < a < FX_MAX,
    ensures
        r == tdiv(a as int, b as int),
{
    if a >= 0 {
        proof {
            lemma_div_pos_is_pos(a as int, b as int);
            lemma_div_basics_5(a as int, b as int);
        }
        ((a as u64) / (b as u64)) as i64
    } else {
        proof {
            lemma_div_pos_is_pos(-(a as int), b as int);
            lemma_div_basics_5(-(a as int), b as int);
        }
        let m: u64 = (-a) as u64;
        -((m / (b as u64)) as i64)
    }
}

/// Ceiling division of a bounded non-negative scalar by a positive one.
pub fn cdiv64(a: i64, b: i64) -> (r: i64)
    requires
        0 <= a,
        0 < b,
        a + b < FX_MAX,
    ensures
        r == cdiv(a as int, b as int),
        0 <= r,
{
    proof {
        lemma_div_pos_is_pos(a + b - 1, b as int);
        lemma_div_basics_5(a + b - 1, b as int);
    }
    ((a as u64 + b as u64 - 1) / (b as u64)) as i64
}

/// `cdiv` is at least one exactly when the dividend is.
pub proof fn lemma_cdiv_pos(a: int, b: int)
    requires
        0 <= a,
        0 < b,
    ensures
        a >= 1 ==> cdiv(a, b) >= 1,
        a == 0 ==> cdiv(a, b) == 0,
{
    if a >= 1 {
        lemma_div_is_ordered(b, a + b - 1, b);
        lemma_div_by_self(b);
    } else {
        lemma_basic_div(b - 1, b);
    }
}

/// The product of two fixed-point scalars, truncated.
pub fn fx_mul(a: i64, b: i64) -> (r: i64)
    requires
        -0x7fff_ffff < a < 0x7fff_ffff,
        -0x7fff_ffff < b < 0x7fff_ffff,
    ensures
        r == tdiv(a as int * b as int, ONE as int),
{
    proof {
        assert((-FX_MAX) < (a as int) * (b as int) && (a as int) * (b as int) < FX_MAX)
            by (nonlinear_arith)
            requires
                -0x7fff_ffffint < a as int && a < 0x7fff_ffffint && -0x7fff_ffffint
                    < b as int && b < 0x7fff_ffffint && FX_MAX == 0x4000_0000_0000_0000i64,
        ;
    }
    tdiv64(a * b, ONE)
}

/// The product of two non-negative fixed-point scalars, rounded up so a
/// positive product never vanishes.
pub fn fx_mul_up(a: i64, b: i64) -> (r: i64)
    requires
        0 <= a < 0x7fff_ffff,
        0 <= b < 0x7fff_ffff,
    ensures
        r == cdiv(a as int * b as int, ONE as int),
        0 <= r,
{
    proof {
        assert(0 <= (a as int) * (b as int) && (a as int) * (b as int) + ONE < FX_MAX)
            by (nonlinear_arith)
            requires
                0 <= a as int && a < 0x7fff_ffffint && 0 <= b as int && b
                    < 0x7fff_ffffint && ONE == 10000i64 && FX_MAX == 0x4000_0000_0000_0000i64,
        ;
    }
    cdiv64(a * b, ONE)
}

/// `|tdiv(a, b)| <= |a|` for a positive divisor.
pub proof fn lemma_tdiv_abs_le(a: int, b: int)
    requires
        0 < b,
    ensures
        a >= 0 ==> 0 <= tdiv(a, b) <= a,
        a < 0 ==> a <= tdiv(a, b) <= 0,
{
    if a >= 0 {
        lemma_div_pos_is_pos(a, b);
        lemma_div_basics_5(a, b);
    } else {
        lemma_div_pos_is_pos(-a, b);
        lemma_div_basics_5(-a, b);
    }
}

/// `cdiv(a, b) <= a / b + 1`: rounding up adds at most one.
pub proof fn lemma_cdiv_upper(a: int, b: int)
    requires
        0 <= a,
        0 < b,
    ensures
        cdiv(a, b) <= a / b + 1,
{
    lemma_div_is_ordered(a + b - 1, a + b, b);
    vstd::arithmetic::div_mod::lemma_div_plus_one(a, b);
}

/// `|tdiv(a * n, d)| <= |a|` when `0 <= n <= d`: scaling by a
/// sub-unit fraction never grows a value's magnitude.
pub proof fn lemma_tdiv_frac_bound(a: int, n: int, d: int)
    requires
        0 <= n <= d,
        0 < d,
    ensures
        a >= 0 ==> 0 <= tdiv(a * n, d) <= a,
        a < 0 ==> a <= tdiv(a * n, d) <= 0,
{
    if a >= 0 {
        assert(0 <= a * n <= d * a) by (nonlinear_arith)
            requires
                0 <= n <= d && 0 <= a,
        ;
        lemma_div_pos_is_pos(a * n, d);
        lemma_div_is_ordered(a * n, d * a, d);
        lemma_div_multiples_vanish(a, d);
    } else {
        let m = -a;
        assert(0 <= m * n <= m * d) by (nonlinear_arith)
            requires
                0 <= n <= d && 0 < m,
        ;
        assert(m * n == -(a * n) && m * d == d * m) by (nonlinear_arith)
            requires
                m == -a,
        ;
        lemma_div_pos_is_pos(m * n, d);
        lemma_div_is_ordered(m * n, d * m, d);
        lemma_div_multiples_vanish(m, d);
        if a * n == 0 {
            lemma_div_pos_is_pos(0, d);
            lemma_div_is_ordered(0, d * m, d);
        }
    }
}

/// The same bound for a signed fraction `s` with `|s| <= d`.
pub proof fn lemma_tdiv_frac_abs(a: int, s: int, d: int)
    requires
        0 < d,
        -d <= s <= d,
    ensures
        a >= 0 ==> -a <= tdiv(a * s, d) <= a,
        a < 0 ==> a <= tdiv(a * s, d) <= -a,
{
    if s >= 0 {
        lemma_tdiv_frac_bound(a, s, d);
    } else {
        assert(a * s == (-a) * (-s)) by (nonlinear_arith);
        lemma_tdiv_frac_bound(-a, -s, d);
    }
}

/// `l` is the integer square root of `n`.
pub open spec fn is_sqrt(l: int, n: int) -> bool {
    0 <= l && l * l <= n && n < (l + 1) * (l + 1)
}

/// The integer square root (the floor of the real square root).
pub open spec fn sqrt_val(n: int) -> int {
    choose|l: int| #[trigger] is_sqrt(l, n)
}

proof fn lemma_sqrt_exists(n: nat)
    ensures
        exists|l: int| #[trigger] is_sqrt(l, n as int),
    decreases n,
{
    if n == 0 {
        assert(is_sqrt(0, 0));
    } else {
        lemma_sqrt_exists((n - 1) as nat);
        let l = choose|l: int| #[trigger] is_sqrt(l, n - 1);
        if (l + 1) * (l + 1) == n {
            assert((l + 1 + 1) * (l + 1 + 1) > n) by (nonlinear_arith)
                requires
                    l >= 0 && (l + 1) * (l + 1) == n,
            ;
            assert(is_sqrt(l + 1, n as int));
        } else {
            assert(is_sqrt(l, n as int));
        }
    }
}

/// Integer square roots are unique.
pub proof fn lemma_sqrt_unique(a: int, b: int, n: int)
    requires
        is_sqrt(a, n),
        is_sqrt(b, n),
    ensures
        a == b,
{
    assert(a == b) by (nonlinear_arith)
        requires
            is_sqrt(a, n) && is_sqrt(b, n),
    ;
}

/// `sqrt_val` really is the integer square root of any non-negative
/// argument.
pub proof fn lemma_sqrt_val(n: int)
    requires
        0 <= n,
    ensures
        is_sqrt(sqrt_val(n), n),
{
    lemma_sqrt_exists(n as nat);
}

/// The integer square root of a `u64`, by bisection.
pub fn isqrt(n: u64) -> (r: u64)
    ensures
        r as int == sqrt_val(n as int),
        is_sqrt(r as int, n as int),
{
    let mut lo: u64 = 0;
    let mut hi: u64 = 0x1_0000_0000;
    proof {
        assert((hi as int) * (hi as int) > n as int) by (nonlinear_arith)
            requires
                hi == 0x1_0000_0000u64 && n <= u64::MAX,
        ;
    }
    while hi - lo > 1
        invariant
            0 <= lo < hi <= 0x1_0000_0000,
            (lo as int) * (lo as int) <= n as int,
            (hi as int) * (hi as int) > n as int,
        decreases hi - lo,
    {
        let mid: u64 = lo + (hi - lo) / 2;
        proof {
            assert((mid as int) * (mid as int) <= 0x1_0000_0000_0000_0000)
                by (nonlinear_arith)
                requires
                    0 <= mid as int <= 0x1_0000_0000,
            ;
        }
        if (mid as u128) * (mid as u128) <= n as u128 {
            lo = mid;
        } else {
            hi = mid;
        }
    }
    proof {
        assert(is_sqrt(lo as int, n as int));
        lemma_sqrt_val(n as int);
        lemma_sqrt_unique(lo as int, sqrt_val(n as int), n as int);
    }
    lo
}

} // verus!
