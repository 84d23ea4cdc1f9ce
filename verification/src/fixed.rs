//! Fixed-point arithmetic: the numeric model of the renderer.
//!
//! A quantity is an `i64` holding the real value times [`SCALE`]. Products
//! and quotients round toward negative infinity to the nearest
//! representable value; the spec functions [`fmul_v`] and [`fdiv_v`] state
//! the results exactly over the mathematical integers.

use vstd::prelude::*;

verus! {

use vstd::arithmetic::div_mod::lemma_div_is_ordered;
use vstd::arithmetic::div_mod::lemma_div_pos_is_pos;
use vstd::arithmetic::div_mod::lemma_div_nonincreasing;
use vstd::arithmetic::div_mod::lemma_fundamental_div_mod;
use vstd::arithmetic::div_mod::lemma_fundamental_div_mod_converse;
use vstd::arithmetic::div_mod::lemma_div_by_multiple;
use vstd::arithmetic::div_mod::lemma_div_is_ordered_by_denominator;

/// Number of integer units that stand for the real value one.
pub const SCALE: i64 = 65536;

/// Half of [`SCALE`]: the real value one half.
pub const HALF_SCALE: i64 = 32768;

/// Upper bound of the domain of [`isqrt128`].
pub const SQRT_DOMAIN: u128 = 0x4000_0000_0000_0000_0000_0000_0000_0000;

/// Whether a mathematical integer is representable as an `i64`.
pub open spec fn fits_i64(x: int) -> bool {
    i64::MIN <= x <= i64::MAX
}

/// Whether `x` lies within magnitude `m`.
pub open spec fn within(x: int, m: int) -> bool {
    -m <= x <= m
}

/// The fixed-point product: real product of the quantities `a` and `b`,
/// rounded toward negative infinity.
pub open spec fn fmul_v(a: int, b: int) -> int {
    (a * b) / (SCALE as int)
}

/// The fixed-point quotient: real quotient of the quantities `a` and `b`,
/// rounded toward negative infinity. Meaningful for `b > 0`.
pub open spec fn fdiv_v(a: int, b: int) -> int {
    (a * (SCALE as int)) / b
}

/// Rounding toward negative infinity moves a quotient at most one unit
/// past the magnitude of the exact quotient.
pub proof fn lemma_div_within(p: int, s: int, m: int)
    requires
        s > 0,
        0 <= m,
        within(p, m),
    ensures
        within(p / s, m / s + 1),
{
    lemma_div_is_ordered(p, m, s);
    lemma_div_is_ordered(-m, p, s);
    lemma_div_pos_is_pos(m, s);
    let q = m / s;
    let r = m % s;
    lemma_fundamental_div_mod(m, s);
    if r == 0 {
        assert(-m == (-q) * s + 0) by (nonlinear_arith)
            requires
                m == s * q + r,
                r == 0,
        ;
        lemma_fundamental_div_mod_converse(-m, s, -q, 0);
    } else {
        assert(-m == (-q - 1) * s + (s - r)) by (nonlinear_arith)
            requires
                m == s * q + r,
        ;
        lemma_fundamental_div_mod_converse(-m, s, -q - 1, s - r);
    }
}

/// A quotient by a positive divisor has magnitude at most the dividend's.
pub proof fn lemma_div_within_dividend(p: int, s: int)
    requires
        s > 0,
    ensures
        within(p / s, if p >= 0 { p } else { -p }),
{
    lemma_fundamental_div_mod(p, s);
    if p >= 0 {
        lemma_div_pos_is_pos(p, s);
        lemma_div_nonincreasing(p, s);
    } else {
        assert(p <= p / s && p / s <= -p) by (nonlinear_arith)
            requires
                p < 0,
                s > 0,
                p == s * (p / s) + p % s,
                0 <= p % s < s,
        ;
    }
}

/// Bound on a fixed-point product: if the factors lie within `ma` and
/// `mb` and the product of those caps descales to at most `mo`, the
/// fixed-point product lies within `mo` plus one unit of rounding.
pub proof fn lemma_fmul_within(a: int, b: int, ma: int, mb: int, mo: int)
    requires
        within(a, ma),
        within(b, mb),
        0 <= ma,
        0 <= mb,
        ma * mb <= mo * (SCALE as int),
    ensures
        within(fmul_v(a, b), mo + 1),
{
    assert(within(a * b, ma * mb) && 0 <= ma * mb) by (nonlinear_arith)
        requires
            within(a, ma),
            within(b, mb),
            0 <= ma,
            0 <= mb,
    ;
    lemma_div_within(a * b, SCALE as int, mo * (SCALE as int));
    lemma_div_by_multiple(mo, SCALE as int);
}

/// Bound on a fixed-point quotient from a bound on its dividend.
pub proof fn lemma_fdiv_within(a: int, b: int, ma: int)
    requires
        within(a, ma),
        0 <= ma,
        b > 0,
    ensures
        within(fdiv_v(a, b), ma * (SCALE as int)),
{
    assert(within(a * (SCALE as int), ma * (SCALE as int))) by (nonlinear_arith)
        requires
            within(a, ma),
            0 <= ma,
    ;
    let p = a * (SCALE as int);
    lemma_div_within_dividend(p, b);
    assert(within(p / b, ma * (SCALE as int)));
}

/// Bound on a fixed-point quotient by a divisor of at least one real
/// unit: the result's magnitude is at most the dividend's, plus one.
pub proof fn lemma_fdiv_unit_within(a: int, b: int, m: int)
    requires
        within(a, m),
        0 <= m,
        b >= SCALE as int,
    ensures
        within(fdiv_v(a, b), m + 1),
{
    lemma_div_within(a * (SCALE as int), b, m * (SCALE as int));
    lemma_div_is_ordered_by_denominator(m * (SCALE as int), SCALE as int, b);
    lemma_div_by_multiple(m, SCALE as int);
}

/// Fixed-point multiplication. The exact product over the integers is
/// computed in 128 bits, then descaled with rounding toward negative
/// infinity.
pub fn fmul(a: i64, b: i64) -> (r: i64)
    requires
        fits_i64(fmul_v(a as int, b as int)),
    ensures
        r as int == fmul_v(a as int, b as int),
{
    let p: i128 = (a as i128) * (b as i128);
    proof {
        lemma_div_within(p as int, SCALE as int, if p >= 0 { p as int } else { -(p as int) });
        lemma_div_within_dividend(p as int, SCALE as int);
    }
    let q: i128 = p.checked_div_euclid(SCALE as i128).unwrap();
    q as i64
}

/// Fixed-point division by a positive quantity. The dividend is rescaled
/// in 128 bits, then divided with rounding toward negative infinity.
pub fn fdiv(a: i64, b: i64) -> (r: i64)
    requires
        b > 0,
        fits_i64(fdiv_v(a as int, b as int)),
    ensures
        r as int == fdiv_v(a as int, b as int),
{
    let p: i128 = (a as i128) * (SCALE as i128);
    proof {
        lemma_div_within_dividend(p as int, b as int);
    }
    let q: i128 = p.checked_div_euclid(b as i128).unwrap();
    q as i64
}

/// Whether `r` is the integer square root of `n`.
pub open spec fn is_isqrt(n: int, r: int) -> bool {
    &&& 0 <= r
    &&& r * r <= n
    &&& n < (r + 1) * (r + 1)
}

/// The integer square root, as a recursive specification.
pub open spec fn sqrt_v(n: int) -> int
    decreases n,
{
    if n <= 0 {
        0
    } else {
        let r = 2 * sqrt_v(n / 4);
        if (r + 1) * (r + 1) <= n {
            r + 1
        } else {
            r
        }
    }
}

/// [`sqrt_v`] indeed yields the integer square root.
pub proof fn lemma_sqrt_v_is_isqrt(n: int)
    requires
        0 <= n,
    ensures
        is_isqrt(n, sqrt_v(n)),
    decreases n,
{
    if n > 0 {
        lemma_div_pos_is_pos(n, 4);
        lemma_div_nonincreasing(n, 4);
        assert(n / 4 < n) by {
            lemma_fundamental_div_mod(n, 4);
        }
        lemma_sqrt_v_is_isqrt(n / 4);
        let s = sqrt_v(n / 4);
        let r = 2 * s;
        lemma_fundamental_div_mod(n, 4);
        assert(r * r <= n && n < (r + 2) * (r + 2)) by (nonlinear_arith)
            requires
                r == 2 * s,
                0 <= s,
                s * s <= n / 4,
                n / 4 < (s + 1) * (s + 1),
                n == 4 * (n / 4) + n % 4,
                0 <= n % 4 < 4,
        ;
        if (r + 1) * (r + 1) <= n {
            assert(is_isqrt(n, r + 1));
        } else {
            assert(is_isqrt(n, r));
        }
    }
}

/// There is one integer square root.
pub proof fn lemma_isqrt_unique(n: int, r1: int, r2: int)
    requires
        is_isqrt(n, r1),
        is_isqrt(n, r2),
    ensures
        r1 == r2,
{
    assert(r1 == r2) by (nonlinear_arith)
        requires
            0 <= r1,
            0 <= r2,
            r1 * r1 <= n,
            n < (r1 + 1) * (r1 + 1),
            r2 * r2 <= n,
            n < (r2 + 1) * (r2 + 1),
    ;
}

/// The integer square root, by binary search over the answer.
pub fn isqrt128(n: u128) -> (r: u64)
    requires
        n < SQRT_DOMAIN,
    ensures
        r as int == sqrt_v(n as int),
        is_isqrt(n as int, r as int),
{
    proof {
        lemma_sqrt_v_is_isqrt(n as int);
    }
    if n == 0 {
        proof {
            lemma_isqrt_unique(n as int, 0, sqrt_v(n as int));
        }
        return 0;
    }
    let mut lo: u64 = 0;
    let mut hi: u64 = 0x8000_0000_0000_0000;
    while lo + 1 < hi
        invariant
            lo < hi,
            hi <= 0x8000_0000_0000_0000,
            (lo as int) * (lo as int) <= n as int,
            (n as int) < (hi as int) * (hi as int),
        decreases hi - lo,
    {
        let mid: u64 = lo + (hi - lo) / 2;
        proof {
            assert((mid as int) * (mid as int) < 0x4000_0000_0000_0000_0000_0000_0000_0000)
                by (nonlinear_arith)
                requires
                    mid < 0x8000_0000_0000_0000u64,
            ;
        }
        let sq: u128 = (mid as u128) * (mid as u128);
        if sq <= n {
            lo = mid;
        } else {
            hi = mid;
        }
    }
    proof {
        lemma_isqrt_unique(n as int, lo as int, sqrt_v(n as int));
    }
    lo
}

/// The square root of a nonnegative fixed-point quantity: the integer
/// square root of the rescaled value, exact at the representation's
/// resolution.
pub fn sqrt_fx(x: i64) -> (r: i64)
    requires
        x >= 0,
    ensures
        r as int == sqrt_v(x * (SCALE as int)),
        is_isqrt(x * (SCALE as int), r as int),
        0 <= r,
{
    let n: u128 = (x as u128) * 65536;
    proof {
        assert(n as int == (x as int) * 65536);
    }
    let r = isqrt128(n);
    proof {
        assert((r as int) * (r as int) <= n as int);
        assert(r as int <= 0x1_0000_0000_0000u64 as int) by (nonlinear_arith)
            requires
                0 <= r as int,
                (r as int) * (r as int) <= n as int,
                n as int <= 0x8000_0000_0000_0000_0000_0000u128 as int,
        ;
    }
    r as i64
}

/// Clamps `x` into the closed range from `lo` to `hi`.
pub fn clamp(x: i64, lo: i64, hi: i64) -> (r: i64)
    requires
        lo <= hi,
    ensures
        r as int == clamp_v(x as int, lo as int, hi as int),
{
    if x < lo {
        lo
    } else if x > hi {
        hi
    } else {
        x
    }
}

/// The clamp of `x` into the closed range from `lo` to `hi`.
pub open spec fn clamp_v(x: int, lo: int, hi: int) -> int {
    if x < lo {
        lo
    } else if x > hi {
        hi
    } else {
        x
    }
}

} // verus!
