//! Fixed-point scalars.
//!
//! A scalar is an `i64` counting raw units of `1/65536`; `SCALE` raw units
//! stand for the real value one.  Multiplication and division rescale their
//! exact integer result by `SCALE` and truncate toward zero; the square root
//! truncates toward zero as well.  Each executable operation is mirrored by a
//! spec function over `int`, so callers reason about exact integer values.

use vstd::prelude::*;
use vstd::arithmetic::div_mod::{lemma_div_is_ordered, lemma_div_nonincreasing, lemma_div_by_multiple, lemma_div_pos_is_pos, lemma_div_of0};
use vstd::arithmetic::mul::{lemma_mul_upper_bound, lemma_mul_nonnegative, lemma_mul_inequality};

verus! {

/// Raw units per real unit: scalars count 1/65536ths.
pub const SCALE: i64 = 65536;

/// Raw value of one half.
pub const HALF: i64 = 32768;

/// Absolute value of a mathematical integer.
pub open spec fn mag(x: int) -> int {
    if x < 0 {
        -x
    } else {
        x
    }
}

/// Raw values admitted by the arithmetic: comfortably inside `i64`, so that
/// a sum of two admitted values never overflows.
pub open spec fn fits(x: int) -> bool {
    -0x4000_0000_0000_0000 < x < 0x4000_0000_0000_0000
}

/// Fixed-point product: `a * b / SCALE`, truncated toward zero.
pub open spec fn fxm(a: int, b: int) -> int {
    if (a < 0) == (b < 0) {
        (mag(a) * mag(b)) / 65536
    } else {
        -((mag(a) * mag(b)) / 65536)
    }
}

/// Fixed-point quotient: `a * SCALE / b`, truncated toward zero.
/// Meaningful only for `b != 0`.
pub open spec fn fxd(a: int, b: int) -> int {
    if (a < 0) == (b < 0) {
        (mag(a) * 65536) / mag(b)
    } else {
        -((mag(a) * 65536) / mag(b))
    }
}

/// `r` is the integer square root of `n`.
pub open spec fn is_sqrt(n: int, r: int) -> bool {
    0 <= r && r * r <= n && n < (r + 1) * (r + 1)
}

/// The integer square root of `n` (for `n >= 0`).
pub open spec fn isq(n: int) -> int {
    choose|r: int| is_sqrt(n, r)
}

/// Fixed-point square root of a raw value: `isq(a * SCALE)`, so that the
/// result is again a raw value.
pub open spec fn fxsqrt(a: int) -> int {
    isq(a * 65536)
}

/// Every nonnegative integer has an integer square root.
pub proof fn lemma_sqrt_exists(n: int)
    requires
        0 <= n,
    ensures
        exists|r: int| is_sqrt(n, r),
        is_sqrt(n, isq(n)),
    decreases n,
{
    if n == 0 {
        assert(is_sqrt(0, 0));
    } else {
        let m = n - 1;
        lemma_sqrt_exists(m);
        let r = choose|r: int| is_sqrt(m, r);
        if (r + 1) * (r + 1) <= n {
            assert(is_sqrt(n, r + 1)) by (nonlinear_arith)
                requires
                    is_sqrt(n - 1, r),
                    (r + 1) * (r + 1) <= n,
            ;
        } else {
            assert(is_sqrt(n, r));
        }
    }
}

/// The integer square root is unique, so any witness pins `isq` down.
pub proof fn lemma_sqrt_unique(n: int, r: int)
    requires
        is_sqrt(n, r),
    ensures
        isq(n) == r,
{
    assert(is_sqrt(n, isq(n))) by {
        assert(exists|x: int| is_sqrt(n, x));
    }
    let r2 = isq(n);
    assert(r == r2) by (nonlinear_arith)
        requires
            is_sqrt(n, r),
            is_sqrt(n, r2),
    ;
}

/// A truncated square root is bounded by any integer whose square bounds
/// the radicand.
pub proof fn lemma_isq_le(d: int, l: int, c: int)
    requires
        0 <= d,
        l == isq(d * 65536),
        0 <= c,
        d * 65536 <= c * c,
    ensures
        0 <= l <= c,
{
    lemma_sqrt_exists(d * 65536);
    assert(is_sqrt(d * 65536, l));
    if l > c {
        assert(l * l > c * c) by (nonlinear_arith)
            requires
                l > c >= 0,
        ;
    }
}

/// The magnitude of a fixed-point product, bounded by the product of the
/// operands' bounds.
pub proof fn lemma_fxm_bound(a: int, b: int, ba: int, bb: int)
    requires
        mag(a) <= ba,
        mag(b) <= bb,
    ensures
        mag(fxm(a, b)) == (mag(a) * mag(b)) / 65536,
        0 <= mag(a) * mag(b) <= ba * bb,
        mag(fxm(a, b)) <= (ba * bb) / 65536,
{
    lemma_mul_nonnegative(mag(a), mag(b));
    lemma_mul_upper_bound(mag(a), ba, mag(b), bb);
    lemma_div_pos_is_pos(mag(a) * mag(b), 65536);
    lemma_div_is_ordered(mag(a) * mag(b), ba * bb, 65536);
}

/// The magnitude of a fixed-point quotient with a denominator of magnitude
/// at least one.
pub proof fn lemma_fxd_bound(a: int, b: int, ba: int)
    requires
        mag(a) <= ba,
        1 <= mag(b),
    ensures
        mag(fxd(a, b)) == (mag(a) * 65536) / mag(b),
        mag(fxd(a, b)) <= ba * 65536,
{
    lemma_mul_nonnegative(mag(a), 65536);
    lemma_div_pos_is_pos(mag(a) * 65536, mag(b));
    lemma_div_nonincreasing(mag(a) * 65536, mag(b));
    lemma_mul_inequality(mag(a), ba, 65536);
}

/// Multiplying by the raw unit is the identity.
pub proof fn lemma_fxm_unit(a: int)
    ensures
        fxm(a, 65536) == a,
        fxm(65536, a) == a,
{
    lemma_div_by_multiple(mag(a), 65536);
    assert(mag(a) * 65536 == 65536 * mag(a)) by (nonlinear_arith);
}

/// Multiplying by the negated raw unit negates.
pub proof fn lemma_fxm_neg_unit(a: int)
    ensures
        fxm(a, -65536) == -a,
        fxm(-65536, a) == -a,
{
    lemma_div_by_multiple(mag(a), 65536);
    assert(mag(a) * 65536 == 65536 * mag(a)) by (nonlinear_arith);
}

/// Zero is absorbing.
pub proof fn lemma_fxm_zero(a: int)
    ensures
        fxm(a, 0) == 0,
        fxm(0, a) == 0,
{
    assert(mag(a) * 0 == 0) by (nonlinear_arith);
    assert(0 * mag(a) == 0) by (nonlinear_arith);
    lemma_div_of0(65536);
}

/// A whole multiple of the raw unit multiplies exactly.
pub proof fn lemma_fxm_whole(k: int, d: int)
    ensures
        fxm(k * 65536, d) == k * d,
{
    let a = k * 65536;
    assert(mag(a) == mag(k) * 65536);
    assert(mag(a) * mag(d) == (mag(k) * mag(d)) * 65536) by (nonlinear_arith)
        requires
            mag(a) == mag(k) * 65536,
    ;
    lemma_mul_nonnegative(mag(k), mag(d));
    lemma_div_by_multiple(mag(k) * mag(d), 65536);
    if (a < 0) == (d < 0) {
        assert(k * d == mag(k) * mag(d)) by (nonlinear_arith)
            requires
                (k < 0) == (d < 0),
        ;
    } else {
        assert(k * d == -(mag(k) * mag(d))) by (nonlinear_arith)
            requires
                (k < 0) != (d < 0),
        ;
    }
}

/// A square is never negative.
pub proof fn lemma_fxm_sq_nonneg(a: int)
    ensures
        0 <= fxm(a, a),
{
    lemma_mul_nonnegative(mag(a), mag(a));
    lemma_div_pos_is_pos(mag(a) * mag(a), 65536);
}

/// Fixed-point multiplication, exact up to the truncation that `fxm` states.
pub fn fx_mul(a: i64, b: i64) -> (r: i64)
    requires
        fits(a as int),
        fits(b as int),
        fits(fxm(a as int, b as int)),
    ensures
        r as int == fxm(a as int, b as int),
{
    let neg: bool = (a < 0) != (b < 0);
    let ma: u64 = if a < 0 { (-a) as u64 } else { a as u64 };
    let mb: u64 = if b < 0 { (-b) as u64 } else { b as u64 };
    proof {
        assert(ma as int == mag(a as int));
        assert(mb as int == mag(b as int));
        lemma_fxm_bound(a as int, b as int, mag(a as int), mag(b as int));
        assert((ma as int) * (mb as int) <= 0x4000_0000_0000_0000 * 0x4000_0000_0000_0000) by (nonlinear_arith)
            requires
                0 <= ma as int <= 0x4000_0000_0000_0000,
                0 <= mb as int <= 0x4000_0000_0000_0000,
        ;
    }
    let p: u128 = (ma as u128) * (mb as u128);
    let q: u128 = p / 65536;
    proof {
        assert(q as int == (mag(a as int) * mag(b as int)) / 65536);
        assert(q < 0x4000_0000_0000_0000);
    }
    if neg {
        -(q as i64)
    } else {
        q as i64
    }
}

/// Fixed-point division, exact up to the truncation that `fxd` states.
pub fn fx_div(a: i64, b: i64) -> (r: i64)
    requires
        b != 0,
        fits(a as int),
        fits(b as int),
        fits(fxd(a as int, b as int)),
    ensures
        r as int == fxd(a as int, b as int),
{
    let neg: bool = (a < 0) != (b < 0);
    let ma: u64 = if a < 0 { (-a) as u64 } else { a as u64 };
    let mb: u64 = if b < 0 { (-b) as u64 } else { b as u64 };
    proof {
        assert(ma as int == mag(a as int));
        assert(mb as int == mag(b as int));
        lemma_fxd_bound(a as int, b as int, mag(a as int));
    }
    let p: u128 = (ma as u128) * 65536;
    let q: u128 = p / (mb as u128);
    proof {
        assert(q as int == (mag(a as int) * 65536) / mag(b as int));
        assert(q < 0x4000_0000_0000_0000);
    }
    if neg {
        -(q as i64)
    } else {
        q as i64
    }
}

/// Fixed-point square root: the integer square root of `a * SCALE`, so a raw
/// value whose square is the largest one not above `a`.
pub fn fx_sqrt(a: i64) -> (r: i64)
    requires
        0 <= a,
    ensures
        r as int == fxsqrt(a as int),
        is_sqrt(a as int * 65536, r as int),
        0 <= r < 0x100_0000_0000,
{
    let n: u128 = (a as u128) * 65536;
    let mut lo: u64 = 0;
    let mut hi: u64 = 0x100_0000_0000;
    proof {
        assert((0x100_0000_0000 as int) * (0x100_0000_0000 as int) > n as int);
    }
    while lo + 1 < hi
        invariant
            (lo as int) * (lo as int) <= n as int,
            (n as int) < (hi as int) * (hi as int),
            lo < hi,
            hi <= 0x100_0000_0000,
        decreases hi - lo,
    {
        let mid: u64 = lo + (hi - lo) / 2;
        proof {
            assert((mid as int) * (mid as int) <= 0x100_0000_0000 * 0x100_0000_0000) by (nonlinear_arith)
                requires
                    0 <= mid as int <= 0x100_0000_0000,
            ;
        }
        let sq: u128 = (mid as u128) * (mid as u128);
        if sq <= n {
            lo = mid;
        } else {
            hi = mid;
        }
    }
    proof {
        assert(hi == lo + 1);
        assert(is_sqrt(n as int, lo as int));
        lemma_sqrt_unique(n as int, lo as int);
        assert(n as int == a as int * 65536);
    }
    lo as i64
}

} // verus!
