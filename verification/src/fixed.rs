//! Fixed-point scalar arithmetic: Q47.16 values held in `i64`.
//!
//! A fixed-point value `a` stands for the real number `a / FP_ONE`.
//! Division truncates toward zero, as the spec function `tdiv` states,
//! and square roots round down, as `sqrt_floor` states.

use vstd::prelude::*;

verus! {

/// The fixed-point unit: the representation of 1.0.
pub const FP_ONE: i64 = 65536;

/// Truncating division (round toward zero) of `a` by a positive divisor `d`.
pub open spec fn tdiv(a: int, d: int) -> int {
    if a >= 0 {
        a / d
    } else {
        -((-a) / d)
    }
}

/// Division by the fixed-point unit: rescales a product of two
/// fixed-point values back to fixed point.
pub open spec fn fdiv(a: int) -> int {
    tdiv(a, FP_ONE as int)
}

/// `r` is the integer square root (rounded down) of `n`.
pub open spec fn is_sqrt(n: int, r: int) -> bool {
    0 <= r && r * r <= n && n < (r + 1) * (r + 1)
}

/// The integer square root, rounded down; meaningful for `n >= 0`.
pub open spec fn sqrt_floor(n: int) -> int {
    choose|r: int| is_sqrt(n, r)
}

/// The integer square root is unique: any witness is the `sqrt_floor`.
pub proof fn lemma_sqrt_floor(n: int, r: int)
    requires
        is_sqrt(n, r),
    ensures
        sqrt_floor(n) == r,
{
    assert(exists|c: int| is_sqrt(n, c));
    let c = choose|c: int| is_sqrt(n, c);
    assert(c == r) by (nonlinear_arith)
        requires
            is_sqrt(n, c),
            is_sqrt(n, r),
    ;
}

/// Every nonnegative integer has an integer square root, so the
/// `sqrt_floor` of such a number satisfies its defining bounds.
pub proof fn lemma_sqrt_exists(n: int)
    requires
        0 <= n,
    ensures
        is_sqrt(n, sqrt_floor(n)),
    decreases n,
{
    if n == 0 {
        assert(is_sqrt(0, 0)) by (nonlinear_arith);
        lemma_sqrt_floor(0, 0);
    } else {
        lemma_sqrt_exists(n - 1);
        let r = sqrt_floor(n - 1);
        assert(is_sqrt(n - 1, r));
        if n == (r + 1) * (r + 1) {
            assert(is_sqrt(n, r + 1)) by (nonlinear_arith)
                requires
                    n == (r + 1) * (r + 1),
                    r >= 0,
            ;
            lemma_sqrt_floor(n, r + 1);
        } else {
            assert(is_sqrt(n, r)) by (nonlinear_arith)
                requires
                    is_sqrt(n - 1, r),
                    n != (r + 1) * (r + 1),
                    n - 1 < (r + 1) * (r + 1),
            ;
            lemma_sqrt_floor(n, r);
        }
    }
}

/// The square root of a perfect square is exact.
pub proof fn lemma_sqrt_square(a: int)
    requires
        0 <= a,
    ensures
        sqrt_floor(a * a) == a,
{
    assert(0 <= a && a * a <= a * a && a * a < (a + 1) * (a + 1)) by (nonlinear_arith)
        requires
            0 <= a,
    ;
    assert(is_sqrt(a * a, a));
    lemma_sqrt_floor(a * a, a);
}

/// A bound on a truncating quotient from a bound on its numerator:
/// if `|num| <= d * b` then `|tdiv(num, d)| <= b`.
pub proof fn lemma_tdiv_bound(num: int, d: int, b: int)
    requires
        0 < d,
        0 <= b,
        -(d * b) <= num <= d * b,
    ensures
        -b <= tdiv(num, d) <= b,
{
    assert(-b <= tdiv(num, d) <= b) by (nonlinear_arith)
        requires
            0 < d,
            0 <= b,
            -(d * b) <= num <= d * b,
    ;
}

/// A truncating quotient is no larger in magnitude than its numerator.
pub proof fn lemma_tdiv_abs_le(num: int, d: int)
    requires
        1 <= d,
    ensures
        -num <= tdiv(num, d) <= num || num < 0 && num <= tdiv(num, d) <= -num,
{
    assert(-num <= tdiv(num, d) <= num || num < 0 && num <= tdiv(num, d) <= -num)
        by (nonlinear_arith)
        requires
            1 <= d,
    ;
}

/// The truncating quotient is monotone in the numerator.
pub proof fn lemma_tdiv_monotone(a: int, b: int, d: int)
    requires
        0 < d,
        a <= b,
    ensures
        tdiv(a, d) <= tdiv(b, d),
{
    assert(tdiv(a, d) <= tdiv(b, d)) by (nonlinear_arith)
        requires
            0 < d,
            a <= b,
    ;
}

/// The product of two bounded factors is bounded.
pub proof fn lemma_mul_bound(a: int, b: int, ba: int, bb: int)
    requires
        -ba <= a <= ba,
        -bb <= b <= bb,
    ensures
        -(ba * bb) <= a * b <= ba * bb,
{
    assert(-(ba * bb) <= a * b <= ba * bb) by (nonlinear_arith)
        requires
            -ba <= a <= ba,
            -bb <= b <= bb,
    ;
}

/// Truncating division of an `i64` by a positive divisor.
pub fn div_trunc(a: i64, d: i64) -> (r: i64)
    requires
        d > 0,
        a > i64::MIN,
    ensures
        r == tdiv(a as int, d as int),
{
    if a >= 0 {
        let q: u64 = (a as u64) / (d as u64);
        assert(q <= a as u64) by (nonlinear_arith)
            requires
                q == (a as u64) / (d as u64),
                (d as u64) >= 1,
        ;
        q as i64
    } else {
        let n: u64 = (-a) as u64;
        let q: u64 = n / (d as u64);
        assert(q <= n) by (nonlinear_arith)
            requires
                q == n / (d as u64),
                (d as u64) >= 1,
        ;
        -(q as i64)
    }
}

/// Truncating division of an `i128` by a positive divisor.
pub fn div_trunc_wide(a: i128, d: i128) -> (r: i128)
    requires
        d > 0,
        a > i128::MIN,
    ensures
        r == tdiv(a as int, d as int),
{
    if a >= 0 {
        let q: u128 = (a as u128) / (d as u128);
        assert(q <= a as u128) by (nonlinear_arith)
            requires
                q == (a as u128) / (d as u128),
                (d as u128) >= 1,
        ;
        q as i128
    } else {
        let n: u128 = (-a) as u128;
        let q: u128 = n / (d as u128);
        assert(q <= n) by (nonlinear_arith)
            requires
                q == n / (d as u128),
                (d as u128) >= 1,
        ;
        -(q as i128)
    }
}

/// Fixed-point multiplication: the product rescaled by the unit.
pub fn fmul(a: i64, b: i64) -> (r: i64)
    requires
        -0x7fff_ffff_ffff_ffff <= a * b <= 0x7fff_ffff_ffff_ffff,
    ensures
        r == fdiv(a * b),
{
    div_trunc(a * b, FP_ONE)
}

/// The integer square root of a `u64`, rounded down.
pub fn isqrt_u64(n: u64) -> (r: u64)
    ensures
        is_sqrt(n as int, r as int),
        r == sqrt_floor(n as int),
{
    let mut lo: u64 = 0;
    let mut hi: u64 = 0x1_0000_0000;
    while hi - lo > 1
        invariant
            lo < hi <= 0x1_0000_0000,
            (lo as int) * (lo as int) <= n as int,
            (n as int) < (hi as int) * (hi as int),
        decreases hi - lo,
    {
        let mid: u64 = lo + (hi - lo) / 2;
        assert(mid * mid <= 0xffff_ffff_ffff_ffff) by (nonlinear_arith)
            requires
                mid <= 0xffff_ffff,
        ;
        if mid * mid <= n {
            lo = mid;
        } else {
            hi = mid;
        }
    }
    proof {
        lemma_sqrt_floor(n as int, lo as int);
    }
    lo
}

/// The integer square root of a `u128`, rounded down.
pub fn isqrt_u128(n: u128) -> (r: u128)
    ensures
        is_sqrt(n as int, r as int),
        r == sqrt_floor(n as int),
{
    let mut lo: u128 = 0;
    let mut hi: u128 = 0x1_0000_0000_0000_0000;
    while hi - lo > 1
        invariant
            lo < hi <= 0x1_0000_0000_0000_0000,
            (lo as int) * (lo as int) <= n as int,
            (n as int) < (hi as int) * (hi as int),
        decreases hi - lo,
    {
        let mid: u128 = lo + (hi - lo) / 2;
        assert(mid * mid <= 0xffff_ffff_ffff_ffff_ffff_ffff_ffff_ffff) by (nonlinear_arith)
            requires
                mid <= 0xffff_ffff_ffff_ffff,
        ;
        if mid * mid <= n {
            lo = mid;
        } else {
            hi = mid;
        }
    }
    proof {
        lemma_sqrt_floor(n as int, lo as int);
    }
    lo
}

/// Relies on `rand::random`: a uniformly distributed `u64` from the
/// thread-local generator. Nothing is promised of the value.
#[verifier::external_body]
fn random_u64() -> u64 {
    rand::random::<u64>()
}

/// A pseudorandom fixed-point value in the half-open range `[lo, hi)`.
pub fn rand_in(lo: i64, hi: i64) -> (r: i64)
    requires
        lo < hi,
        hi - lo <= i64::MAX,
    ensures
        lo <= r < hi,
{
    let span: u64 = (hi - lo) as u64;
    let x: u64 = random_u64() % span;
    lo + (x as i64)
}

} // verus!
