//! Checked integer arithmetic.
//!
//! Every amount is an `i128`, already scaled by its token's own decimals. No
//! operation wraps or saturates: whatever does not fit, and every division by
//! zero, comes back as [`PoolError::ArithmeticOverflow`].

use vstd::prelude::*;

use crate::errors::PoolError;

verus! {

/// Numerator of the swap fee, out of [`FEE_DENOMINATOR`]: 30 / 10_000 = 0.30%.
pub const FEE_NUMERATOR: i128 = 30;

/// Denominator of the swap fee.
pub const FEE_DENOMINATOR: i128 = 10_000;

/// Shares minted on the very first deposit and never credited to anyone. They
/// keep the supply away from zero for good, so that nobody can drive the share
/// price to an extreme by withdrawing everything.
pub const MINIMUM_LIQUIDITY: i128 = 1_000;

/// Whether `x` can be held in an `i128`.
pub open spec fn fits(x: int) -> bool {
    i128::MIN <= x <= i128::MAX
}

/// The quotient `a / b`, rounded toward zero.
pub open spec fn quotient(a: int, b: int) -> int {
    if a >= 0 && b > 0 {
        a / b
    } else if a >= 0 {
        -(a / -b)
    } else if b > 0 {
        -(-a / b)
    } else {
        -a / -b
    }
}

/// Whether `a * b / c` can be worked out without leaving `i128`.
pub open spec fn mul_div_fits(a: int, b: int, c: int) -> bool {
    fits(a * b) && c != 0 && fits(quotient(a * b, c))
}

/// Whether `root` is the square root of `n`, rounded down.
pub open spec fn is_floor_sqrt(root: int, n: int) -> bool {
    0 <= root && root * root <= n && n < (root + 1) * (root + 1)
}

/// The square root of `n`, rounded down.
pub open spec fn floor_sqrt(n: int) -> int {
    choose|root: int| is_floor_sqrt(root, n)
}

pub fn checked_add(a: i128, b: i128) -> (sum: Result<i128, PoolError>)
    ensures
        match sum {
            Ok(v) => v == a + b,
            Err(e) => e == PoolError::ArithmeticOverflow && !fits(a + b),
        },
{
    match a.checked_add(b) {
        Some(v) => Ok(v),
        None => Err(PoolError::ArithmeticOverflow),
    }
}

pub fn checked_sub(a: i128, b: i128) -> (difference: Result<i128, PoolError>)
    ensures
        match difference {
            Ok(v) => v == a - b,
            Err(e) => e == PoolError::ArithmeticOverflow && !fits(a - b),
        },
{
    match a.checked_sub(b) {
        Some(v) => Ok(v),
        None => Err(PoolError::ArithmeticOverflow),
    }
}

pub fn checked_mul(a: i128, b: i128) -> (product: Result<i128, PoolError>)
    ensures
        match product {
            Ok(v) => v == a * b,
            Err(e) => e == PoolError::ArithmeticOverflow && !fits(a * b),
        },
{
    match a.checked_mul(b) {
        Some(v) => Ok(v),
        None => Err(PoolError::ArithmeticOverflow),
    }
}

pub fn checked_div(a: i128, b: i128) -> (result: Result<i128, PoolError>)
    ensures
        match result {
            Ok(v) => b != 0 && v == quotient(a as int, b as int),
            Err(e) => e == PoolError::ArithmeticOverflow && (b == 0 || !fits(
                quotient(a as int, b as int),
            )),
        },
{
    if b == 0 {
        return Err(PoolError::ArithmeticOverflow);
    }
    match a.checked_div(b) {
        Some(v) => Ok(v),
        None => Err(PoolError::ArithmeticOverflow),
    }
}

/// `a * b / c`, rounded toward zero, with the product checked as well.
pub fn checked_mul_div(a: i128, b: i128, c: i128) -> (result: Result<i128, PoolError>)
    ensures
        match result {
            Ok(v) => mul_div_fits(a as int, b as int, c as int) && v == quotient(a * b, c as int),
            Err(e) => e == PoolError::ArithmeticOverflow && !mul_div_fits(
                a as int,
                b as int,
                c as int,
            ),
        },
{
    match checked_mul(a, b) {
        Ok(product) => checked_div(product, c),
        Err(e) => Err(e),
    }
}

/// No number has two square roots rounded down.
pub proof fn lemma_floor_sqrt_is_unique(r: int, s: int, n: int)
    requires
        is_floor_sqrt(r, n),
        is_floor_sqrt(s, n),
    ensures
        r == s,
{
    if r < s {
        assert((r + 1) * (r + 1) <= s * s) by (nonlinear_arith)
            requires
                0 <= r,
                r + 1 <= s,
        ;
    }
    if s < r {
        assert((s + 1) * (s + 1) <= r * r) by (nonlinear_arith)
            requires
                0 <= s,
                s + 1 <= r,
        ;
    }
}

/// A number that passes for the square root rounded down is the one that
/// [`floor_sqrt`] means.
pub proof fn lemma_floor_sqrt_value(root: int, n: int)
    requires
        is_floor_sqrt(root, n),
    ensures
        floor_sqrt(n) == root,
{
    lemma_floor_sqrt_is_unique(root, floor_sqrt(n), n);
}

/// One step of Newton's method never lands below the square root.
proof fn lemma_newton_step_stays_above(n: int, x: int)
    requires
        n > 0,
        x > 0,
    ensures
        n < ((x + n / x) / 2 + 1) * ((x + n / x) / 2 + 1),
{
    let q = n / x;
    let y = (x + q) / 2;
    assert(n < x * (q + 1)) by (nonlinear_arith)
        requires
            x > 0,
            q == n / x,
    ;
    let u = x + q + 1;
    assert(4 * (x * (q + 1)) <= u * u) by (nonlinear_arith)
        requires
            u == x + (q + 1),
    ;
    assert(q >= 0) by (nonlinear_arith)
        requires
            n > 0,
            x > 0,
            q == n / x,
    ;
    assert(0 <= u <= 2 * (y + 1));
    assert(u * u <= 4 * ((y + 1) * (y + 1))) by (nonlinear_arith)
        requires
            0 <= u <= 2 * (y + 1),
    ;
}

/// The square root of `value`, rounded down, by Newton's method on integers.
///
/// The first step adds one to `value`, so the largest `i128` is refused along
/// with the negative numbers.
pub fn isqrt(value: i128) -> (root: Result<i128, PoolError>)
    ensures
        match root {
            Ok(r) => 0 <= value < i128::MAX && r == floor_sqrt(value as int) && is_floor_sqrt(
                r as int,
                value as int,
            ),
            Err(e) => e == PoolError::ArithmeticOverflow && (value < 0 || value == i128::MAX),
        },
{
    if value < 0 {
        return Err(PoolError::ArithmeticOverflow);
    }
    if value == 0 {
        proof {
            lemma_floor_sqrt_value(0, 0);
        }
        return Ok(0);
    }
    let mut x: i128 = value;
    let mut y: i128 = match checked_add(x, 1) {
        Ok(sum) => sum / 2,
        Err(e) => return Err(e),
    };
    proof {
        assert(value < (value + 1) * (value + 1)) by (nonlinear_arith)
            requires
                value > 0,
        ;
        assert(value as int / value as int == 1) by (nonlinear_arith)
            requires
                value > 0,
        ;
    }
    while y < x
        invariant
            0 < value < i128::MAX,
            0 < x <= value,
            value < (x + 1) * (x + 1),
            y == (x + value as int / x as int) / 2,
        decreases x,
    {
        proof {
            lemma_newton_step_stays_above(value as int, x as int);
            assert(value as int / x as int >= 0) by (nonlinear_arith)
                requires
                    x > 0,
                    value > 0,
            ;
            assert(y > 0) by (nonlinear_arith)
                requires
                    y >= 0,
                    value > 0,
                    value < (y + 1) * (y + 1),
            ;
        }
        x = y;
        let term: i128 = value / x;
        assert(x * term <= value && term >= 1) by (nonlinear_arith)
            requires
                0 < x <= value,
                term == value as int / x as int,
        ;
        assert(x + term <= value + 1) by (nonlinear_arith)
            requires
                x >= 1,
                term >= 1,
                x * term <= value,
        ;
        y = (x + term) / 2;
    }
    proof {
        let q = value as int / x as int;
        assert(q >= x);
        assert(x * x <= value) by (nonlinear_arith)
            requires
                x > 0,
                q >= x,
                q == value as int / x as int,
        ;
        lemma_floor_sqrt_value(x as int, value as int);
    }
    Ok(x)
}

pub fn min(a: i128, b: i128) -> (smaller: i128)
    ensures
        smaller == if a < b { a } else { b },
{
    if a < b {
        a
    } else {
        b
    }
}

} // verus!
