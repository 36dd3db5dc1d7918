//! What deposits, withdrawals and swaps are worth.
//!
//! The formulas are stated over mathematical integers. Each comes with the
//! condition under which it can be worked out in `i128`.

use vstd::prelude::*;

use crate::errors::PoolError;
use crate::math::{
    checked_add, checked_div, checked_mul, checked_mul_div, fits, floor_sqrt, isqrt, min,
    mul_div_fits, quotient, FEE_DENOMINATOR, FEE_NUMERATOR, MINIMUM_LIQUIDITY,
};
use crate::pool::ConstantProductPool;

verus! {

/// What the fee of 0.3% leaves of an input, in ten-thousandths of a unit.
pub open spec fn after_fee(amount_in: int) -> int {
    amount_in * 9_970
}

/// The output of a swap for an exact input, rounded down. The product of the
/// reserves, with only [`after_fee`] of the input counted, stays where it was.
pub open spec fn amount_out(amount_in: int, reserve_in: int, reserve_out: int) -> int {
    (after_fee(amount_in) * reserve_out) / (reserve_in * 10_000 + after_fee(amount_in))
}

/// Whether [`amount_out`] can be worked out without leaving `i128`.
pub open spec fn amount_out_fits(amount_in: int, reserve_in: int, reserve_out: int) -> bool {
    fits(after_fee(amount_in) * reserve_out) && fits(reserve_in * 10_000 + after_fee(amount_in))
}

/// `a / b`, rounded up.
pub open spec fn ceiling(a: int, b: int) -> int {
    (a + b - 1) / b
}

/// The input that a swap takes for an exact output, rounded up.
pub open spec fn amount_in(amount_out: int, reserve_in: int, reserve_out: int) -> int {
    ceiling(reserve_in * amount_out * 10_000, (reserve_out - amount_out) * 9_970)
}

/// Whether [`amount_in`] can be worked out without leaving `i128`.
pub open spec fn amount_in_fits(amount_out: int, reserve_in: int, reserve_out: int) -> bool {
    fits(reserve_in * amount_out * 10_000) && fits((reserve_out - amount_out) * 9_970)
}

/// How much of token B goes with `amount_a` at the pool's current price.
pub open spec fn matching_b(reserve_a: int, reserve_b: int, amount_a: int) -> int {
    quotient(amount_a * reserve_b, reserve_a)
}

/// How much of token A goes with `amount_b` at the pool's current price.
pub open spec fn matching_a(reserve_a: int, reserve_b: int, amount_b: int) -> int {
    quotient(amount_b * reserve_a, reserve_b)
}

/// What a deposit takes of the two desired amounts: both of them if the pool
/// has no reserves; otherwise all of one, and of the other what goes with it.
pub open spec fn deposit_amounts(
    reserve_a: int,
    reserve_b: int,
    desired_a: int,
    desired_b: int,
) -> (int, int) {
    if reserve_a == 0 && reserve_b == 0 {
        (desired_a, desired_b)
    } else if matching_b(reserve_a, reserve_b, desired_a) <= desired_b {
        (desired_a, matching_b(reserve_a, reserve_b, desired_a))
    } else {
        (matching_a(reserve_a, reserve_b, desired_b), desired_b)
    }
}

/// Why no amounts are found for a deposit, if none are: the minimum of the
/// side that is cut down is not met, or the arithmetic does not fit.
pub open spec fn deposit_amounts_refusal(
    reserve_a: int,
    reserve_b: int,
    desired_a: int,
    desired_b: int,
    min_a: int,
    min_b: int,
) -> Option<PoolError> {
    if reserve_a == 0 && reserve_b == 0 {
        None
    } else if !mul_div_fits(desired_a, reserve_b, reserve_a) {
        Some(PoolError::ArithmeticOverflow)
    } else if matching_b(reserve_a, reserve_b, desired_a) <= desired_b {
        if matching_b(reserve_a, reserve_b, desired_a) < min_b {
            Some(PoolError::InsufficientBAmount)
        } else {
            None
        }
    } else if !mul_div_fits(desired_b, reserve_a, reserve_b) {
        Some(PoolError::ArithmeticOverflow)
    } else if matching_a(reserve_a, reserve_b, desired_b) > desired_a || matching_a(
        reserve_a,
        reserve_b,
        desired_b,
    ) < min_a {
        Some(PoolError::InsufficientAAmount)
    } else {
        None
    }
}

/// The smaller of two numbers.
pub open spec fn smaller(a: int, b: int) -> int {
    if a < b {
        a
    } else {
        b
    }
}

/// How many shares a deposit earns. The first one is priced at the geometric
/// mean of its amounts, less the minimum that stays locked; every other at what
/// its weaker side is worth in the current supply.
pub open spec fn shares_earned(
    reserve_a: int,
    reserve_b: int,
    supply: int,
    amount_a: int,
    amount_b: int,
) -> int {
    if supply == 0 {
        floor_sqrt(amount_a * amount_b) - MINIMUM_LIQUIDITY
    } else {
        smaller(quotient(amount_a * supply, reserve_a), quotient(amount_b * supply, reserve_b))
    }
}

/// Why a deposit earns no shares, if it earns none.
pub open spec fn shares_earned_refusal(
    reserve_a: int,
    reserve_b: int,
    supply: int,
    amount_a: int,
    amount_b: int,
) -> Option<PoolError> {
    if supply == 0 && !(0 <= amount_a * amount_b < i128::MAX) {
        Some(PoolError::ArithmeticOverflow)
    } else if supply != 0 && !(mul_div_fits(amount_a, supply, reserve_a) && mul_div_fits(
        amount_b,
        supply,
        reserve_b,
    )) {
        Some(PoolError::ArithmeticOverflow)
    } else if shares_earned(reserve_a, reserve_b, supply, amount_a, amount_b) <= 0 {
        Some(PoolError::InsufficientInitialLiquidity)
    } else {
        None
    }
}

/// The slice of a reserve that `shares` out of `supply` stand for.
pub open spec fn slice_of(reserve: int, shares: int, supply: int) -> int {
    quotient(shares * reserve, supply)
}

impl ConstantProductPool {
    /// The amounts that a deposit takes: as much as possible of the desired
    /// ones at the pool's current price, and never more than was desired.
    pub(crate) fn optimal_deposit_amounts(
        reserve_a: i128,
        reserve_b: i128,
        amount_a_desired: i128,
        amount_b_desired: i128,
        amount_a_min: i128,
        amount_b_min: i128,
    ) -> (result: Result<(i128, i128), PoolError>)
        ensures
            match result {
                Ok((a, b)) => {
                    &&& deposit_amounts_refusal(
                        reserve_a as int,
                        reserve_b as int,
                        amount_a_desired as int,
                        amount_b_desired as int,
                        amount_a_min as int,
                        amount_b_min as int,
                    ) is None
                    &&& (a as int, b as int) == deposit_amounts(
                        reserve_a as int,
                        reserve_b as int,
                        amount_a_desired as int,
                        amount_b_desired as int,
                    )
                },
                Err(e) => deposit_amounts_refusal(
                    reserve_a as int,
                    reserve_b as int,
                    amount_a_desired as int,
                    amount_b_desired as int,
                    amount_a_min as int,
                    amount_b_min as int,
                ) == Some(e),
            },
    {
        if reserve_a == 0 && reserve_b == 0 {
            return Ok((amount_a_desired, amount_b_desired));
        }
        let amount_b_optimal: i128 = match checked_mul_div(amount_a_desired, reserve_b, reserve_a) {
            Ok(amount) => amount,
            Err(e) => return Err(e),
        };
        if amount_b_optimal <= amount_b_desired {
            if amount_b_optimal < amount_b_min {
                return Err(PoolError::InsufficientBAmount);
            }
            Ok((amount_a_desired, amount_b_optimal))
        } else {
            let amount_a_optimal: i128 = match checked_mul_div(
                amount_b_desired,
                reserve_a,
                reserve_b,
            ) {
                Ok(amount) => amount,
                Err(e) => return Err(e),
            };
            if amount_a_optimal > amount_a_desired || amount_a_optimal < amount_a_min {
                return Err(PoolError::InsufficientAAmount);
            }
            Ok((amount_a_optimal, amount_b_desired))
        }
    }

    /// How many shares a deposit of `(amount_a, amount_b)` earns.
    pub(crate) fn shares_for_deposit(
        reserve_a: i128,
        reserve_b: i128,
        supply: i128,
        amount_a: i128,
        amount_b: i128,
    ) -> (result: Result<i128, PoolError>)
        ensures
            match result {
                Ok(shares) => {
                    &&& shares_earned_refusal(
                        reserve_a as int,
                        reserve_b as int,
                        supply as int,
                        amount_a as int,
                        amount_b as int,
                    ) is None
                    &&& shares == shares_earned(
                        reserve_a as int,
                        reserve_b as int,
                        supply as int,
                        amount_a as int,
                        amount_b as int,
                    )
                    &&& 0 < shares
                    &&& supply == 0 ==> shares + MINIMUM_LIQUIDITY <= i128::MAX
                },
                Err(e) => shares_earned_refusal(
                    reserve_a as int,
                    reserve_b as int,
                    supply as int,
                    amount_a as int,
                    amount_b as int,
                ) == Some(e),
            },
    {
        if supply == 0 {
            let product: i128 = match checked_mul(amount_a, amount_b) {
                Ok(product) => product,
                Err(e) => return Err(e),
            };
            let liquidity: i128 = match isqrt(product) {
                Ok(root) => root,
                Err(e) => return Err(e),
            };
            if liquidity <= MINIMUM_LIQUIDITY {
                return Err(PoolError::InsufficientInitialLiquidity);
            }
            Ok(liquidity - MINIMUM_LIQUIDITY)
        } else {
            let shares_from_a: i128 = match checked_mul_div(amount_a, supply, reserve_a) {
                Ok(shares) => shares,
                Err(e) => return Err(e),
            };
            let shares_from_b: i128 = match checked_mul_div(amount_b, supply, reserve_b) {
                Ok(shares) => shares,
                Err(e) => return Err(e),
            };
            let shares: i128 = min(shares_from_a, shares_from_b);
            if shares <= 0 {
                return Err(PoolError::InsufficientInitialLiquidity);
            }
            Ok(shares)
        }
    }

    /// The output for an exact input, net of the fee.
    pub(crate) fn get_amount_out(amount_in: i128, reserve_in: i128, reserve_out: i128) -> (result:
        Result<i128, PoolError>)
        requires
            amount_in > 0,
            reserve_in > 0,
            reserve_out > 0,
        ensures
            match result {
                Ok(out) => {
                    &&& amount_out_fits(amount_in as int, reserve_in as int, reserve_out as int)
                    &&& out == amount_out(amount_in as int, reserve_in as int, reserve_out as int)
                },
                Err(e) => {
                    &&& e == PoolError::ArithmeticOverflow
                    &&& !amount_out_fits(amount_in as int, reserve_in as int, reserve_out as int)
                },
            },
    {
        let ghost net = after_fee(amount_in as int);
        assert(net <= net * reserve_out) by (nonlinear_arith)
            requires
                net > 0,
                reserve_out >= 1,
        ;
        let amount_in_with_fee: i128 = match checked_mul(
            amount_in,
            FEE_DENOMINATOR - FEE_NUMERATOR,
        ) {
            Ok(amount) => amount,
            Err(e) => return Err(e),
        };
        let numerator: i128 = match checked_mul(amount_in_with_fee, reserve_out) {
            Ok(product) => product,
            Err(e) => return Err(e),
        };
        let scaled_reserve: i128 = match checked_mul(reserve_in, FEE_DENOMINATOR) {
            Ok(product) => product,
            Err(e) => return Err(e),
        };
        let denominator: i128 = match checked_add(scaled_reserve, amount_in_with_fee) {
            Ok(sum) => sum,
            Err(e) => return Err(e),
        };
        assert(0 <= numerator as int / denominator as int <= numerator) by (nonlinear_arith)
            requires
                numerator >= 0,
                denominator >= 1,
        ;
        checked_div(numerator, denominator)
    }

    /// The input for an exact output, net of the fee. It is rounded up, so that
    /// the pool is never short of a fraction of a unit.
    pub(crate) fn get_amount_in(amount_out: i128, reserve_in: i128, reserve_out: i128) -> (result:
        Result<i128, PoolError>)
        requires
            amount_out > 0,
            reserve_in > 0,
            reserve_out > 0,
        ensures
            match result {
                Ok(input) => {
                    &&& amount_out < reserve_out
                    &&& amount_in_fits(amount_out as int, reserve_in as int, reserve_out as int)
                    &&& input == amount_in(amount_out as int, reserve_in as int, reserve_out as int)
                    &&& 0 < input
                    &&& reserve_in + input <= i128::MAX
                },
                Err(PoolError::InsufficientOutputReserve) => amount_out >= reserve_out,
                Err(e) => {
                    &&& e == PoolError::ArithmeticOverflow
                    &&& amount_out < reserve_out
                    &&& !amount_in_fits(amount_out as int, reserve_in as int, reserve_out as int)
                },
            },
    {
        if amount_out >= reserve_out {
            return Err(PoolError::InsufficientOutputReserve);
        }
        let ghost owed = reserve_in * amount_out;
        assert(reserve_in <= owed) by (nonlinear_arith)
            requires
                owed == reserve_in * amount_out,
                reserve_in >= 1,
                amount_out >= 1,
        ;
        let product: i128 = match checked_mul(reserve_in, amount_out) {
            Ok(product) => product,
            Err(e) => return Err(e),
        };
        let numerator: i128 = match checked_mul(product, FEE_DENOMINATOR) {
            Ok(product) => product,
            Err(e) => return Err(e),
        };
        let denominator: i128 = match checked_mul(
            reserve_out - amount_out,
            FEE_DENOMINATOR - FEE_NUMERATOR,
        ) {
            Ok(product) => product,
            Err(e) => return Err(e),
        };
        proof {
            lemma_ceiling(numerator as int, denominator as int);
            assert(numerator as int / denominator as int <= numerator as int / 9_970)
                by (nonlinear_arith)
                requires
                    numerator > 0,
                    denominator >= 9_970,
            ;
        }
        let rounded_down: i128 = numerator / denominator;
        if rounded_down * denominator < numerator {
            Ok(rounded_down + 1)
        } else {
            Ok(rounded_down)
        }
    }
}

/// Rounding up is rounding down, plus one if anything was cut off.
pub proof fn lemma_ceiling(a: int, b: int)
    requires
        a > 0,
        b > 0,
    ensures
        (a / b) * b <= a,
        0 <= (a / b) * b,
        ceiling(a, b) == if (a / b) * b < a {
            a / b + 1
        } else {
            a / b
        },
        ceiling(a, b) > 0,
{
    let q = a / b;
    let r = a % b;
    vstd::arithmetic::div_mod::lemma_fundamental_div_mod(a, b);
    assert(q * b == b * q) by (nonlinear_arith);
    assert(q >= 0) by (nonlinear_arith)
        requires
            a > 0,
            b > 0,
            q == a / b,
    ;
    assert(q * b >= 0) by (nonlinear_arith)
        requires
            q >= 0,
            b > 0,
    ;
    if r == 0 {
        vstd::arithmetic::div_mod::lemma_fundamental_div_mod_converse(a + b - 1, b, q, b - 1);
        assert(q > 0) by (nonlinear_arith)
            requires
                q * b == a,
                a > 0,
                b > 0,
        ;
    } else {
        assert(a + b - 1 == (q + 1) * b + (r - 1)) by (nonlinear_arith)
            requires
                a == b * q + r,
        ;
        vstd::arithmetic::div_mod::lemma_fundamental_div_mod_converse(a + b - 1, b, q + 1, r - 1);
    }
}

} // verus!
