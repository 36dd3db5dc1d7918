//! What holds of the prices, whatever the amounts and the reserves.

use vstd::arithmetic::div_mod::{lemma_fundamental_div_mod, lemma_mod_bound};
use vstd::prelude::*;

use crate::errors::PoolError;
use crate::math::{
    fits, floor_sqrt, is_floor_sqrt, lemma_floor_sqrt_value, mul_div_fits, quotient,
    MINIMUM_LIQUIDITY,
};
use crate::pricing::{
    after_fee, amount_in, amount_in_fits, amount_out, amount_out_fits, deposit_amounts,
    deposit_amounts_refusal, lemma_ceiling, matching_a, matching_b, shares_earned,
    shares_earned_refusal, slice_of,
};

verus! {

/// A quotient rounded down is the largest number that fits into the dividend.
proof fn lemma_floor(a: int, b: int)
    requires
        a >= 0,
        b > 0,
    ensures
        quotient(a, b) == a / b,
        0 <= a / b,
        (a / b) * b <= a,
        a < (a / b + 1) * b,
{
    lemma_fundamental_div_mod(a, b);
    lemma_mod_bound(a, b);
    let q = a / b;
    assert(q * b == b * q && (q + 1) * b == b * q + b) by (nonlinear_arith);
    assert(q >= 0) by (nonlinear_arith)
        requires
            a >= 0,
            b > 0,
            q == a / b,
    ;
}

/// A number of which `b` times is at most `a` is at most `a / b`.
proof fn lemma_floor_at_least(a: int, b: int, n: int)
    requires
        a >= 0,
        b > 0,
        n * b <= a,
    ensures
        n <= a / b,
{
    lemma_floor(a, b);
    assert(n < a / b + 1) by (nonlinear_arith)
        requires
            n * b <= a,
            a < (a / b + 1) * b,
            b > 0,
    ;
}

/// A number of which `b` times is more than `a` is more than `a / b`.
proof fn lemma_floor_below(a: int, b: int, n: int)
    requires
        a >= 0,
        b > 0,
        a < n * b,
    ensures
        a / b < n,
{
    lemma_floor(a, b);
    assert(a / b < n) by (nonlinear_arith)
        requires
            (a / b) * b <= a,
            a < n * b,
            b > 0,
    ;
}

/// With only the input net of the fee counted, a swap never takes the pool
/// below the curve that it was on, and the output is the largest of which that
/// is true.
pub proof fn law_output_is_largest_on_curve(
    input: int,
    reserve_in: int,
    reserve_out: int,
    larger: int,
)
    requires
        input >= 0,
        reserve_in > 0,
        reserve_out > 0,
        larger > amount_out(input, reserve_in, reserve_out),
    ensures
        (reserve_in * 10_000 + after_fee(input)) * (reserve_out - amount_out(
            input,
            reserve_in,
            reserve_out,
        )) >= (reserve_in * 10_000) * reserve_out,
        (reserve_in * 10_000 + after_fee(input)) * (reserve_out - larger) < (reserve_in * 10_000)
            * reserve_out,
{
    let net = after_fee(input);
    let whole = reserve_in * 10_000 + net;
    let out = amount_out(input, reserve_in, reserve_out);
    assert(net * reserve_out >= 0) by (nonlinear_arith)
        requires
            net >= 0,
            reserve_out > 0,
    ;
    lemma_floor(net * reserve_out, whole);
    assert(whole * (reserve_out - out) >= (reserve_in * 10_000) * reserve_out) by (nonlinear_arith)
        requires
            out * whole <= net * reserve_out,
            whole == reserve_in * 10_000 + net,
    ;
    assert(larger * whole >= (out + 1) * whole) by (nonlinear_arith)
        requires
            larger >= out + 1,
            whole > 0,
    ;
    assert(whole * (reserve_out - larger) < (reserve_in * 10_000) * reserve_out)
        by (nonlinear_arith)
        requires
            larger * whole > net * reserve_out,
            whole == reserve_in * 10_000 + net,
    ;
}

/// A swap never pays out a whole reserve.
pub proof fn law_output_stays_below_reserve(input: int, reserve_in: int, reserve_out: int)
    requires
        input >= 0,
        reserve_in > 0,
        reserve_out > 0,
    ensures
        0 <= amount_out(input, reserve_in, reserve_out) < reserve_out,
{
    let net = after_fee(input);
    let whole = reserve_in * 10_000 + net;
    assert(net * reserve_out >= 0) by (nonlinear_arith)
        requires
            net >= 0,
            reserve_out > 0,
    ;
    assert(net * reserve_out < reserve_out * whole) by (nonlinear_arith)
        requires
            whole > net,
            reserve_out > 0,
    ;
    lemma_floor(net * reserve_out, whole);
    lemma_floor_below(net * reserve_out, whole, reserve_out);
}

/// More input never buys less output.
pub proof fn law_output_grows_with_input(
    less: int,
    more: int,
    reserve_in: int,
    reserve_out: int,
)
    requires
        0 <= less <= more,
        reserve_in > 0,
        reserve_out > 0,
    ensures
        amount_out(less, reserve_in, reserve_out) <= amount_out(more, reserve_in, reserve_out),
{
    let out = amount_out(less, reserve_in, reserve_out);
    let net = after_fee(less);
    let net_more = after_fee(more);
    let scaled = reserve_in * 10_000;
    assert(net * reserve_out >= 0 && net_more * reserve_out >= 0) by (nonlinear_arith)
        requires
            net >= 0,
            net_more >= 0,
            reserve_out > 0,
    ;
    lemma_floor(net * reserve_out, scaled + net);
    law_output_stays_below_reserve(less, reserve_in, reserve_out);
    assert(out * (scaled + net_more) <= net_more * reserve_out) by (nonlinear_arith)
        requires
            out * (scaled + net) <= net * reserve_out,
            0 <= out < reserve_out,
            net <= net_more,
    ;
    lemma_floor_at_least(net_more * reserve_out, scaled + net_more, out);
}

/// A swap of an exact input makes the product of the reserves strictly larger:
/// the fee stays in the pool.
pub proof fn law_swap_in_grows_product(input: int, reserve_in: int, reserve_out: int)
    requires
        input > 0,
        reserve_in > 0,
        reserve_out > 0,
    ensures
        (reserve_in + input) * (reserve_out - amount_out(input, reserve_in, reserve_out))
            > reserve_in * reserve_out,
{
    let out = amount_out(input, reserve_in, reserve_out);
    law_output_is_largest_on_curve(input, reserve_in, reserve_out, out + 1);
    law_output_stays_below_reserve(input, reserve_in, reserve_out);
    lemma_fee_stays(input, reserve_in, reserve_out, reserve_out - out);
}

/// If the input net of the fee keeps the product, the whole input raises it.
proof fn lemma_fee_stays(input: int, reserve_in: int, reserve_out: int, remaining: int)
    requires
        input > 0,
        remaining > 0,
        (reserve_in * 10_000 + after_fee(input)) * remaining >= (reserve_in * 10_000) * reserve_out,
    ensures
        (reserve_in + input) * remaining > reserve_in * reserve_out,
{
    let whole = reserve_in * 10_000 + after_fee(input);
    assert((10_000 * (reserve_in + input)) * remaining > whole * remaining) by (nonlinear_arith)
        requires
            10_000 * (reserve_in + input) > whole,
            remaining > 0,
    ;
    assert((10_000 * (reserve_in + input)) * remaining == 10_000 * ((reserve_in + input)
        * remaining)) by (nonlinear_arith);
    assert((reserve_in * 10_000) * reserve_out == 10_000 * (reserve_in * reserve_out))
        by (nonlinear_arith);
}

/// The input of a swap for an exact output, net of the fee, pays for it on the
/// curve; any smaller input does not.
proof fn lemma_input_pays(output: int, reserve_in: int, reserve_out: int)
    requires
        0 < output < reserve_out,
        reserve_in > 0,
    ensures
        amount_in(output, reserve_in, reserve_out) > 0,
        after_fee(amount_in(output, reserve_in, reserve_out)) * (reserve_out - output) >= (
        reserve_in * 10_000) * output,
        forall|less: int|
            less < amount_in(output, reserve_in, reserve_out) ==> #[trigger] after_fee(less) * (
            reserve_out - output) < (reserve_in * 10_000) * output,
{
    let owed = reserve_in * output * 10_000;
    let unit = (reserve_out - output) * 9_970;
    let input = amount_in(output, reserve_in, reserve_out);
    assert(reserve_in * output > 0) by (nonlinear_arith)
        requires
            reserve_in > 0,
            output > 0,
    ;
    lemma_ceiling(owed, unit);
    lemma_floor(owed, unit);
    let q = owed / unit;
    assert(input * unit >= owed) by (nonlinear_arith)
        requires
            owed < (q + 1) * unit,
            q * unit <= owed,
            input == if q * unit < owed { q + 1 } else { q },
    ;
    assert((input - 1) * unit < owed) by (nonlinear_arith)
        requires
            owed < (q + 1) * unit,
            q * unit <= owed,
            unit > 0,
            input == if q * unit < owed { q + 1 } else { q },
    ;
    assert(owed == (reserve_in * 10_000) * output) by (nonlinear_arith)
        requires
            owed == reserve_in * output * 10_000,
    ;
    assert(after_fee(input) * (reserve_out - output) == input * unit) by (nonlinear_arith)
        requires
            after_fee(input) == input * 9_970,
            unit == (reserve_out - output) * 9_970,
    ;
    assert forall|less: int| less < input implies #[trigger] after_fee(less) * (reserve_out
        - output) < (reserve_in * 10_000) * output by {
        assert(after_fee(less) * (reserve_out - output) == less * unit) by (nonlinear_arith)
            requires
                after_fee(less) == less * 9_970,
                unit == (reserve_out - output) * 9_970,
        ;
        assert(less * unit <= (input - 1) * unit) by (nonlinear_arith)
            requires
                less <= input - 1,
                unit > 0,
        ;
    }
}

/// The input that is asked for an exact output buys at least that output.
pub proof fn law_input_buys_the_output(output: int, reserve_in: int, reserve_out: int)
    requires
        0 < output < reserve_out,
        reserve_in > 0,
    ensures
        amount_in(output, reserve_in, reserve_out) > 0,
        amount_out(amount_in(output, reserve_in, reserve_out), reserve_in, reserve_out) >= output,
{
    let input = amount_in(output, reserve_in, reserve_out);
    lemma_input_pays(output, reserve_in, reserve_out);
    let net = after_fee(input);
    let scaled = reserve_in * 10_000;
    assert(output * (scaled + net) <= net * reserve_out) by (nonlinear_arith)
        requires
            net * (reserve_out - output) >= scaled * output,
    ;
    assert(net * reserve_out >= 0) by (nonlinear_arith)
        requires
            net >= 0,
            reserve_out > 0,
    ;
    lemma_floor_at_least(net * reserve_out, scaled + net, output);
}

/// No smaller input buys it: an exact output costs the least that it can.
pub proof fn law_smaller_input_buys_less(
    output: int,
    reserve_in: int,
    reserve_out: int,
    less: int,
)
    requires
        0 < output < reserve_out,
        reserve_in > 0,
        0 <= less < amount_in(output, reserve_in, reserve_out),
    ensures
        amount_out(less, reserve_in, reserve_out) < output,
{
    lemma_input_pays(output, reserve_in, reserve_out);
    let net = after_fee(less);
    let scaled = reserve_in * 10_000;
    assert(net * reserve_out < output * (scaled + net)) by (nonlinear_arith)
        requires
            net * (reserve_out - output) < scaled * output,
    ;
    assert(net * reserve_out >= 0) by (nonlinear_arith)
        requires
            net >= 0,
            reserve_out > 0,
    ;
    lemma_floor_below(net * reserve_out, scaled + net, output);
}

/// To buy exactly what some input yields costs no more than that input.
pub proof fn law_exact_output_costs_no_more(input: int, reserve_in: int, reserve_out: int)
    requires
        input > 0,
        reserve_in > 0,
        reserve_out > 0,
        amount_out(input, reserve_in, reserve_out) > 0,
    ensures
        amount_in(amount_out(input, reserve_in, reserve_out), reserve_in, reserve_out) <= input,
{
    let out = amount_out(input, reserve_in, reserve_out);
    law_output_stays_below_reserve(input, reserve_in, reserve_out);
    if amount_in(out, reserve_in, reserve_out) > input {
        law_smaller_input_buys_less(out, reserve_in, reserve_out, input);
    }
}

/// A swap for an exact output makes the product of the reserves strictly
/// larger, too.
pub proof fn law_swap_out_grows_product(output: int, reserve_in: int, reserve_out: int)
    requires
        0 < output < reserve_out,
        reserve_in > 0,
    ensures
        (reserve_in + amount_in(output, reserve_in, reserve_out)) * (reserve_out - output)
            > reserve_in * reserve_out,
{
    let input = amount_in(output, reserve_in, reserve_out);
    lemma_input_pays(output, reserve_in, reserve_out);
    let net = after_fee(input);
    let scaled = reserve_in * 10_000;
    assert((scaled + net) * (reserve_out - output) >= scaled * reserve_out) by (nonlinear_arith)
        requires
            net * (reserve_out - output) >= scaled * output,
    ;
    lemma_fee_stays(input, reserve_in, reserve_out, reserve_out - output);
}

/// Swapping there and back again leaves a trader with strictly less than they
/// started with.
pub proof fn law_round_trip_loses(input: int, reserve_in: int, reserve_out: int)
    requires
        input > 0,
        reserve_in > 0,
        reserve_out > 0,
        amount_out(input, reserve_in, reserve_out) > 0,
    ensures
        ({
            let out = amount_out(input, reserve_in, reserve_out);
            amount_out(out, reserve_out - out, reserve_in + input) < input
        }),
{
    let out = amount_out(input, reserve_in, reserve_out);
    law_output_stays_below_reserve(input, reserve_in, reserve_out);
    law_swap_in_grows_product(input, reserve_in, reserve_out);
    law_swap_in_grows_product(out, reserve_out - out, reserve_in + input);
    let back = amount_out(out, reserve_out - out, reserve_in + input);
    assert(back < input) by (nonlinear_arith)
        requires
            reserve_out * (reserve_in + input - back) > (reserve_out - out) * (reserve_in + input),
            (reserve_in + input) * (reserve_out - out) > reserve_in * reserve_out,
            reserve_out > 0,
    ;
}

/// A deposit into a pool with reserves takes no more than was desired of either
/// token and all of one of them; the other is what goes with it at the pool's
/// price, rounded down, and not below the minimum that was set for it.
pub proof fn law_deposit_keeps_the_price(
    reserve_a: int,
    reserve_b: int,
    desired_a: int,
    desired_b: int,
    min_a: int,
    min_b: int,
)
    requires
        reserve_a > 0,
        reserve_b > 0,
        desired_a > 0,
        desired_b > 0,
        deposit_amounts_refusal(
            reserve_a,
            reserve_b,
            desired_a,
            desired_b,
            min_a,
            min_b,
        ) is None,
    ensures
        ({
            let (a, b) = deposit_amounts(reserve_a, reserve_b, desired_a, desired_b);
            &&& 0 <= a <= desired_a
            &&& 0 <= b <= desired_b
            &&& {
                ||| a == desired_a && b >= min_b && b * reserve_a <= a * reserve_b < (b + 1)
                    * reserve_a
                ||| b == desired_b && a >= min_a && a * reserve_b <= b * reserve_a < (a + 1)
                    * reserve_b
            }
        }),
{
    assert(desired_a * reserve_b >= 0 && desired_b * reserve_a >= 0) by (nonlinear_arith)
        requires
            desired_a > 0,
            desired_b > 0,
            reserve_a > 0,
            reserve_b > 0,
    ;
    lemma_floor(desired_a * reserve_b, reserve_a);
    lemma_floor(desired_b * reserve_a, reserve_b);
}

/// Into a pool with reserves, a deposit is never refused because the amount of
/// token A that goes with the desired amount of token B would exceed the
/// desired amount of token A.
pub proof fn law_cut_amount_is_within_desired(
    reserve_a: int,
    reserve_b: int,
    desired_a: int,
    desired_b: int,
)
    requires
        reserve_a > 0,
        reserve_b > 0,
        desired_a > 0,
        desired_b > 0,
        matching_b(reserve_a, reserve_b, desired_a) > desired_b,
    ensures
        matching_a(reserve_a, reserve_b, desired_b) <= desired_a,
{
    assert(desired_a * reserve_b >= 0 && desired_b * reserve_a >= 0) by (nonlinear_arith)
        requires
            desired_a > 0,
            desired_b > 0,
            reserve_a > 0,
            reserve_b > 0,
    ;
    lemma_floor(desired_a * reserve_b, reserve_a);
    lemma_floor(desired_b * reserve_a, reserve_b);
    let full = matching_b(reserve_a, reserve_b, desired_a);
    let cut = matching_a(reserve_a, reserve_b, desired_b);
    assert(cut <= desired_a) by (nonlinear_arith)
        requires
            full * reserve_a <= desired_a * reserve_b,
            cut * reserve_b <= desired_b * reserve_a,
            full > desired_b,
            reserve_a > 0,
            reserve_b > 0,
    ;
}

/// If a deposit meets the pool's ratio exactly, both of its sides are worth the
/// same number of shares.
pub proof fn law_exact_ratio_prices_both_sides_alike(
    reserve_a: int,
    reserve_b: int,
    supply: int,
    a: int,
    b: int,
)
    requires
        reserve_a > 0,
        reserve_b > 0,
        supply >= 0,
        a >= 0,
        b >= 0,
        a * reserve_b == b * reserve_a,
    ensures
        quotient(a * supply, reserve_a) == quotient(b * supply, reserve_b),
{
    assert(a * supply >= 0 && b * supply >= 0) by (nonlinear_arith)
        requires
            a >= 0,
            b >= 0,
            supply >= 0,
    ;
    lemma_floor(a * supply, reserve_a);
    lemma_floor(b * supply, reserve_b);
    let x = (a * supply) / reserve_a;
    let y = (b * supply) / reserve_b;
    assert((a * supply) * reserve_b == (b * supply) * reserve_a) by (nonlinear_arith)
        requires
            a * reserve_b == b * reserve_a,
    ;
    assert(x < y + 1) by (nonlinear_arith)
        requires
            x * reserve_a <= a * supply,
            b * supply < (y + 1) * reserve_b,
            (a * supply) * reserve_b == (b * supply) * reserve_a,
            reserve_a > 0,
            reserve_b > 0,
    ;
    assert(y < x + 1) by (nonlinear_arith)
        requires
            y * reserve_b <= b * supply,
            a * supply < (x + 1) * reserve_a,
            (a * supply) * reserve_b == (b * supply) * reserve_a,
            reserve_a > 0,
            reserve_b > 0,
    ;
}

/// The first deposit is priced at the geometric mean of its amounts: together
/// with the locked minimum, its shares are the square root of their product,
/// rounded down.
pub proof fn law_first_deposit_earns_the_square_root(a: int, b: int)
    requires
        a >= 0,
        b >= 0,
    ensures
        is_floor_sqrt(shares_earned(0, 0, 0, a, b) + MINIMUM_LIQUIDITY, a * b),
{
    assert(a * b >= 0) by (nonlinear_arith)
        requires
            a >= 0,
            b >= 0,
    ;
    lemma_floor_sqrt_exists(a * b);
}

/// Every number that is not negative has a square root rounded down.
proof fn lemma_floor_sqrt_exists(n: int)
    requires
        n >= 0,
    ensures
        is_floor_sqrt(floor_sqrt(n), n),
    decreases n,
{
    if n == 0 {
        lemma_floor_sqrt_value(0, 0);
    } else {
        lemma_floor_sqrt_exists(n - 1);
        let r = floor_sqrt(n - 1);
        if n < (r + 1) * (r + 1) {
            lemma_floor_sqrt_value(r, n);
        } else {
            assert((r + 1) * (r + 1) < (r + 2) * (r + 2)) by (nonlinear_arith)
                requires
                    r >= 0,
            ;
            lemma_floor_sqrt_value(r + 1, n);
        }
    }
}

/// A later deposit earns no more shares than either of its sides is worth, so
/// that each share is backed by at least as much of both tokens as before.
pub proof fn law_deposit_does_not_dilute(
    reserve_a: int,
    reserve_b: int,
    supply: int,
    a: int,
    b: int,
)
    requires
        reserve_a > 0,
        reserve_b > 0,
        supply > 0,
        a >= 0,
        b >= 0,
    ensures
        ({
            let shares = shares_earned(reserve_a, reserve_b, supply, a, b);
            &&& shares >= 0
            &&& shares * reserve_a <= a * supply
            &&& shares * reserve_b <= b * supply
            &&& (reserve_a + a) * supply >= reserve_a * (supply + shares)
            &&& (reserve_b + b) * supply >= reserve_b * (supply + shares)
        }),
{
    let shares = shares_earned(reserve_a, reserve_b, supply, a, b);
    lemma_share_of_side(reserve_a, supply, a, shares);
    lemma_share_of_side(reserve_b, supply, b, shares);
}

proof fn lemma_share_of_side(reserve: int, supply: int, amount: int, shares: int)
    requires
        reserve > 0,
        supply > 0,
        amount >= 0,
        shares <= quotient(amount * supply, reserve),
    ensures
        quotient(amount * supply, reserve) >= 0,
        shares * reserve <= amount * supply,
        (reserve + amount) * supply >= reserve * (supply + shares),
{
    assert(amount * supply >= 0) by (nonlinear_arith)
        requires
            amount >= 0,
            supply > 0,
    ;
    lemma_floor(amount * supply, reserve);
    let most = (amount * supply) / reserve;
    assert(shares * reserve <= amount * supply) by (nonlinear_arith)
        requires
            shares <= most,
            most * reserve <= amount * supply,
            reserve > 0,
    ;
    assert((reserve + amount) * supply >= reserve * (supply + shares)) by (nonlinear_arith)
        requires
            shares * reserve <= amount * supply,
    ;
}

/// A withdrawal returns no more than its shares are worth, so that each share
/// that remains is backed by at least as much as before; and as long as shares
/// remain, so does some of the reserve.
pub proof fn law_withdrawal_does_not_dilute(reserve: int, shares: int, supply: int)
    requires
        reserve > 0,
        0 <= shares < supply,
    ensures
        ({
            let amount = slice_of(reserve, shares, supply);
            &&& 0 <= amount < reserve
            &&& amount * supply <= shares * reserve
            &&& (reserve - amount) * supply >= reserve * (supply - shares)
        }),
{
    assert(shares * reserve >= 0) by (nonlinear_arith)
        requires
            shares >= 0,
            reserve > 0,
    ;
    lemma_floor(shares * reserve, supply);
    let amount = slice_of(reserve, shares, supply);
    assert((reserve - amount) * supply >= reserve * (supply - shares)) by (nonlinear_arith)
        requires
            amount * supply <= shares * reserve,
    ;
    assert(shares * reserve < reserve * supply) by (nonlinear_arith)
        requires
            shares < supply,
            reserve > 0,
    ;
    lemma_floor_below(shares * reserve, supply, reserve);
}

/// Whoever deposits and at once withdraws what they earned gets back no more
/// than they put in.
pub proof fn law_deposit_then_withdrawal_gains_nothing(
    reserve_a: int,
    reserve_b: int,
    supply: int,
    a: int,
    b: int,
)
    requires
        reserve_a > 0,
        reserve_b > 0,
        supply > 0,
        a >= 0,
        b >= 0,
    ensures
        ({
            let shares = shares_earned(reserve_a, reserve_b, supply, a, b);
            &&& slice_of(reserve_a + a, shares, supply + shares) <= a
            &&& slice_of(reserve_b + b, shares, supply + shares) <= b
        }),
{
    let shares = shares_earned(reserve_a, reserve_b, supply, a, b);
    law_deposit_does_not_dilute(reserve_a, reserve_b, supply, a, b);
    lemma_slice_of_own_deposit(reserve_a, supply, a, shares);
    lemma_slice_of_own_deposit(reserve_b, supply, b, shares);
}

proof fn lemma_slice_of_own_deposit(reserve: int, supply: int, amount: int, shares: int)
    requires
        reserve > 0,
        supply > 0,
        amount >= 0,
        shares >= 0,
        shares * reserve <= amount * supply,
    ensures
        slice_of(reserve + amount, shares, supply + shares) <= amount,
{
    assert(0 <= shares * (reserve + amount) <= amount * (supply + shares)) by (nonlinear_arith)
        requires
            shares >= 0,
            reserve > 0,
            amount >= 0,
            shares * reserve <= amount * supply,
    ;
    assert(shares * (reserve + amount) < (amount + 1) * (supply + shares)) by (nonlinear_arith)
        requires
            shares * (reserve + amount) <= amount * (supply + shares),
            supply + shares > 0,
    ;
    lemma_floor(shares * (reserve + amount), supply + shares);
    lemma_floor_below(shares * (reserve + amount), supply + shares, amount + 1);
}

/// No two numbers are `a / b` rounded down.
proof fn lemma_floor_is_unique(a: int, b: int, n: int)
    requires
        a >= 0,
        b > 0,
        n * b <= a < (n + 1) * b,
    ensures
        quotient(a, b) == n,
        a / b == n,
{
    lemma_floor(a, b);
    lemma_floor_at_least(a, b, n);
    lemma_floor_below(a, b, n + 1);
}

/// A number fits if it lies between the least and the greatest `i128`.
pub proof fn law_fitting_is_lying_in_range(x: int)
    ensures
        fits(x) <==> -0x8000_0000_0000_0000_0000_0000_0000_0000 <= x
            <= 0x7fff_ffff_ffff_ffff_ffff_ffff_ffff_ffff,
{
}

/// A quotient is rounded toward zero: what it leaves over is smaller than the
/// divisor, and does not have the opposite sign of the dividend.
pub proof fn law_quotient_rounds_toward_zero(a: int, b: int)
    requires
        b != 0,
    ensures
        ({
            let rest = a - quotient(a, b) * b;
            let size = if b < 0 {
                -b
            } else {
                b
            };
            if a >= 0 {
                0 <= rest < size
            } else {
                -size < rest <= 0
            }
        }),
{
    let size = if b < 0 {
        -b
    } else {
        b
    };
    let whole = if a < 0 {
        -a
    } else {
        a
    };
    lemma_floor(whole, size);
    let q = whole / size;
    assert((q + 1) * size == q * size + size && (-q) * size == -(q * size) && q * (-size) == -(q
        * size) && (-q) * (-size) == q * size) by (nonlinear_arith);
}

/// A product over a divisor can be worked out if the divisor is not zero and
/// the product fits, except that the least number cannot be negated.
pub proof fn law_when_a_quotient_of_a_product_fits(a: int, b: int, c: int)
    ensures
        mul_div_fits(a, b, c) <==> {
            &&& c != 0
            &&& i128::MIN <= a * b <= i128::MAX
            &&& !(a * b == i128::MIN && c == -1)
        },
{
    let n = a * b;
    if c != 0 {
        let size = if c < 0 {
            -c
        } else {
            c
        };
        let whole = if n < 0 {
            -n
        } else {
            n
        };
        lemma_floor(whole, size);
        let q = whole / size;
        assert(q <= whole) by (nonlinear_arith)
            requires
                q * size <= whole,
                q >= 0,
                size >= 1,
        ;
        if size >= 2 && n == i128::MIN {
            assert(q < whole) by (nonlinear_arith)
                requires
                    q * size <= whole,
                    whole > 0,
                    q >= 0,
                    size >= 2,
            ;
        }
        if size == 1 {
            assert(q == whole) by (nonlinear_arith)
                requires
                    q * size <= whole,
                    whole < (q + 1) * size,
                    size == 1,
            ;
        }
    }
}

/// The square root rounded down is the largest number whose square is not
/// larger.
pub proof fn law_floor_sqrt_is_largest(n: int)
    requires
        n >= 0,
    ensures
        0 <= floor_sqrt(n),
        floor_sqrt(n) * floor_sqrt(n) <= n,
        n < (floor_sqrt(n) + 1) * (floor_sqrt(n) + 1),
{
    lemma_floor_sqrt_exists(n);
}

/// The fee is 30 of every 10_000.
pub proof fn law_fee_is_thirty_in_ten_thousand(amount: int)
    ensures
        10_000 * amount - after_fee(amount) == 30 * amount,
{
}

/// Exactly one output goes with an input: the largest that does not take the
/// pool below its curve when only 9_970 of every 10_000 of the input count.
pub proof fn law_output_of_an_input(input: int, reserve_in: int, reserve_out: int, out: int)
    requires
        input > 0,
        reserve_in > 0,
        reserve_out > 0,
    ensures
        out == amount_out(input, reserve_in, reserve_out) <==> {
            &&& (reserve_in * 10_000 + input * 9_970) * (reserve_out - out) >= reserve_in * 10_000
                * reserve_out
            &&& (reserve_in * 10_000 + input * 9_970) * (reserve_out - (out + 1)) < reserve_in
                * 10_000 * reserve_out
        },
{
    let y = amount_out(input, reserve_in, reserve_out);
    let whole = reserve_in * 10_000 + input * 9_970;
    let k = reserve_in * 10_000 * reserve_out;
    law_output_is_largest_on_curve(input, reserve_in, reserve_out, y + 1);
    if out != y && whole * (reserve_out - out) >= k && whole * (reserve_out - (out + 1)) < k {
        if out > y {
            law_output_is_largest_on_curve(input, reserve_in, reserve_out, out);
        } else {
            assert(whole * (reserve_out - (out + 1)) >= whole * (reserve_out - y))
                by (nonlinear_arith)
                requires
                    out + 1 <= y,
                    whole > 0,
            ;
        }
    }
}

/// When the output of an input can be worked out in `i128`.
pub proof fn law_when_an_output_fits(input: int, reserve_in: int, reserve_out: int)
    requires
        input > 0,
        reserve_in > 0,
        reserve_out > 0,
    ensures
        amount_out_fits(input, reserve_in, reserve_out) <==> {
            &&& input * 9_970 * reserve_out <= i128::MAX
            &&& reserve_in * 10_000 + input * 9_970 <= i128::MAX
        },
{
    assert(input * 9_970 * reserve_out >= 0) by (nonlinear_arith)
        requires
            input > 0,
            reserve_out > 0,
    ;
}

/// Exactly one input goes with an output: the least that keeps the pool on its
/// curve when only 9_970 of every 10_000 of it count.
pub proof fn law_input_for_an_output(output: int, reserve_in: int, reserve_out: int, input: int)
    requires
        0 < output < reserve_out,
        reserve_in > 0,
    ensures
        input == amount_in(output, reserve_in, reserve_out) <==> {
            &&& input * 9_970 * (reserve_out - output) >= reserve_in * 10_000 * output
            &&& (input - 1) * 9_970 * (reserve_out - output) < reserve_in * 10_000 * output
        },
{
    let x = amount_in(output, reserve_in, reserve_out);
    lemma_input_pays(output, reserve_in, reserve_out);
    assert(after_fee(x - 1) * (reserve_out - output) < (reserve_in * 10_000) * output);
    if input < x {
        assert(after_fee(input) * (reserve_out - output) < (reserve_in * 10_000) * output);
    }
    if input > x {
        assert((input - 1) * 9_970 * (reserve_out - output) >= x * 9_970 * (reserve_out - output))
            by (nonlinear_arith)
            requires
                input - 1 >= x,
                reserve_out - output > 0,
        ;
    }
}

/// When the input for an output can be worked out in `i128`.
pub proof fn law_when_an_input_fits(output: int, reserve_in: int, reserve_out: int)
    requires
        0 < output < reserve_out,
        reserve_in > 0,
    ensures
        amount_in_fits(output, reserve_in, reserve_out) <==> {
            &&& reserve_in * output * 10_000 <= i128::MAX
            &&& (reserve_out - output) * 9_970 <= i128::MAX
        },
{
    assert(reserve_in * output * 10_000 >= 0) by (nonlinear_arith)
        requires
            reserve_in > 0,
            output > 0,
    ;
}

/// Exactly one pair of amounts goes with the desired ones. A pool without
/// reserves takes both. Any other takes all of token A if the token B that goes
/// with it is within what was desired, and otherwise all of token B; of the
/// other token it takes the most that does not exceed the pool's price.
pub proof fn law_amounts_of_a_deposit(
    reserve_a: int,
    reserve_b: int,
    desired_a: int,
    desired_b: int,
    a: int,
    b: int,
)
    requires
        desired_a > 0,
        desired_b > 0,
        reserve_b >= 0,
        reserve_a > 0 || (reserve_a == 0 && reserve_b == 0),
    ensures
        (a, b) == deposit_amounts(reserve_a, reserve_b, desired_a, desired_b) <==> {
            if reserve_a == 0 {
                a == desired_a && b == desired_b
            } else if desired_a * reserve_b < (desired_b + 1) * reserve_a {
                a == desired_a && b * reserve_a <= desired_a * reserve_b < (b + 1) * reserve_a
            } else {
                b == desired_b && a * reserve_b <= desired_b * reserve_a < (a + 1) * reserve_b
            }
        },
{
    if reserve_a > 0 {
        lemma_matching(reserve_a, reserve_b, desired_a, desired_b);
        if b * reserve_a <= desired_a * reserve_b < (b + 1) * reserve_a {
            lemma_floor_is_unique(desired_a * reserve_b, reserve_a, b);
        }
        if reserve_b > 0 && a * reserve_b <= desired_b * reserve_a < (a + 1) * reserve_b {
            lemma_floor_is_unique(desired_b * reserve_a, reserve_b, a);
        }
    }
}

proof fn lemma_matching(reserve_a: int, reserve_b: int, desired_a: int, desired_b: int)
    requires
        desired_a > 0,
        desired_b > 0,
        reserve_a > 0,
        reserve_b >= 0,
    ensures
        ({
            let full = matching_b(reserve_a, reserve_b, desired_a);
            let cut = matching_a(reserve_a, reserve_b, desired_b);
            &&& 0 <= desired_a * reserve_b
            &&& 0 < desired_b * reserve_a
            &&& 0 <= full
            &&& full * reserve_a <= desired_a * reserve_b < (full + 1) * reserve_a
            &&& reserve_b > 0 ==> 0 <= cut && cut * reserve_b <= desired_b * reserve_a < (cut + 1)
                * reserve_b
            &&& full <= desired_b <==> desired_a * reserve_b < (desired_b + 1) * reserve_a
            &&& reserve_b == 0 ==> full == 0
        }),
{
    assert(desired_a * reserve_b >= 0 && desired_b * reserve_a > 0) by (nonlinear_arith)
        requires
            desired_a > 0,
            desired_b > 0,
            reserve_a > 0,
            reserve_b >= 0,
    ;
    lemma_floor(desired_a * reserve_b, reserve_a);
    if reserve_b > 0 {
        lemma_floor(desired_b * reserve_a, reserve_b);
    }
    let full = matching_b(reserve_a, reserve_b, desired_a);
    lemma_floor_against(desired_a * reserve_b, reserve_a, full, desired_b + 1);
    lemma_floor_against(desired_a * reserve_b, reserve_a, full, 1);
}

/// When the amounts of a deposit are refused. Into a pool without reserves they
/// never are. Otherwise it is because there is no price, because a product does
/// not fit, or because the token that is cut down falls below its minimum.
pub proof fn law_when_amounts_of_a_deposit_are_refused(
    reserve_a: int,
    reserve_b: int,
    desired_a: int,
    desired_b: int,
    min_a: int,
    min_b: int,
)
    requires
        desired_a > 0,
        desired_b > 0,
        reserve_a >= 0,
        reserve_b >= 0,
    ensures
        ({
            let refusal = deposit_amounts_refusal(
                reserve_a,
                reserve_b,
                desired_a,
                desired_b,
                min_a,
                min_b,
            );
            let cuts_b = desired_a * reserve_b < (desired_b + 1) * reserve_a;
            let too_large = desired_a * reserve_b > i128::MAX || (!cuts_b && desired_b * reserve_a
                > i128::MAX);
            if reserve_a == 0 && reserve_b == 0 {
                refusal is None
            } else if reserve_a == 0 {
                refusal == Some(PoolError::ArithmeticOverflow)
            } else {
                &&& refusal == Some(PoolError::ArithmeticOverflow) <==> too_large
                &&& refusal == Some(PoolError::InsufficientBAmount) <==> {
                    !too_large && cuts_b && desired_a * reserve_b < min_b * reserve_a
                }
                &&& refusal == Some(PoolError::InsufficientAAmount) <==> {
                    !too_large && !cuts_b && desired_b * reserve_a < min_a * reserve_b
                }
                &&& refusal is None <==> {
                    &&& !too_large
                    &&& cuts_b ==> desired_a * reserve_b >= min_b * reserve_a
                    &&& !cuts_b ==> desired_b * reserve_a >= min_a * reserve_b
                }
            }
        }),
{
    if reserve_a > 0 {
        lemma_matching(reserve_a, reserve_b, desired_a, desired_b);
        law_when_a_quotient_of_a_product_fits(desired_a, reserve_b, reserve_a);
        lemma_floor_against(
            desired_a * reserve_b,
            reserve_a,
            matching_b(reserve_a, reserve_b, desired_a),
            min_b,
        );
        if matching_b(reserve_a, reserve_b, desired_a) > desired_b {
            law_when_a_quotient_of_a_product_fits(desired_b, reserve_a, reserve_b);
            law_cut_amount_is_within_desired(reserve_a, reserve_b, desired_a, desired_b);
            lemma_floor_against(
                desired_b * reserve_a,
                reserve_b,
                matching_a(reserve_a, reserve_b, desired_b),
                min_a,
            );
        }
    }
}

/// A quotient rounded down reaches a whole number if and only if the exact
/// quotient does.
pub(crate) proof fn lemma_floor_against(a: int, b: int, floor: int, n: int)
    requires
        b > 0,
        floor * b <= a < (floor + 1) * b,
    ensures
        floor < n <==> a < n * b,
{
    if floor < n {
        assert((floor + 1) * b <= n * b) by (nonlinear_arith)
            requires
                floor + 1 <= n,
                b > 0,
        ;
    } else {
        assert(n * b <= floor * b) by (nonlinear_arith)
            requires
                n <= floor,
                b > 0,
        ;
    }
}

/// A later deposit earns the most shares that do not dilute: that many are
/// worth no more than either side of the deposit, and one more would be worth
/// more than one of them.
pub proof fn law_deposit_earns_all_it_is_worth(
    reserve_a: int,
    reserve_b: int,
    supply: int,
    a: int,
    b: int,
    shares: int,
)
    requires
        reserve_a > 0,
        reserve_b > 0,
        supply > 0,
        a >= 0,
        b >= 0,
    ensures
        shares == shares_earned(reserve_a, reserve_b, supply, a, b) <==> {
            &&& shares * reserve_a <= a * supply
            &&& shares * reserve_b <= b * supply
            &&& a * supply < (shares + 1) * reserve_a || b * supply < (shares + 1) * reserve_b
        },
{
    let earned = shares_earned(reserve_a, reserve_b, supply, a, b);
    assert(a * supply >= 0 && b * supply >= 0) by (nonlinear_arith)
        requires
            a >= 0,
            b >= 0,
            supply > 0,
    ;
    lemma_floor(a * supply, reserve_a);
    lemma_floor(b * supply, reserve_b);
    law_deposit_does_not_dilute(reserve_a, reserve_b, supply, a, b);
    if shares * reserve_a <= a * supply && shares * reserve_b <= b * supply {
        lemma_floor_at_least(a * supply, reserve_a, shares);
        lemma_floor_at_least(b * supply, reserve_b, shares);
        if a * supply < (shares + 1) * reserve_a {
            lemma_floor_below(a * supply, reserve_a, shares + 1);
        }
        if b * supply < (shares + 1) * reserve_b {
            lemma_floor_below(b * supply, reserve_b, shares + 1);
        }
    }
}

/// The first deposit earns the largest number of shares whose square, with the
/// thousand that stay locked counted in, is not above the product of its
/// amounts.
pub proof fn law_first_deposit_earns_all_it_is_worth(
    reserve_a: int,
    reserve_b: int,
    a: int,
    b: int,
    shares: int,
)
    requires
        a >= 0,
        b >= 0,
    ensures
        shares == shares_earned(reserve_a, reserve_b, 0, a, b) <==> {
            &&& shares + 1_000 >= 0
            &&& (shares + 1_000) * (shares + 1_000) <= a * b
            &&& a * b < (shares + 1_001) * (shares + 1_001)
        },
{
    assert(a * b >= 0) by (nonlinear_arith)
        requires
            a >= 0,
            b >= 0,
    ;
    lemma_floor_sqrt_exists(a * b);
    let root = shares + 1_000;
    if 0 <= root && root * root <= a * b && a * b < (root + 1) * (root + 1) {
        lemma_floor_sqrt_value(root, a * b);
    }
}

/// When a later deposit earns no shares: a product does not fit, a reserve is
/// empty, or a side of it is not worth a whole share.
pub proof fn law_when_a_deposit_earns_nothing(
    reserve_a: int,
    reserve_b: int,
    supply: int,
    a: int,
    b: int,
)
    requires
        reserve_a >= 0,
        reserve_b >= 0,
        supply > 0,
        a >= 0,
        b >= 0,
    ensures
        ({
            let refusal = shares_earned_refusal(reserve_a, reserve_b, supply, a, b);
            let too_large = a * supply > i128::MAX || b * supply > i128::MAX || reserve_a == 0
                || reserve_b == 0;
            let too_small = a * supply < reserve_a || b * supply < reserve_b;
            &&& refusal == Some(PoolError::ArithmeticOverflow) <==> too_large
            &&& refusal == Some(PoolError::InsufficientInitialLiquidity) <==> !too_large
                && too_small
            &&& refusal is None <==> !too_large && !too_small
        }),
{
    assert(a * supply >= 0 && b * supply >= 0) by (nonlinear_arith)
        requires
            a >= 0,
            b >= 0,
            supply > 0,
    ;
    law_when_a_quotient_of_a_product_fits(a, supply, reserve_a);
    law_when_a_quotient_of_a_product_fits(b, supply, reserve_b);
    if reserve_a > 0 && reserve_b > 0 {
        lemma_floor(a * supply, reserve_a);
        lemma_floor(b * supply, reserve_b);
        lemma_floor_against(a * supply, reserve_a, (a * supply) / reserve_a, 1);
        lemma_floor_against(b * supply, reserve_b, (b * supply) / reserve_b, 1);
    }
}

/// When a first deposit earns no shares: the product of its amounts reaches the
/// largest `i128`, or its square root does not exceed the thousand that are
/// locked away.
pub proof fn law_when_a_first_deposit_earns_nothing(
    reserve_a: int,
    reserve_b: int,
    a: int,
    b: int,
)
    requires
        a >= 0,
        b >= 0,
    ensures
        ({
            let refusal = shares_earned_refusal(reserve_a, reserve_b, 0, a, b);
            let too_large = a * b >= i128::MAX;
            let too_small = a * b < 1_001 * 1_001;
            &&& refusal == Some(PoolError::ArithmeticOverflow) <==> too_large
            &&& refusal == Some(PoolError::InsufficientInitialLiquidity) <==> too_small
            &&& refusal is None <==> !too_large && !too_small
        }),
{
    let n = a * b;
    assert(n >= 0) by (nonlinear_arith)
        requires
            n == a * b,
            a >= 0,
            b >= 0,
    ;
    lemma_floor_sqrt_exists(n);
    let root = floor_sqrt(n);
    assert(root <= 1_000 <==> n < 1_001 * 1_001) by (nonlinear_arith)
        requires
            0 <= root,
            root * root <= n < (root + 1) * (root + 1),
    ;
}

/// Exactly one amount of a reserve goes with shares: the most that is not worth
/// more than they are.
pub proof fn law_slice_is_all_the_shares_are_worth(
    reserve: int,
    shares: int,
    supply: int,
    amount: int,
)
    requires
        reserve >= 0,
        shares >= 0,
        supply > 0,
    ensures
        amount == slice_of(reserve, shares, supply) <==> amount * supply <= shares * reserve < (
        amount + 1) * supply,
{
    assert(shares * reserve >= 0) by (nonlinear_arith)
        requires
            shares >= 0,
            reserve >= 0,
    ;
    lemma_floor(shares * reserve, supply);
    if amount * supply <= shares * reserve < (amount + 1) * supply {
        lemma_floor_is_unique(shares * reserve, supply, amount);
    }
}

} // verus!
