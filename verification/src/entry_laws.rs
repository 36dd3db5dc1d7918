//! What the pool's entry points answer and leave, stated of every call that
//! returns.
//!
//! A law here takes the arguments of a call and what it returned. That these
//! belong together is its only premise, besides the state of the pool that it
//! speaks of.

use vstd::prelude::*;

use crate::address::Address;
use crate::effect_laws::{
    is_deposit, is_handing_on, is_initialize, is_refusal, is_swap, is_withdrawal,
    law_effect_of_a_deposit, law_effect_of_a_swap, law_effect_of_a_withdrawal,
    law_effect_of_handing_on, law_effect_of_initialize, law_refused_call_leaves_the_ledger,
};
use crate::errors::PoolError;
use crate::host::{Action, Env};
use crate::pool::ConstantProductPool;
use crate::pool_laws::sound;
use crate::storage::DataKey;
use crate::terms_laws::{
    empty, fair_deposit, first_deposit_verdict, funded, handing_on_verdict, later_deposit_verdict,
    law_price_of_an_input, law_price_of_an_output, law_terms_of_a_deposit,
    law_terms_of_a_withdrawal, law_when_a_deposit_is_asked_for,
    law_when_a_first_deposit_goes_through, law_when_a_later_deposit_goes_through,
    law_when_a_price_is_quoted, law_when_a_withdrawal_goes_through, law_when_an_input_is_swapped,
    law_when_an_output_is_bought, law_when_shares_are_handed_on, law_when_shares_are_moved,
    quote_verdict, reserves_by_input, swap_in_verdict, swap_out_verdict, takes_calls,
    transfer_verdict, withdrawal_verdict,
};

verus! {

/// Why a call was refused, if it was.
pub open spec fn refused<T>(result: Result<T, PoolError>) -> Option<PoolError> {
    match result {
        Ok(_) => None,
        Err(e) => Some(e),
    }
}

/// A pool gets its tokens once, and only two that differ. A refused request
/// leaves no trace.
pub proof fn law_initialize_answers(
    env: &mut Env,
    token_a: Address,
    token_b: Address,
    result: Result<(), PoolError>,
)
    requires
        call_ensures(ConstantProductPool::initialize, (env, token_a, token_b), result),
    ensures
        result is Ok <==> old(env).token_a is None && token_a != token_b,
        refused(result) == Some(PoolError::AlreadyInitialized) <==> old(env).token_a is Some,
        refused(result) == Some(PoolError::IdenticalTokens) <==> old(env).token_a is None && token_a
            == token_b,
        result is Ok ==> is_initialize(old(env)@, final(env)@, token_a, token_b),
        result is Err ==> final(env)@ == old(env)@,
{
    law_effect_of_initialize(old(env)@, token_a, token_b);
}

/// A deposit that goes through was asked for in order, takes and earns what is
/// fair, and leaves what a deposit leaves. One that is refused leaves the ledger
/// alone.
pub proof fn law_add_liquidity_answers(
    env: &mut Env,
    from: Address,
    desired_a: i128,
    desired_b: i128,
    min_a: i128,
    min_b: i128,
    result: Result<(i128, i128, i128), PoolError>,
)
    requires
        call_ensures(
            ConstantProductPool::add_liquidity,
            (env, from, desired_a, desired_b, min_a, min_b),
            result,
        ),
    ensures
        refused(result) == Some(PoolError::ReentrancyDetected) <==> old(env).entry_lock == Some(
            true,
        ),
        refused(result) == Some(PoolError::NotInitialized) <==> old(env).entry_lock != Some(true)
            && old(env).token_a is None,
        refused(result) == Some(PoolError::AmountMustBePositive) <==> takes_calls(old(env)@.ledger)
            && !(desired_a > 0 && desired_b > 0 && min_a >= 0 && min_b >= 0),
        result matches Ok((a, b, shares)) ==> {
            &&& funded(old(env)@.ledger) || empty(old(env)@.ledger) ==> fair_deposit(
                old(env)@.ledger,
                desired_a as int,
                desired_b as int,
                a as int,
                b as int,
                shares as int,
            )
            &&& is_deposit(old(env)@, final(env)@, from, a as int, b as int, shares as int)
        },
        result is Err ==> is_refusal(old(env)@, final(env)@, from),
{
    let ledger = old(env)@.ledger;
    law_when_a_deposit_is_asked_for(
        ledger,
        from,
        desired_a as int,
        desired_b as int,
        min_a as int,
        min_b as int,
    );
    law_refused_call_leaves_the_ledger(old(env)@, from);
    if let Ok((a, b, shares)) = result {
        law_effect_of_a_deposit(old(env)@, from, a as int, b as int, shares as int);
        if funded(ledger) || empty(ledger) {
            law_terms_of_a_deposit(
                ledger,
                desired_a as int,
                desired_b as int,
                a as int,
                b as int,
                shares as int,
            );
        }
    }
}

/// The first deposit into a sound pool that takes calls goes through exactly if
/// the product of its amounts is below the largest `i128` and its square root
/// above the thousand that are locked away.
pub proof fn law_first_deposit_goes_through(
    env: &mut Env,
    from: Address,
    desired_a: i128,
    desired_b: i128,
    min_a: i128,
    min_b: i128,
    result: Result<(i128, i128, i128), PoolError>,
)
    requires
        call_ensures(
            ConstantProductPool::add_liquidity,
            (env, from, desired_a, desired_b, min_a, min_b),
            result,
        ),
        sound(old(env)@.ledger),
        takes_calls(old(env)@.ledger),
        old(env)@.ledger.supply() == 0,
        desired_a > 0,
        desired_b > 0,
        min_a >= 0,
        min_b >= 0,
    ensures
        first_deposit_verdict(desired_a as int, desired_b as int, refused(result)),
{
    law_when_a_first_deposit_goes_through(
        old(env)@.ledger,
        from,
        desired_a as int,
        desired_b as int,
        min_a as int,
        min_b as int,
    );
}

/// A later deposit into a pool that takes calls goes through exactly if its
/// terms can be worked out and booked, if the token that is cut down reaches its
/// minimum, and if it is worth a share. It then takes and earns exactly what is
/// fair.
pub proof fn law_later_deposit_goes_through(
    env: &mut Env,
    from: Address,
    desired_a: i128,
    desired_b: i128,
    min_a: i128,
    min_b: i128,
    a: int,
    b: int,
    shares: int,
    result: Result<(i128, i128, i128), PoolError>,
)
    requires
        call_ensures(
            ConstantProductPool::add_liquidity,
            (env, from, desired_a, desired_b, min_a, min_b),
            result,
        ),
        takes_calls(old(env)@.ledger),
        funded(old(env)@.ledger),
        desired_a > 0,
        desired_b > 0,
        min_a >= 0,
        min_b >= 0,
        fair_deposit(old(env)@.ledger, desired_a as int, desired_b as int, a, b, shares),
    ensures
        later_deposit_verdict(
            old(env)@.ledger,
            from,
            desired_a as int,
            desired_b as int,
            min_a as int,
            min_b as int,
            a,
            b,
            shares,
            refused(result),
        ),
        result matches Ok((taken_a, taken_b, earned)) ==> taken_a == a && taken_b == b && earned
            == shares,
{
    let ledger = old(env)@.ledger;
    law_when_a_later_deposit_goes_through(
        ledger,
        from,
        desired_a as int,
        desired_b as int,
        min_a as int,
        min_b as int,
        a,
        b,
        shares,
    );
    law_terms_of_a_deposit(ledger, desired_a as int, desired_b as int, a, b, shares);
}

/// A withdrawal is answered as it should be. One that goes through returns of
/// each reserve the most that the shares are worth, and leaves what a withdrawal
/// leaves.
pub proof fn law_remove_liquidity_answers(
    env: &mut Env,
    from: Address,
    shares: i128,
    min_a: i128,
    min_b: i128,
    result: Result<(i128, i128), PoolError>,
)
    requires
        call_ensures(
            ConstantProductPool::remove_liquidity,
            (env, from, shares, min_a, min_b),
            result,
        ),
        old(env)@.ledger.pool_a() >= 0,
        old(env)@.ledger.pool_b() >= 0,
        old(env)@.ledger.supply() >= 0,
    ensures
        withdrawal_verdict(
            old(env)@.ledger,
            from,
            shares as int,
            min_a as int,
            min_b as int,
            refused(result),
        ),
        result matches Ok((a, b)) ==> {
            let supply = old(env)@.ledger.supply();
            &&& a * supply <= shares * old(env)@.ledger.pool_a() < (a + 1) * supply
            &&& b * supply <= shares * old(env)@.ledger.pool_b() < (b + 1) * supply
            &&& is_withdrawal(old(env)@, final(env)@, from, shares as int, a as int, b as int)
        },
        result is Err ==> is_refusal(old(env)@, final(env)@, from),
{
    let ledger = old(env)@.ledger;
    law_when_a_withdrawal_goes_through(
        ledger,
        from,
        shares as int,
        min_a as int,
        min_b as int,
    );
    law_refused_call_leaves_the_ledger(old(env)@, from);
    if let Ok((a, b)) = result {
        law_terms_of_a_withdrawal(ledger, shares as int, a as int, b as int);
        law_effect_of_a_withdrawal(old(env)@, from, shares as int, a as int, b as int);
    }
}

/// A swap of an exact input is answered as it should be. One that goes through
/// yields the most that keeps the pool on its curve, and leaves what a swap
/// leaves.
pub proof fn law_swap_exact_in_answers(
    env: &mut Env,
    from: Address,
    token_in: Address,
    amount_in: i128,
    min_amount_out: i128,
    to: Address,
    result: Result<i128, PoolError>,
)
    requires
        call_ensures(
            ConstantProductPool::swap_exact_in,
            (env, from, token_in, amount_in, min_amount_out, to),
            result,
        ),
    ensures
        swap_in_verdict(
            old(env)@.ledger,
            token_in,
            amount_in as int,
            min_amount_out as int,
            refused(result),
        ),
        result matches Ok(out) ==> {
            let (reserve_in, reserve_out) = reserves_by_input(old(env)@.ledger, token_in);
            let counted = reserve_in * 10_000 + amount_in * 9_970;
            &&& counted * (reserve_out - out) >= reserve_in * 10_000 * reserve_out
            &&& counted * (reserve_out - (out + 1)) < reserve_in * 10_000 * reserve_out
            &&& is_swap(
                old(env)@,
                final(env)@,
                from,
                old(env).token_a == Some(token_in),
                amount_in as int,
                out as int,
                to,
            )
        },
        result is Err ==> is_refusal(old(env)@, final(env)@, from),
{
    let ledger = old(env)@.ledger;
    law_when_an_input_is_swapped(ledger, token_in, amount_in as int, min_amount_out as int);
    law_refused_call_leaves_the_ledger(old(env)@, from);
    if let Ok(out) = result {
        law_price_of_an_input(ledger, token_in, amount_in as int, out as int);
        law_effect_of_a_swap(
            old(env)@,
            from,
            old(env).token_a == Some(token_in),
            amount_in as int,
            out as int,
            to,
        );
    }
}

/// A swap for an exact output is answered as it should be. One that goes through
/// costs the least that keeps the pool on its curve, and leaves what a swap
/// leaves.
pub proof fn law_swap_exact_out_answers(
    env: &mut Env,
    from: Address,
    token_out: Address,
    amount_out: i128,
    max_amount_in: i128,
    to: Address,
    result: Result<i128, PoolError>,
)
    requires
        call_ensures(
            ConstantProductPool::swap_exact_out,
            (env, from, token_out, amount_out, max_amount_in, to),
            result,
        ),
    ensures
        swap_out_verdict(
            old(env)@.ledger,
            token_out,
            amount_out as int,
            max_amount_in as int,
            refused(result),
        ),
        result matches Ok(input) ==> {
            let (reserve_out, reserve_in) = reserves_by_input(old(env)@.ledger, token_out);
            &&& input * 9_970 * (reserve_out - amount_out) >= reserve_in * 10_000 * amount_out
            &&& (input - 1) * 9_970 * (reserve_out - amount_out) < reserve_in * 10_000 * amount_out
            &&& is_swap(
                old(env)@,
                final(env)@,
                from,
                old(env).token_a != Some(token_out),
                input as int,
                amount_out as int,
                to,
            )
        },
        result is Err ==> is_refusal(old(env)@, final(env)@, from),
{
    let ledger = old(env)@.ledger;
    law_when_an_output_is_bought(ledger, token_out, amount_out as int, max_amount_in as int);
    law_refused_call_leaves_the_ledger(old(env)@, from);
    if let Ok(input) = result {
        law_price_of_an_output(ledger, token_out, amount_out as int, input as int);
        law_effect_of_a_swap(
            old(env)@,
            from,
            old(env).token_a != Some(token_out),
            input as int,
            amount_out as int,
            to,
        );
    }
}

/// A swap for an exact output goes through whenever the pool is initialized and
/// unlocked, the token is one of its two, both reserves are positive, the output
/// is positive and less than its reserve, the least input that buys it is at
/// most what may be paid, and two products fit. It then costs that input.
pub proof fn law_affordable_output_is_sold(
    env: &mut Env,
    from: Address,
    token_out: Address,
    amount_out: i128,
    max_amount_in: i128,
    to: Address,
    least: int,
    reserve_in: int,
    reserve_out: int,
    result: Result<i128, PoolError>,
)
    requires
        call_ensures(
            ConstantProductPool::swap_exact_out,
            (env, from, token_out, amount_out, max_amount_in, to),
            result,
        ),
        old(env).token_a is Some,
        old(env).entry_lock != Some(true),
        if old(env).token_a == Some(token_out) {
            &&& old(env).reserve_a matches Some(a) && a == reserve_out
            &&& old(env).reserve_b matches Some(b) && b == reserve_in
        } else {
            &&& old(env).token_b == Some(token_out)
            &&& old(env).reserve_a matches Some(a) && a == reserve_in
            &&& old(env).reserve_b matches Some(b) && b == reserve_out
        },
        reserve_in > 0,
        0 < amount_out < reserve_out,
        reserve_in * amount_out * 10_000 <= i128::MAX,
        (reserve_out - amount_out) * 9_970 <= i128::MAX,
        least * 9_970 * (reserve_out - amount_out) >= reserve_in * 10_000 * amount_out,
        (least - 1) * 9_970 * (reserve_out - amount_out) < reserve_in * 10_000 * amount_out,
    ensures
        least <= max_amount_in <==> result is Ok,
        result matches Ok(input) ==> input == least,
        0 < max_amount_in < least ==> result == Err::<i128, PoolError>(
            PoolError::SlippageExceededMaxIn,
        ),
{
    law_swap_exact_out_answers(
        env,
        from,
        token_out,
        amount_out,
        max_amount_in,
        to,
        result,
    );
    law_price_of_an_output(old(env)@.ledger, token_out, amount_out as int, least);
    let left = reserve_out - amount_out;
    assert(reserve_in * 10_000 * amount_out > 0) by (nonlinear_arith)
        requires
            reserve_in > 0,
            amount_out > 0,
    ;
    assert(least > 0) by (nonlinear_arith)
        requires
            least * 9_970 * left >= reserve_in * 10_000 * amount_out,
            reserve_in * 10_000 * amount_out > 0,
            left > 0,
    ;
    if least <= max_amount_in {
        assert(max_amount_in * 9_970 * left >= least * 9_970 * left) by (nonlinear_arith)
            requires
                least <= max_amount_in,
                left > 0,
        ;
    } else {
        assert(max_amount_in * 9_970 * left <= (least - 1) * 9_970 * left) by (nonlinear_arith)
            requires
                max_amount_in <= least - 1,
                left > 0,
        ;
    }
}

/// A request to hand shares on is answered as it should be. One that goes
/// through leaves what handing shares on leaves.
pub proof fn law_transfer_shares_answers(
    env: &mut Env,
    from: Address,
    to: Address,
    amount: i128,
    result: Result<(), PoolError>,
)
    requires
        call_ensures(ConstantProductPool::transfer_shares, (env, from, to, amount), result),
    ensures
        refused(result) == Some(PoolError::ReentrancyDetected) <==> old(env).entry_lock == Some(
            true,
        ),
        refused(result) == Some(PoolError::NotInitialized) <==> old(env).entry_lock != Some(true)
            && old(env).token_a is None,
        takes_calls(old(env)@.ledger) ==> transfer_verdict(
            old(env)@.ledger,
            from,
            to,
            amount as int,
            refused(result),
        ),
        result is Ok ==> is_handing_on(old(env)@, final(env)@, from, to, amount as int),
        result is Err ==> is_refusal(old(env)@, final(env)@, from),
{
    law_when_shares_are_moved(old(env)@.ledger, from, to, amount as int);
    law_refused_call_leaves_the_ledger(old(env)@, from);
    if result is Ok {
        law_effect_of_handing_on(old(env)@, from, to, amount as int);
    }
}

/// On a sound pool that is initialized and unlocked, shares are handed on
/// exactly if the amount is positive and the sender holds as many.
pub proof fn law_held_shares_are_handed_on(
    env: &mut Env,
    from: Address,
    to: Address,
    amount: i128,
    result: Result<(), PoolError>,
)
    requires
        call_ensures(ConstantProductPool::transfer_shares, (env, from, to, amount), result),
        sound(old(env)@.ledger),
        old(env).token_a is Some,
        old(env).entry_lock != Some(true),
    ensures
        result is Ok <==> 0 < amount <= old(env)@.ledger.held(from),
        handing_on_verdict(old(env)@.ledger, from, amount as int, refused(result)),
{
    law_when_shares_are_handed_on(old(env)@.ledger, from, to, amount as int);
}

/// A request for a price is answered as it should be: with the most that keeps
/// the pool on its curve.
pub proof fn law_quote_amount_out_answers(
    env: Env,
    token_in: Address,
    amount_in: i128,
    result: Result<i128, PoolError>,
)
    requires
        call_ensures(ConstantProductPool::quote_amount_out, (&env, token_in, amount_in), result),
    ensures
        quote_verdict(env@.ledger, token_in, amount_in as int, refused(result)),
        result matches Ok(out) ==> {
            let (reserve_in, reserve_out) = reserves_by_input(env@.ledger, token_in);
            let counted = reserve_in * 10_000 + amount_in * 9_970;
            &&& counted * (reserve_out - out) >= reserve_in * 10_000 * reserve_out
            &&& counted * (reserve_out - (out + 1)) < reserve_in * 10_000 * reserve_out
        },
{
    law_when_a_price_is_quoted(env@.ledger, token_in, amount_in as int);
    if let Ok(out) = result {
        law_price_of_an_input(env@.ledger, token_in, amount_in as int, out as int);
    }
}

/// The tokens are told exactly if the pool has them.
pub proof fn law_tokens_are_told(
    env: Env,
    token_a: Result<Address, PoolError>,
    token_b: Result<Address, PoolError>,
)
    requires
        call_ensures(ConstantProductPool::token_a, (&env,), token_a),
        call_ensures(ConstantProductPool::token_b, (&env,), token_b),
    ensures
        token_a is Ok <==> env.token_a is Some,
        token_b is Ok <==> env.token_a is Some,
        token_a matches Ok(token) ==> env.token_a == Some(token),
        token_b matches Ok(token) ==> env.token_b == Some(token),
        token_a matches Err(e) ==> e == PoolError::NotInitialized,
        token_b matches Err(e) ==> e == PoolError::NotInitialized,
{
}

/// The reserves are told exactly if the pool has its tokens. One that is not
/// stored counts as zero.
pub proof fn law_reserves_are_told(env: Env, result: Result<(i128, i128), PoolError>)
    requires
        call_ensures(ConstantProductPool::get_reserves, (&env,), result),
    ensures
        result is Ok <==> env.token_a is Some,
        result matches Err(e) ==> e == PoolError::NotInitialized,
        result matches Ok((a, b)) ==> {
            &&& env.reserve_a == Some(a) || (env.reserve_a is None && a == 0)
            &&& env.reserve_b == Some(b) || (env.reserve_b is None && b == 0)
        },
{
}

/// The supply is told as it is stored, or as zero.
pub proof fn law_supply_is_told(env: Env, amount: i128)
    requires
        call_ensures(ConstantProductPool::total_shares, (&env,), amount),
    ensures
        env.total_shares == Some(amount) || (env.total_shares is None && amount == 0),
{
}

/// A balance is told as it is stored, or as zero. To ask changes no entry, and
/// keeps the one that was read alive.
pub proof fn law_balance_is_told(env: &mut Env, id: Address, amount: i128)
    requires
        call_ensures(ConstantProductPool::balance, (env, id), amount),
    ensures
        old(env).shares@.contains_key(id) ==> amount == old(env).shares@[id],
        !old(env).shares@.contains_key(id) ==> amount == 0,
        final(env)@.ledger == old(env)@.ledger,
        final(env).contract == old(env).contract,
        final(env).actions@ == if old(env).shares@.contains_key(id) {
            old(env).actions@.push(
                Action::ExtendEntry {
                    key: DataKey::Share(id),
                    threshold: 17_280,
                    extend_to: 518_400,
                },
            )
        } else {
            old(env).actions@
        },
{
}

} // verus!
