//! What holds of every call alike: what it may touch, in which order, and on
//! whose authority.

use vstd::prelude::*;

use crate::address::Address;
use crate::curve_laws;
use crate::errors::PoolError;
use crate::host::{EnvView, Ledger};
use crate::math::MINIMUM_LIQUIDITY;
use crate::pool::{
    configured, deposit_refusal, deposit_terms, deposited, gate, handed_on, initialize_refusal,
    is_token_a, price_in, price_out, quote_refusal, reserve_beside, reserve_of,
    share_transfer_refusal, swap_in_refusal, swap_out_refusal, swapped, turned_away,
    withdrawal_amounts, withdrawal_refusal, withdrawn,
};
use crate::pool_laws;
use crate::pool_laws::sound;

verus! {

/// A state-changing call with its arguments.
pub enum Call {
    Initialize { token_a: Address, token_b: Address },
    AddLiquidity { from: Address, desired_a: int, desired_b: int, min_a: int, min_b: int },
    RemoveLiquidity { from: Address, shares: int, min_a: int, min_b: int },
    SwapExactIn {
        from: Address,
        token_in: Address,
        amount_in: int,
        min_amount_out: int,
        to: Address,
    },
    SwapExactOut {
        from: Address,
        token_out: Address,
        amount_out: int,
        max_amount_in: int,
        to: Address,
    },
    TransferShares { from: Address, to: Address, amount: int },
}

impl Call {
    /// Who makes the call, where that matters.
    pub open spec fn caller(self) -> Option<Address> {
        match self {
            Call::Initialize { .. } => None,
            Call::AddLiquidity { from, .. } => Some(from),
            Call::RemoveLiquidity { from, .. } => Some(from),
            Call::SwapExactIn { from, .. } => Some(from),
            Call::SwapExactOut { from, .. } => Some(from),
            Call::TransferShares { from, .. } => Some(from),
        }
    }

    /// Who receives what a swap yields.
    pub open spec fn recipient(self) -> Option<Address> {
        match self {
            Call::SwapExactIn { to, .. } => Some(to),
            Call::SwapExactOut { to, .. } => Some(to),
            _ => None,
        }
    }

    /// Whether the call is a swap.
    pub open spec fn is_swap(self) -> bool {
        self is SwapExactIn || self is SwapExactOut
    }

    /// Why the call is refused, if it is.
    #[verifier::opaque]
    pub open spec fn refusal(self, ledger: Ledger) -> Option<PoolError> {
        match self {
            Call::Initialize { token_a, token_b } => initialize_refusal(ledger, token_a, token_b),
            Call::AddLiquidity { from, desired_a, desired_b, min_a, min_b } => deposit_refusal(
                ledger,
                from,
                desired_a,
                desired_b,
                min_a,
                min_b,
            ),
            Call::RemoveLiquidity { from, shares, min_a, min_b } => withdrawal_refusal(
                ledger,
                from,
                shares,
                min_a,
                min_b,
            ),
            Call::SwapExactIn { token_in, amount_in, min_amount_out, .. } => swap_in_refusal(
                ledger,
                token_in,
                amount_in,
                min_amount_out,
            ),
            Call::SwapExactOut { token_out, amount_out, max_amount_in, .. } => swap_out_refusal(
                ledger,
                token_out,
                amount_out,
                max_amount_in,
            ),
            Call::TransferShares { from, to, amount } => share_transfer_refusal(
                ledger,
                from,
                to,
                amount,
            ),
        }
    }

    /// What the call leaves.
    #[verifier::opaque]
    pub open spec fn outcome(self, env: EnvView) -> EnvView {
        if self.refusal(env.ledger) is Some {
            match self.caller() {
                Some(from) => turned_away(env, from),
                None => env,
            }
        } else {
            match self {
                Call::Initialize { token_a, token_b } => configured(env, token_a, token_b),
                Call::AddLiquidity { from, desired_a, desired_b, .. } => {
                    let (a, b, shares) = deposit_terms(env.ledger, desired_a, desired_b);
                    deposited(env, from, a, b, shares)
                },
                Call::RemoveLiquidity { from, shares, .. } => {
                    let (a, b) = withdrawal_amounts(env.ledger, shares);
                    withdrawn(env, from, shares, a, b)
                },
                Call::SwapExactIn { from, token_in, amount_in, to, .. } => swapped(
                    env,
                    from,
                    is_token_a(env.ledger, token_in),
                    amount_in,
                    price_out(env.ledger, token_in, amount_in),
                    to,
                ),
                Call::SwapExactOut { from, token_out, amount_out, to, .. } => swapped(
                    env,
                    from,
                    !is_token_a(env.ledger, token_out),
                    price_in(env.ledger, token_out, amount_out),
                    amount_out,
                    to,
                ),
                Call::TransferShares { from, to, amount } => handed_on(env, from, to, amount),
            }
        }
    }
}

/// Every call leaves a sound pool sound.
pub proof fn law_every_call_keeps_pool_sound(env: EnvView, call: Call)
    requires
        sound(env.ledger),
    ensures
        sound(call.outcome(env).ledger),
{
    reveal(Call::refusal);
    reveal(Call::outcome);
    if call.refusal(env.ledger) is None {
        match call {
            Call::Initialize { token_a, token_b } => {
                pool_laws::law_initialize_keeps_pool_sound(env, token_a, token_b);
            },
            Call::AddLiquidity { from, desired_a, desired_b, min_a, min_b } => {
                pool_laws::law_deposit_keeps_pool_sound(
                    env,
                    from,
                    desired_a,
                    desired_b,
                    min_a,
                    min_b,
                );
            },
            Call::RemoveLiquidity { from, shares, min_a, min_b } => {
                pool_laws::law_withdrawal_keeps_pool_sound(env, from, shares, min_a, min_b);
            },
            Call::SwapExactIn { from, token_in, amount_in, min_amount_out, to } => {
                pool_laws::law_swap_in_keeps_pool_sound(
                    env,
                    from,
                    token_in,
                    amount_in,
                    min_amount_out,
                    to,
                );
            },
            Call::SwapExactOut { from, token_out, amount_out, max_amount_in, to } => {
                pool_laws::law_swap_out_keeps_pool_sound(
                    env,
                    from,
                    token_out,
                    amount_out,
                    max_amount_in,
                    to,
                );
            },
            Call::TransferShares { from, to, amount } => {
                pool_laws::law_share_transfer_keeps_pool_sound(env, from, to, amount);
            },
        }
    }
}

/// Once a pool has liquidity it never runs dry: both reserves stay positive,
/// and the supply stays at or above the locked minimum.
pub proof fn law_liquidity_is_never_exhausted(env: EnvView, call: Call)
    requires
        sound(env.ledger),
        env.ledger.supply() > 0,
    ensures
        ({
            let after = call.outcome(env).ledger;
            &&& after.pool_a() > 0
            &&& after.pool_b() > 0
            &&& after.supply() >= MINIMUM_LIQUIDITY
        }),
{
    reveal(Call::refusal);
    reveal(Call::outcome);
    law_every_call_keeps_pool_sound(env, call);
    pool_laws::lemma_total_not_negative(call.outcome(env).ledger.shares);
    if call.refusal(env.ledger) is None {
        match call {
            Call::RemoveLiquidity { from, shares, min_a, min_b } => {
                pool_laws::law_withdrawal_keeps_pool_sound(env, from, shares, min_a, min_b);
            },
            _ => {},
        }
    }
}

/// A call that is refused changes nothing on the ledger.
pub proof fn law_refused_call_changes_nothing(env: EnvView, call: Call)
    requires
        call.refusal(env.ledger) is Some,
    ensures
        call.outcome(env).ledger == env.ledger,
{
    reveal(Call::refusal);
    reveal(Call::outcome);
}

/// While a call is under way, every other call is refused without any effect:
/// guarded ones because of the lock, `initialize` because the pool has its
/// tokens.
pub proof fn law_no_call_runs_inside_another(env: EnvView, call: Call)
    requires
        env.ledger.locked(),
        env.ledger.initialized(),
    ensures
        call.refusal(env.ledger) == Some(
            if call is Initialize {
                PoolError::AlreadyInitialized
            } else {
                PoolError::ReentrancyDetected
            },
        ),
        call.outcome(env) == env,
{
    reveal(Call::refusal);
    reveal(Call::outcome);
}

/// No call leaves the lock behind.
pub proof fn law_lock_is_given_back(env: EnvView, call: Call)
    requires
        !env.ledger.locked(),
    ensures
        !call.outcome(env).ledger.locked(),
{
    reveal(Call::refusal);
    reveal(Call::outcome);
}

/// The pool's tokens, once given, stay the same for good; and it can be given
/// tokens only once.
pub proof fn law_tokens_never_change(env: EnvView, call: Call)
    requires
        env.ledger.initialized(),
    ensures
        call.outcome(env).ledger.token_a == env.ledger.token_a,
        call.outcome(env).ledger.token_b == env.ledger.token_b,
        call is Initialize ==> call.refusal(env.ledger) == Some(PoolError::AlreadyInitialized),
{
    reveal(Call::refusal);
    reveal(Call::outcome);
    if call.refusal(env.ledger) is None {
        match call {
            Call::Initialize { .. } => {},
            Call::AddLiquidity { from, desired_a, desired_b, .. } => {
                let (a, b, shares) = deposit_terms(env.ledger, desired_a, desired_b);
                let after = deposited(env, from, a, b, shares).ledger;
                assert(after.token_a == env.ledger.token_a && after.token_b == env.ledger.token_b);
            },
            Call::RemoveLiquidity { from, shares, .. } => {
                let (a, b) = withdrawal_amounts(env.ledger, shares);
                let after = withdrawn(env, from, shares, a, b).ledger;
                assert(after.token_a == env.ledger.token_a && after.token_b == env.ledger.token_b);
            },
            Call::SwapExactIn { .. } => {},
            Call::SwapExactOut { .. } => {},
            Call::TransferShares { from, to, amount } => {
                let after = handed_on(env, from, to, amount).ledger;
                assert(after.token_a == env.ledger.token_a && after.token_b == env.ledger.token_b);
            },
        }
    }
}

/// Only deposits and withdrawals change the supply: swaps and transfers of
/// shares do not.
pub proof fn law_supply_changes_only_with_liquidity(env: EnvView, call: Call)
    requires
        call.is_swap() || call is TransferShares,
    ensures
        call.outcome(env).ledger.supply() == env.ledger.supply(),
{
    reveal(Call::refusal);
    reveal(Call::outcome);
}

/// Handing shares on leaves the reserves alone; swaps and `initialize` leave
/// everyone's shares alone.
pub proof fn law_what_each_call_leaves_alone(env: EnvView, call: Call)
    ensures
        call is TransferShares ==> call.outcome(env).ledger.pool_a() == env.ledger.pool_a()
            && call.outcome(env).ledger.pool_b() == env.ledger.pool_b(),
        call.is_swap() || call is Initialize ==> call.outcome(env).ledger.shares
            == env.ledger.shares,
{
    reveal(Call::refusal);
    reveal(Call::outcome);
}

/// A call takes shares from nobody but its caller.
pub proof fn law_only_the_caller_loses_shares(env: EnvView, call: Call, other: Address)
    requires
        call.caller() != Some(other),
    ensures
        call.outcome(env).ledger.held(other) >= env.ledger.held(other),
{
    reveal(Call::refusal);
    reveal(Call::outcome);
    if call.refusal(env.ledger) is None {
        match call {
            Call::Initialize { .. } => {},
            Call::AddLiquidity { from, desired_a, desired_b, .. } => {
                let (a, b, shares) = deposit_terms(env.ledger, desired_a, desired_b);
                let after = deposited(env, from, a, b, shares).ledger;
                assert(after.held(other) == env.ledger.held(other));
            },
            Call::RemoveLiquidity { from, shares, .. } => {
                let (a, b) = withdrawal_amounts(env.ledger, shares);
                let after = withdrawn(env, from, shares, a, b).ledger;
                assert(after.held(other) == env.ledger.held(other));
            },
            Call::SwapExactIn { .. } => {},
            Call::SwapExactOut { .. } => {},
            Call::TransferShares { from, to, amount } => {
                let after = handed_on(env, from, to, amount).ledger;
                assert(after.held(other) == env.ledger.held(other) + if other == to {
                    amount
                } else {
                    0
                });
            },
        }
    }
}

/// Every swap makes the product of the reserves strictly larger.
pub proof fn law_swap_grows_product(env: EnvView, call: Call)
    requires
        call.is_swap(),
        call.refusal(env.ledger) is None,
    ensures
        ({
            let after = call.outcome(env).ledger;
            after.pool_a() * after.pool_b() > env.ledger.pool_a() * env.ledger.pool_b()
        }),
{
    reveal(Call::refusal);
    reveal(Call::outcome);
    let ledger = env.ledger;
    let after = call.outcome(env).ledger;
    match call {
        Call::SwapExactIn { token_in, amount_in, .. } => {
            curve_laws::law_swap_in_grows_product(
                amount_in,
                reserve_of(ledger, token_in) as int,
                reserve_beside(ledger, token_in) as int,
            );
        },
        Call::SwapExactOut { token_out, amount_out, .. } => {
            pool_laws::lemma_price_in_fits(ledger, token_out, amount_out);
            curve_laws::law_swap_out_grows_product(
                amount_out,
                reserve_beside(ledger, token_out) as int,
                reserve_of(ledger, token_out) as int,
            );
        },
        _ => {},
    }
    assert(after.pool_a() * after.pool_b() == after.pool_b() * after.pool_a()
        && ledger.pool_a() * ledger.pool_b() == ledger.pool_b() * ledger.pool_a())
        by (nonlinear_arith);
}

/// What a share is worth never falls. Measured by the geometric mean of the
/// reserves, no call leaves less behind each share than it found: deposits and
/// withdrawals round in the pool's favour, and the fee of a swap stays in.
pub proof fn law_share_worth_never_falls(env: EnvView, call: Call)
    requires
        sound(env.ledger),
        env.ledger.supply() > 0,
    ensures
        ({
            let before = env.ledger;
            let after = call.outcome(env).ledger;
            (after.pool_a() * after.pool_b()) * (before.supply() * before.supply()) >= (
            before.pool_a() * before.pool_b()) * (after.supply() * after.supply())
        }),
{
    let before = env.ledger;
    let after = call.outcome(env).ledger;
    law_liquidity_is_never_exhausted(env, call);
    if call.refusal(before) is Some {
        law_refused_call_changes_nothing(env, call);
    } else if call.is_swap() {
        law_swap_grows_product(env, call);
        law_supply_changes_only_with_liquidity(env, call);
        let square = before.supply() * before.supply();
        assert(square >= 0) by (nonlinear_arith)
            requires
                square == before.supply() * before.supply(),
        ;
        assert((after.pool_a() * after.pool_b()) * square >= (before.pool_a() * before.pool_b())
            * square) by (nonlinear_arith)
            requires
                after.pool_a() * after.pool_b() > before.pool_a() * before.pool_b(),
                square >= 0,
        ;
    } else {
        lemma_backing_never_falls(env, call);
        lemma_backings_multiply(
            after.pool_a() as int,
            after.pool_b() as int,
            after.supply() as int,
            before.pool_a() as int,
            before.pool_b() as int,
            before.supply() as int,
        );
    }
}

/// But for swaps, every call leaves at least as much of each token behind each
/// share as it found.
proof fn lemma_backing_never_falls(env: EnvView, call: Call)
    requires
        sound(env.ledger),
        env.ledger.supply() > 0,
        call.refusal(env.ledger) is None,
        !call.is_swap(),
    ensures
        ({
            let before = env.ledger;
            let after = call.outcome(env).ledger;
            &&& after.pool_a() * before.supply() >= before.pool_a() * after.supply()
            &&& after.pool_b() * before.supply() >= before.pool_b() * after.supply()
        }),
{
    reveal(Call::refusal);
    let before = env.ledger;
    let after = call.outcome(env).ledger;
    let ra = before.pool_a() as int;
    let rb = before.pool_b() as int;
    let supply = before.supply() as int;
    match call {
        Call::Initialize { .. } => {},
        Call::AddLiquidity { from, desired_a, desired_b, min_a, min_b } => {
            let (a, b, shares) = deposit_terms(before, desired_a, desired_b);
            curve_laws::law_deposit_keeps_the_price(ra, rb, desired_a, desired_b, min_a, min_b);
            curve_laws::law_deposit_does_not_dilute(ra, rb, supply, a, b);
            assert(call.outcome(env) == deposited(env, from, a, b, shares)) by {
                reveal(Call::outcome);
            }
            assert(after.pool_a() == ra + a && after.pool_b() == rb + b && after.supply() == supply
                + shares);
        },
        Call::RemoveLiquidity { from, shares, min_a, min_b } => {
            let (a, b) = withdrawal_amounts(before, shares);
            pool_laws::lemma_held_within_total(before.shares, from);
            curve_laws::law_withdrawal_does_not_dilute(ra, shares, supply);
            curve_laws::law_withdrawal_does_not_dilute(rb, shares, supply);
            assert(call.outcome(env) == withdrawn(env, from, shares, a, b)) by {
                reveal(Call::outcome);
            }
            assert(after.pool_a() == ra - a && after.pool_b() == rb - b && after.supply() == supply
                - shares);
        },
        _ => {
            law_what_each_call_leaves_alone(env, call);
            law_supply_changes_only_with_liquidity(env, call);
        },
    }
}

proof fn lemma_backings_multiply(a2: int, b2: int, t2: int, a1: int, b1: int, t1: int)
    requires
        a2 * t1 >= a1 * t2,
        b2 * t1 >= b1 * t2,
        a1 >= 0,
        b1 >= 0,
        t1 >= 0,
        t2 >= 0,
    ensures
        (a2 * b2) * (t1 * t1) >= (a1 * b1) * (t2 * t2),
{
    assert(a1 * t2 >= 0 && b1 * t2 >= 0) by (nonlinear_arith)
        requires
            a1 >= 0,
            b1 >= 0,
            t2 >= 0,
    ;
    let x2 = a2 * t1;
    let y2 = b2 * t1;
    let x1 = a1 * t2;
    let y1 = b1 * t2;
    assert(x2 * y2 >= x1 * y1) by (nonlinear_arith)
        requires
            x2 >= x1 >= 0,
            y2 >= y1 >= 0,
    ;
    assert((a2 * b2) * (t1 * t1) == x2 * y2) by (nonlinear_arith)
        requires
            x2 == a2 * t1,
            y2 == b2 * t1,
    ;
    assert((a1 * b1) * (t2 * t2) == x1 * y1) by (nonlinear_arith)
        requires
            x1 == a1 * t2,
            y1 == b1 * t2,
    ;
}

/// A quote is what the swap then yields: on a pool that lets the call in, the
/// swap goes through exactly if there is a quote, it is not zero, and it meets
/// the minimum.
pub proof fn law_quote_is_what_the_swap_yields(
    ledger: Ledger,
    token_in: Address,
    amount_in: int,
    min_amount_out: int,
)
    requires
        gate(ledger) is None,
        min_amount_out >= 0,
    ensures
        swap_in_refusal(ledger, token_in, amount_in, min_amount_out) is None <==> {
            &&& quote_refusal(ledger, token_in, amount_in) is None
            &&& price_out(ledger, token_in, amount_in) > 0
            &&& price_out(ledger, token_in, amount_in) >= min_amount_out
        },
{
    if quote_refusal(ledger, token_in, amount_in) is None {
        curve_laws::law_output_stays_below_reserve(
            amount_in,
            reserve_of(ledger, token_in) as int,
            reserve_beside(ledger, token_in) as int,
        );
    }
}

/// The pool's token beside `token`.
pub open spec fn partner(ledger: Ledger, token: Address) -> Address {
    if is_token_a(ledger, token) {
        ledger.token_b->0
    } else {
        ledger.token_a->0
    }
}

/// A round trip costs the fee: whoever swaps some input and then swaps all of
/// what it yielded back ends up with less than they put in.
pub proof fn law_round_trip_costs_the_fee(
    env: EnvView,
    from: Address,
    token_in: Address,
    amount_in: int,
    min_amount_out: int,
    to: Address,
)
    requires
        env.ledger.paired(),
        env.ledger.token_a != env.ledger.token_b,
        swap_in_refusal(env.ledger, token_in, amount_in, min_amount_out) is None,
    ensures
        ({
            let out = price_out(env.ledger, token_in, amount_in);
            let call = Call::SwapExactIn { from, token_in, amount_in, min_amount_out, to };
            let after = call.outcome(env).ledger;
            price_out(after, partner(env.ledger, token_in), out) < amount_in
        }),
{
    let ledger = env.ledger;
    let takes_a = is_token_a(ledger, token_in);
    let out = price_out(ledger, token_in, amount_in);
    let call = Call::SwapExactIn { from, token_in, amount_in, min_amount_out, to };
    assert(call.outcome(env) == swapped(env, from, takes_a, amount_in, out, to)) by {
        reveal(Call::refusal);
        reveal(Call::outcome);
    }
    let after = call.outcome(env).ledger;
    let other = partner(ledger, token_in);
    assert(is_token_a(after, other) == !takes_a);
    assert(reserve_of(after, other) == reserve_beside(ledger, token_in) - out);
    assert(reserve_beside(after, other) == reserve_of(ledger, token_in) + amount_in);
    curve_laws::law_round_trip_loses(
        amount_in,
        reserve_of(ledger, token_in) as int,
        reserve_beside(ledger, token_in) as int,
    );
}

/// The two kinds of swap are each other's inverse, with every rounding in the
/// pool's favour: what an exact output costs buys at least that output, and
/// anything less buys less.
pub proof fn law_exact_output_costs_the_least(
    ledger: Ledger,
    token_out: Address,
    amount_out: int,
    max_amount_in: int,
    less: int,
)
    requires
        ledger.paired(),
        ledger.token_a != ledger.token_b,
        swap_out_refusal(ledger, token_out, amount_out, max_amount_in) is None,
        0 <= less < price_in(ledger, token_out, amount_out),
    ensures
        ({
            let token_in = partner(ledger, token_out);
            &&& price_out(ledger, token_in, price_in(ledger, token_out, amount_out)) >= amount_out
            &&& price_out(ledger, token_in, less) < amount_out
        }),
{
    let reserve_in = reserve_beside(ledger, token_out) as int;
    let reserve_out = reserve_of(ledger, token_out) as int;
    curve_laws::law_input_buys_the_output(amount_out, reserve_in, reserve_out);
    curve_laws::law_smaller_input_buys_less(amount_out, reserve_in, reserve_out, less);
}

/// To take out exactly what some input would yield costs no more than that
/// input.
pub proof fn law_exact_output_costs_no_more_than_exact_input(
    ledger: Ledger,
    token_in: Address,
    amount_in: int,
    min_amount_out: int,
)
    requires
        ledger.paired(),
        ledger.token_a != ledger.token_b,
        swap_in_refusal(ledger, token_in, amount_in, min_amount_out) is None,
    ensures
        price_in(ledger, partner(ledger, token_in), price_out(ledger, token_in, amount_in))
            <= amount_in,
{
    curve_laws::law_exact_output_costs_no_more(
        amount_in,
        reserve_of(ledger, token_in) as int,
        reserve_beside(ledger, token_in) as int,
    );
}

/// Whoever deposits and then withdraws the shares that this earned gets back no
/// more than they put in.
pub proof fn law_deposit_and_withdrawal_gain_nothing(
    env: EnvView,
    from: Address,
    desired_a: int,
    desired_b: int,
    min_a: int,
    min_b: int,
)
    requires
        sound(env.ledger),
        deposit_refusal(env.ledger, from, desired_a, desired_b, min_a, min_b) is None,
    ensures
        ({
            let (a, b, shares) = deposit_terms(env.ledger, desired_a, desired_b);
            let call = Call::AddLiquidity { from, desired_a, desired_b, min_a, min_b };
            let (back_a, back_b) = withdrawal_amounts(call.outcome(env).ledger, shares);
            back_a <= a && back_b <= b
        }),
{
    let ledger = env.ledger;
    let ra = ledger.pool_a() as int;
    let rb = ledger.pool_b() as int;
    let supply = ledger.supply() as int;
    let (a, b, shares) = deposit_terms(ledger, desired_a, desired_b);
    let call = Call::AddLiquidity { from, desired_a, desired_b, min_a, min_b };
    assert(call.outcome(env) == deposited(env, from, a, b, shares)) by {
        reveal(Call::refusal);
        reveal(Call::outcome);
    }
    let after = call.outcome(env).ledger;
    assert(after.pool_a() == ra + a && after.pool_b() == rb + b);
    if supply == 0 {
        assert(after.supply() == MINIMUM_LIQUIDITY + shares);
        curve_laws::law_withdrawal_does_not_dilute(a, shares, MINIMUM_LIQUIDITY + shares);
        curve_laws::law_withdrawal_does_not_dilute(b, shares, MINIMUM_LIQUIDITY + shares);
    } else {
        pool_laws::lemma_total_not_negative(ledger.shares);
        assert(after.supply() == supply + shares);
        curve_laws::law_deposit_keeps_the_price(ra, rb, desired_a, desired_b, min_a, min_b);
        curve_laws::law_deposit_then_withdrawal_gains_nothing(ra, rb, supply, a, b);
    }
}

/// Shares that were handed on can be handed back, and then everyone has what
/// they had.
pub proof fn law_share_transfer_can_be_undone(
    env: EnvView,
    from: Address,
    to: Address,
    amount: int,
)
    requires
        sound(env.ledger),
        share_transfer_refusal(env.ledger, from, to, amount) is None,
    ensures
        ({
            let after = Call::TransferShares { from, to, amount }.outcome(env);
            let back = Call::TransferShares { from: to, to: from, amount };
            &&& back.refusal(after.ledger) is None
            &&& back.outcome(after).ledger.shares == env.ledger.shares
        }),
{
    reveal(Call::refusal);
    let after = handed_on(env, from, to, amount);
    assert(Call::TransferShares { from, to, amount }.outcome(env) == after) by {
        reveal(Call::outcome);
    }
    assert(from != to ==> after.ledger.held(to) == env.ledger.held(to) + amount);
    assert(from != to ==> after.ledger.held(from) == env.ledger.held(from) - amount);
    assert(from == to ==> after.ledger.held(from) == env.ledger.held(from));
    assert(share_transfer_refusal(after.ledger, to, from, amount) is None) by {
        if env.ledger.shares.contains_key(to) {
            assert(env.ledger.shares[to] > 0);
        }
    }
    let restored = handed_on(after, to, from, amount);
    assert(Call::TransferShares { from: to, to: from, amount }.outcome(after) == restored) by {
        reveal(Call::outcome);
    }
    assert(restored.ledger.shares =~= env.ledger.shares);
}

} // verus!
