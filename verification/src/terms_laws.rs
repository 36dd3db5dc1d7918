//! When each call goes through, on which terms, and why it is refused
//! otherwise.
//!
//! The terms are stated as comparisons of products of the amounts and the
//! reserves: as what the result has to meet, and not by how it is computed.

use vstd::prelude::*;

use crate::address::Address;
use crate::curve_laws::{
    law_amounts_of_a_deposit, law_deposit_earns_all_it_is_worth,
    law_first_deposit_earns_all_it_is_worth, law_input_for_an_output, law_output_of_an_input,
    law_slice_is_all_the_shares_are_worth, law_when_a_deposit_earns_nothing,
    law_when_a_first_deposit_earns_nothing, law_when_a_quotient_of_a_product_fits,
    law_when_amounts_of_a_deposit_are_refused, law_when_an_input_fits, law_when_an_output_fits,
    lemma_floor_against,
};
use crate::errors::PoolError;
use crate::host::Ledger;
use crate::lp_token::{burn_refusal, mintable, transfer_refusal};
use crate::pool::{
    deposit_refusal, deposit_terms, gate, initialize_refusal, is_token_a, market_refusal,
    pool_token, price_in, price_out, quote_refusal, reserve_beside, reserve_of,
    share_transfer_refusal, swap_in_refusal, swap_out_refusal, taken_token, withdrawal_amounts,
    withdrawal_refusal,
};
use crate::pool_laws::{lemma_total_not_negative, lemma_two_held_within_supply, sound};
use crate::pricing::{amount_out, deposit_amounts};

verus! {

/// Whether the pool takes calls: it has its tokens, and no call is under way.
pub open spec fn takes_calls(ledger: Ledger) -> bool {
    ledger.token_a is Some && ledger.entry_lock != Some(true)
}

/// A call is turned away at the door if another is under way, or if the pool
/// has no tokens yet, and in no other case.
pub proof fn law_who_is_turned_away(ledger: Ledger)
    ensures
        gate(ledger) is None <==> takes_calls(ledger),
        gate(ledger) == Some(PoolError::ReentrancyDetected) <==> ledger.entry_lock == Some(true),
        gate(ledger) == Some(PoolError::NotInitialized) <==> ledger.entry_lock != Some(true)
            && ledger.token_a is None,
{
}

/// A pool gets its tokens once, and only two that differ. Every such request
/// goes through.
pub proof fn law_when_a_pool_gets_its_tokens(ledger: Ledger, token_a: Address, token_b: Address)
    ensures
        initialize_refusal(ledger, token_a, token_b) is None <==> ledger.token_a is None && token_a
            != token_b,
        initialize_refusal(ledger, token_a, token_b) == Some(PoolError::AlreadyInitialized)
            <==> ledger.token_a is Some,
        initialize_refusal(ledger, token_a, token_b) == Some(PoolError::IdenticalTokens)
            <==> ledger.token_a is None && token_a == token_b,
{
}

/// Whether `refusal` is the right answer to a request to move shares: they are
/// moved exactly if the amount is positive, the sender holds as many, and the
/// balance of the receiver stays in range.
pub open spec fn transfer_verdict(
    ledger: Ledger,
    from: Address,
    to: Address,
    amount: int,
    refusal: Option<PoolError>,
) -> bool {
    let too_many = from != to && ledger.held(to) + amount > i128::MAX;
    &&& refusal is None <==> 0 < amount <= ledger.held(from) && !too_many
    &&& refusal == Some(PoolError::AmountMustBePositive) <==> amount <= 0
    &&& refusal == Some(PoolError::InsufficientShareBalance) <==> 0 < amount
        && ledger.held(from) < amount
    &&& refusal == Some(PoolError::ArithmeticOverflow) <==> 0 < amount <= ledger.held(from)
        && too_many
}

/// Shares are moved, or refused for the right reason, on every ledger.
pub proof fn law_when_shares_are_moved(ledger: Ledger, from: Address, to: Address, amount: int)
    ensures
        transfer_verdict(
            ledger,
            from,
            to,
            amount,
            transfer_refusal(ledger, from, to, amount),
        ),
{
}

/// Whether `refusal` is the right answer to a request to hand shares on: they
/// are handed on exactly if the pool takes calls, the amount is positive, and
/// the sender holds as many.
pub open spec fn handing_on_verdict(
    ledger: Ledger,
    from: Address,
    amount: int,
    refusal: Option<PoolError>,
) -> bool {
    let ready = takes_calls(ledger);
    &&& refusal is None <==> ready && 0 < amount <= ledger.held(from)
    &&& ready ==> (refusal == Some(PoolError::AmountMustBePositive) <==> amount <= 0)
    &&& ready ==> (refusal == Some(PoolError::InsufficientShareBalance) <==> amount
        > ledger.held(from) && amount > 0)
    &&& refusal == Some(PoolError::ReentrancyDetected) <==> ledger.entry_lock == Some(true)
    &&& refusal == Some(PoolError::NotInitialized) <==> ledger.entry_lock != Some(true)
        && ledger.token_a is None
}

/// On a sound pool that takes calls, shares are handed on exactly if the amount
/// is positive and the sender holds as many: no balance ever gets too large.
pub proof fn law_when_shares_are_handed_on(ledger: Ledger, from: Address, to: Address, amount: int)
    requires
        sound(ledger),
    ensures
        handing_on_verdict(
            ledger,
            from,
            amount,
            share_transfer_refusal(ledger, from, to, amount),
        ),
{
    law_when_shares_are_moved(ledger, from, to, amount);
    if from != to {
        lemma_two_held_within_supply(ledger, from, to);
    }
}

/// New shares can be credited exactly if the balance and the supply stay in
/// range.
pub proof fn law_when_shares_can_be_minted(ledger: Ledger, to: Address, amount: int)
    ensures
        mintable(ledger, to, amount) <==> {
            &&& i128::MIN <= ledger.held(to) + amount <= i128::MAX
            &&& i128::MIN <= ledger.supply() + amount <= i128::MAX
        },
{
}

/// Whether `refusal` is the right answer to a request to burn shares: they are
/// burned exactly if their owner holds as many, and the balance and the supply
/// stay in range.
pub open spec fn burn_verdict(
    ledger: Ledger,
    from: Address,
    amount: int,
    refusal: Option<PoolError>,
) -> bool {
    let in_range = i128::MIN <= ledger.held(from) - amount <= i128::MAX && i128::MIN
        <= ledger.supply() - amount <= i128::MAX;
    &&& refusal is None <==> amount <= ledger.held(from) && in_range
    &&& refusal == Some(PoolError::InsufficientShareBalance) <==> ledger.held(from) < amount
    &&& refusal == Some(PoolError::ArithmeticOverflow) <==> amount <= ledger.held(from)
        && !in_range
}

/// Shares are burned, or refused for the right reason, on every ledger.
pub proof fn law_when_shares_can_be_burned(ledger: Ledger, from: Address, amount: int)
    ensures
        burn_verdict(
            ledger,
            from,
            amount,
            burn_refusal(ledger, from, amount),
        ),
{
}

/// The reserve of the token that a swap takes in, and that of the token that it
/// gives out, if `token` is the one that comes in.
pub open spec fn reserves_by_input(ledger: Ledger, token: Address) -> (int, int) {
    if ledger.token_a == Some(token) {
        (ledger.pool_a() as int, ledger.pool_b() as int)
    } else {
        (ledger.pool_b() as int, ledger.pool_a() as int)
    }
}

/// Whether `token` is one of the pool's two, and the pool has something of
/// both.
pub open spec fn trades(ledger: Ledger, token: Address) -> bool {
    &&& ledger.token_a == Some(token) || ledger.token_b == Some(token)
    &&& ledger.pool_a() > 0
    &&& ledger.pool_b() > 0
}

/// A token is told by its address, and has the reserve that is kept for it. A
/// swap moves the tokens that the pool was given.
pub proof fn law_tokens_are_told_apart(ledger: Ledger, token: Address)
    ensures
        is_token_a(ledger, token) <==> ledger.token_a == Some(token),
        pool_token(ledger, token) <==> ledger.token_a == Some(token) || ledger.token_b == Some(
            token,
        ),
        reserve_of(ledger, token) == reserves_by_input(ledger, token).0,
        reserve_beside(ledger, token) == reserves_by_input(ledger, token).1,
        ledger.token_a is Some ==> ledger.token_a == Some(taken_token(ledger, true)),
        ledger.token_b is Some ==> ledger.token_b == Some(taken_token(ledger, false)),
        market_refusal(ledger, token) is None <==> trades(ledger, token),
{
}

/// The output that a swap is priced at is the largest that does not take the
/// pool below its curve when 9_970 of every 10_000 of the input count.
pub proof fn law_price_of_an_input(ledger: Ledger, token_in: Address, amount_in: int, out: int)
    requires
        trades(ledger, token_in),
        amount_in > 0,
    ensures
        out == price_out(ledger, token_in, amount_in) <==> {
            let (reserve_in, reserve_out) = reserves_by_input(ledger, token_in);
            let counted = reserve_in * 10_000 + amount_in * 9_970;
            &&& counted * (reserve_out - out) >= reserve_in * 10_000 * reserve_out
            &&& counted * (reserve_out - (out + 1)) < reserve_in * 10_000 * reserve_out
        },
{
    let (reserve_in, reserve_out) = reserves_by_input(ledger, token_in);
    law_output_of_an_input(amount_in, reserve_in, reserve_out, out);
}

/// The input that an exact output is priced at is the least that keeps the pool
/// on its curve when 9_970 of every 10_000 of it count.
pub proof fn law_price_of_an_output(ledger: Ledger, token_out: Address, amount_out: int, input: int)
    requires
        trades(ledger, token_out),
        0 < amount_out < reserves_by_input(ledger, token_out).0,
    ensures
        input == price_in(ledger, token_out, amount_out) <==> {
            let (reserve_out, reserve_in) = reserves_by_input(ledger, token_out);
            &&& input * 9_970 * (reserve_out - amount_out) >= reserve_in * 10_000 * amount_out
            &&& (input - 1) * 9_970 * (reserve_out - amount_out) < reserve_in * 10_000 * amount_out
        },
{
    let (reserve_out, reserve_in) = reserves_by_input(ledger, token_out);
    law_input_for_an_output(amount_out, reserve_in, reserve_out, input);
}

/// Whether `refusal` is the right answer to a request for a price: one is quoted
/// exactly if the pool has its tokens, the amount is positive, the token is one
/// of the two, both reserves are positive, and two products are in range. A
/// call that is under way does not matter.
pub open spec fn quote_verdict(
    ledger: Ledger,
    token_in: Address,
    amount_in: int,
    refusal: Option<PoolError>,
) -> bool {
    let (reserve_in, reserve_out) = reserves_by_input(ledger, token_in);
    let known = ledger.token_a == Some(token_in) || ledger.token_b == Some(token_in);
    let open = ledger.token_a is Some;
    let in_range = amount_in * 9_970 * reserve_out <= i128::MAX && reserve_in * 10_000
        + amount_in * 9_970 <= i128::MAX;
    &&& refusal is None <==> open && amount_in > 0 && trades(ledger, token_in) && in_range
    &&& refusal == Some(PoolError::NotInitialized) <==> !open
    &&& refusal == Some(PoolError::AmountMustBePositive) <==> open && amount_in <= 0
    &&& refusal == Some(PoolError::InvalidToken) <==> open && amount_in > 0 && !known
    &&& refusal == Some(PoolError::InsufficientLiquidity) <==> open && amount_in > 0
        && known && !trades(ledger, token_in)
    &&& refusal == Some(PoolError::ArithmeticOverflow) <==> open && amount_in > 0
        && trades(ledger, token_in) && !in_range
}

/// A price is quoted, or refused for the right reason, on every ledger.
pub proof fn law_when_a_price_is_quoted(ledger: Ledger, token_in: Address, amount_in: int)
    ensures
        quote_verdict(
            ledger,
            token_in,
            amount_in,
            quote_refusal(ledger, token_in, amount_in),
        ),
{
    let (reserve_in, reserve_out) = reserves_by_input(ledger, token_in);
    if amount_in > 0 && reserve_in > 0 && reserve_out > 0 {
        law_when_an_output_fits(amount_in, reserve_in, reserve_out);
    }
}

/// Whether `refusal` is the right answer to a swap of an exact input: it goes
/// through exactly if the pool takes calls, the amounts are in order, a price
/// can be quoted, and the pool stays on its curve if it gives out the least
/// that was asked for, and one unit in any case.
pub open spec fn swap_in_verdict(
    ledger: Ledger,
    token_in: Address,
    amount_in: int,
    min_amount_out: int,
    refusal: Option<PoolError>,
) -> bool {
    let (reserve_in, reserve_out) = reserves_by_input(ledger, token_in);
    let known = ledger.token_a == Some(token_in) || ledger.token_b == Some(token_in);
    let asked = takes_calls(ledger) && amount_in > 0 && min_amount_out >= 0;
    let counted = reserve_in * 10_000 + amount_in * 9_970;
    let curve = reserve_in * 10_000 * reserve_out;
    let in_range = amount_in * 9_970 * reserve_out <= i128::MAX && counted <= i128::MAX;
    let yields_one = counted * (reserve_out - 1) >= curve;
    let yields_enough = counted * (reserve_out - min_amount_out) >= curve;
    let priced = asked && trades(ledger, token_in) && in_range;
    &&& refusal is None <==> priced && yields_one && yields_enough
    &&& refusal == Some(PoolError::ReentrancyDetected) <==> ledger.entry_lock == Some(true)
    &&& refusal == Some(PoolError::NotInitialized) <==> ledger.entry_lock != Some(true)
        && ledger.token_a is None
    &&& refusal == Some(PoolError::AmountMustBePositive) <==> takes_calls(ledger) && !asked
    &&& refusal == Some(PoolError::InvalidToken) <==> asked && !known
    &&& refusal == Some(PoolError::InsufficientLiquidity) <==> asked && known && !trades(
        ledger,
        token_in,
    )
    &&& refusal == Some(PoolError::ArithmeticOverflow) <==> asked && trades(
        ledger,
        token_in,
    ) && !in_range
    &&& refusal == Some(PoolError::InsufficientOutputReserve) <==> priced && !yields_one
    &&& refusal == Some(PoolError::SlippageExceededMinOut) <==> priced && yields_one
        && !yields_enough
}

/// A swap of an exact input goes through, or is refused for the right reason, on
/// every ledger.
pub proof fn law_when_an_input_is_swapped(
    ledger: Ledger,
    token_in: Address,
    amount_in: int,
    min_amount_out: int,
)
    ensures
        swap_in_verdict(
            ledger,
            token_in,
            amount_in,
            min_amount_out,
            swap_in_refusal(ledger, token_in, amount_in, min_amount_out),
        ),
{
    law_when_a_price_is_quoted(ledger, token_in, amount_in);
    let (reserve_in, reserve_out) = reserves_by_input(ledger, token_in);
    if amount_in > 0 && trades(ledger, token_in) {
        lemma_output_reaches(amount_in, reserve_in, reserve_out, 1);
        lemma_output_reaches(amount_in, reserve_in, reserve_out, min_amount_out);
        lemma_output_reaches(amount_in, reserve_in, reserve_out, reserve_out);
        assert(reserve_in * 10_000 * reserve_out > 0) by (nonlinear_arith)
            requires
                reserve_in > 0,
                reserve_out > 0,
        ;
        assert((reserve_in * 10_000 + amount_in * 9_970) * (reserve_out - reserve_out) == 0)
            by (nonlinear_arith);
    }
}

/// The output that an input buys reaches an amount exactly if the pool stays on
/// its curve when it gives out that amount.
proof fn lemma_output_reaches(input: int, reserve_in: int, reserve_out: int, amount: int)
    requires
        input > 0,
        reserve_in > 0,
        reserve_out > 0,
    ensures
        amount_out(input, reserve_in, reserve_out) >= amount <==> (reserve_in
            * 10_000 + input * 9_970) * (reserve_out - amount) >= reserve_in * 10_000 * reserve_out,
{
    let out = amount_out(input, reserve_in, reserve_out);
    let counted = reserve_in * 10_000 + input * 9_970;
    law_output_of_an_input(input, reserve_in, reserve_out, out);
    if amount <= out {
        assert(counted * (reserve_out - amount) >= counted * (reserve_out - out))
            by (nonlinear_arith)
            requires
                amount <= out,
                counted > 0,
        ;
    } else {
        assert(counted * (reserve_out - amount) <= counted * (reserve_out - (out + 1)))
            by (nonlinear_arith)
            requires
                amount >= out + 1,
                counted > 0,
        ;
    }
}

/// Whether `refusal` is the right answer to a swap for an exact output: it goes
/// through exactly if the pool takes calls, the amounts are positive, the token
/// is one of the two, both reserves are positive, the output is less than its
/// reserve, two products are in range, and the most that may be paid keeps the
/// pool on its curve.
pub open spec fn swap_out_verdict(
    ledger: Ledger,
    token_out: Address,
    amount_out: int,
    max_amount_in: int,
    refusal: Option<PoolError>,
) -> bool {
    let (reserve_out, reserve_in) = reserves_by_input(ledger, token_out);
    let known = ledger.token_a == Some(token_out) || ledger.token_b == Some(token_out);
    let asked = takes_calls(ledger) && amount_out > 0 && max_amount_in > 0;
    let listed = asked && trades(ledger, token_out);
    let in_range = reserve_in * amount_out * 10_000 <= i128::MAX && (reserve_out
        - amount_out) * 9_970 <= i128::MAX;
    let enough = max_amount_in * 9_970 * (reserve_out - amount_out) >= reserve_in * 10_000
        * amount_out;
    &&& refusal is None <==> listed && amount_out < reserve_out && in_range && enough
    &&& refusal == Some(PoolError::ReentrancyDetected) <==> ledger.entry_lock == Some(true)
    &&& refusal == Some(PoolError::NotInitialized) <==> ledger.entry_lock != Some(true)
        && ledger.token_a is None
    &&& refusal == Some(PoolError::AmountMustBePositive) <==> takes_calls(ledger) && !asked
    &&& refusal == Some(PoolError::InvalidToken) <==> asked && !known
    &&& refusal == Some(PoolError::InsufficientLiquidity) <==> asked && known && !listed
    &&& refusal == Some(PoolError::InsufficientOutputReserve) <==> listed && amount_out
        >= reserve_out
    &&& refusal == Some(PoolError::ArithmeticOverflow) <==> listed && amount_out
        < reserve_out && !in_range
    &&& refusal == Some(PoolError::SlippageExceededMaxIn) <==> listed && amount_out
        < reserve_out && in_range && !enough
}

/// A swap for an exact output goes through, or is refused for the right reason,
/// on every ledger.
pub proof fn law_when_an_output_is_bought(
    ledger: Ledger,
    token_out: Address,
    amount_out: int,
    max_amount_in: int,
)
    ensures
        swap_out_verdict(
            ledger,
            token_out,
            amount_out,
            max_amount_in,
            swap_out_refusal(ledger, token_out, amount_out, max_amount_in),
        ),
{
    let (reserve_out, reserve_in) = reserves_by_input(ledger, token_out);
    if trades(ledger, token_out) && 0 < amount_out < reserve_out {
        let least = price_in(ledger, token_out, amount_out);
        law_when_an_input_fits(amount_out, reserve_in, reserve_out);
        law_input_for_an_output(amount_out, reserve_in, reserve_out, least);
        let left = reserve_out - amount_out;
        if least <= max_amount_in {
            assert(max_amount_in * 9_970 * left >= least * 9_970 * left) by (nonlinear_arith)
                requires
                    least <= max_amount_in,
                    left > 0,
            ;
        } else {
            assert(max_amount_in * 9_970 * left <= (least - 1) * 9_970 * left) by (nonlinear_arith)
                requires
                    max_amount_in <= least - 1,
                    left > 0,
            ;
        }
    }
}

/// What a deposit takes and earns. Into a pool without shares: both amounts in
/// full, for the square root of their product less the thousand that are locked
/// away. Later: as much of both as is in proportion, for the most shares that
/// do not dilute.
pub open spec fn fair_deposit(
    ledger: Ledger,
    desired_a: int,
    desired_b: int,
    a: int,
    b: int,
    shares: int,
) -> bool {
    let ra = ledger.pool_a();
    let rb = ledger.pool_b();
    let supply = ledger.supply();
    if supply == 0 {
        &&& a == desired_a
        &&& b == desired_b
        &&& shares >= -1_000
        &&& (shares + 1_000) * (shares + 1_000) <= a * b < (shares + 1_001) * (shares + 1_001)
    } else {
        &&& if desired_a * rb < (desired_b + 1) * ra {
            a == desired_a && b * ra <= desired_a * rb < (b + 1) * ra
        } else {
            b == desired_b && a * rb <= desired_b * ra < (a + 1) * rb
        }
        &&& shares * ra <= a * supply
        &&& shares * rb <= b * supply
        &&& a * supply < (shares + 1) * ra || b * supply < (shares + 1) * rb
    }
}

/// Whether the pool has something of both tokens, and shares in it.
pub open spec fn funded(ledger: Ledger) -> bool {
    ledger.pool_a() > 0 && ledger.pool_b() > 0 && ledger.supply() > 0
}

/// Whether the pool has nothing of either token, and no shares in it.
pub open spec fn empty(ledger: Ledger) -> bool {
    ledger.pool_a() == 0 && ledger.pool_b() == 0 && ledger.supply() == 0
}

/// A sound pool is funded or empty.
pub proof fn law_sound_pool_is_funded_or_empty(ledger: Ledger)
    requires
        sound(ledger),
    ensures
        funded(ledger) || empty(ledger),
{
    lemma_total_not_negative(ledger.shares);
}

/// The terms of a deposit are the fair ones, and there are no others.
pub proof fn law_terms_of_a_deposit(
    ledger: Ledger,
    desired_a: int,
    desired_b: int,
    a: int,
    b: int,
    shares: int,
)
    requires
        funded(ledger) || empty(ledger),
        desired_a > 0,
        desired_b > 0,
    ensures
        (a, b, shares) == deposit_terms(ledger, desired_a, desired_b) <==> fair_deposit(
            ledger,
            desired_a,
            desired_b,
            a,
            b,
            shares,
        ),
{
    let ra = ledger.pool_a() as int;
    let rb = ledger.pool_b() as int;
    let supply = ledger.supply() as int;
    let (x, y, s) = deposit_terms(ledger, desired_a, desired_b);
    law_amounts_of_a_deposit(ra, rb, desired_a, desired_b, a, b);
    law_amounts_of_a_deposit(ra, rb, desired_a, desired_b, x, y);
    lemma_amounts_not_negative(ra, rb, desired_a, desired_b, x, y);
    if supply == 0 {
        law_first_deposit_earns_all_it_is_worth(ra, rb, x, y, shares);
    } else {
        law_deposit_earns_all_it_is_worth(ra, rb, supply, x, y, shares);
    }
}

proof fn lemma_amounts_not_negative(
    reserve_a: int,
    reserve_b: int,
    desired_a: int,
    desired_b: int,
    a: int,
    b: int,
)
    requires
        desired_a > 0,
        desired_b > 0,
        (reserve_a > 0 && reserve_b > 0) || (reserve_a == 0 && reserve_b == 0),
        (a, b) == deposit_amounts(reserve_a, reserve_b, desired_a, desired_b),
    ensures
        a >= 0,
        b >= 0,
{
    law_amounts_of_a_deposit(reserve_a, reserve_b, desired_a, desired_b, a, b);
    if reserve_a > 0 {
        assert(b * reserve_a <= desired_a * reserve_b < (b + 1) * reserve_a ==> b >= 0)
            by (nonlinear_arith)
            requires
                reserve_a > 0,
                reserve_b > 0,
                desired_a > 0,
        ;
        assert(a * reserve_b <= desired_b * reserve_a < (a + 1) * reserve_b ==> a >= 0)
            by (nonlinear_arith)
            requires
                reserve_a > 0,
                reserve_b > 0,
                desired_b > 0,
        ;
    }
}

/// A deposit is turned away at the door as every call is, and asks for amounts
/// that are positive and minimums that are not negative.
pub proof fn law_when_a_deposit_is_asked_for(
    ledger: Ledger,
    from: Address,
    desired_a: int,
    desired_b: int,
    min_a: int,
    min_b: int,
)
    ensures
        ({
            let refusal = deposit_refusal(ledger, from, desired_a, desired_b, min_a, min_b);
            let asked = desired_a > 0 && desired_b > 0 && min_a >= 0 && min_b >= 0;
            &&& !takes_calls(ledger) ==> refusal == gate(ledger)
            &&& refusal == Some(PoolError::AmountMustBePositive) <==> takes_calls(ledger) && !asked
        }),
{
}

/// Whether `refusal` is the right answer to the first deposit: it goes through
/// exactly if the product of its amounts is below the largest `i128` and its
/// square root above the thousand that are locked away. The minimums do not
/// matter: both amounts are taken in full.
pub open spec fn first_deposit_verdict(
    desired_a: int,
    desired_b: int,
    refusal: Option<PoolError>,
) -> bool {
    let product = desired_a * desired_b;
    &&& refusal is None <==> 1_001 * 1_001 <= product < i128::MAX
    &&& refusal == Some(PoolError::ArithmeticOverflow) <==> product >= i128::MAX
    &&& refusal == Some(PoolError::InsufficientInitialLiquidity) <==> product < 1_001
        * 1_001
}

/// The first deposit into a sound pool that takes calls goes through, or is
/// refused for the right reason.
pub proof fn law_when_a_first_deposit_goes_through(
    ledger: Ledger,
    from: Address,
    desired_a: int,
    desired_b: int,
    min_a: int,
    min_b: int,
)
    requires
        sound(ledger),
        takes_calls(ledger),
        ledger.supply() == 0,
        0 < desired_a <= i128::MAX,
        0 < desired_b <= i128::MAX,
        min_a >= 0,
        min_b >= 0,
    ensures
        first_deposit_verdict(
            desired_a,
            desired_b,
            deposit_refusal(ledger, from, desired_a, desired_b, min_a, min_b),
        ),
{
    let (a, b, shares) = deposit_terms(ledger, desired_a, desired_b);
    law_terms_of_a_deposit(ledger, desired_a, desired_b, a, b, shares);
    law_when_amounts_of_a_deposit_are_refused(0, 0, desired_a, desired_b, min_a, min_b);
    law_when_a_first_deposit_earns_nothing(0, 0, desired_a, desired_b);
    let root = shares + 1_000;
    assert(ledger.held(from) == 0);
    if desired_a * desired_b < i128::MAX {
        assert(root <= 0x4000_0000_0000_0000_0000) by (nonlinear_arith)
            requires
                root * root < 0x7fff_ffff_ffff_ffff_ffff_ffff_ffff_ffff,
        ;
    }
}

/// Whether `refusal` is the right answer to a later deposit that would take `a`
/// and `b` for `shares`: it goes through exactly if the products that price it
/// are in range, the token that is cut down reaches its minimum, both sides are
/// worth a share, and the new reserves, balance and supply are in range.
pub open spec fn later_deposit_verdict(
    ledger: Ledger,
    from: Address,
    desired_a: int,
    desired_b: int,
    min_a: int,
    min_b: int,
    a: int,
    b: int,
    shares: int,
    refusal: Option<PoolError>,
) -> bool {
    let ra = ledger.pool_a();
    let rb = ledger.pool_b();
    let supply = ledger.supply();
    let cuts_b = desired_a * rb < (desired_b + 1) * ra;
    let priced = desired_a * rb <= i128::MAX && (cuts_b || desired_b * ra <= i128::MAX);
    let short_of_b = cuts_b && b < min_b;
    let short_of_a = !cuts_b && a < min_a;
    let agreed = priced && !short_of_a && !short_of_b;
    let counted = a * supply <= i128::MAX && b * supply <= i128::MAX;
    let earns = a * supply >= ra && b * supply >= rb;
    let booked = ledger.held(from) + shares <= i128::MAX && supply + shares <= i128::MAX
        && ra + a <= i128::MAX && rb + b <= i128::MAX;
    &&& refusal is None <==> agreed && counted && earns && booked
    &&& refusal == Some(PoolError::InsufficientBAmount) <==> priced && short_of_b
    &&& refusal == Some(PoolError::InsufficientAAmount) <==> priced && short_of_a
    &&& refusal == Some(PoolError::InsufficientInitialLiquidity) <==> agreed && counted
        && !earns
    &&& refusal == Some(PoolError::ArithmeticOverflow) <==> !priced || (agreed && (!counted
        || (earns && !booked)))
}

/// A later deposit into a pool that takes calls goes through, or is refused for
/// the right reason.
pub proof fn law_when_a_later_deposit_goes_through(
    ledger: Ledger,
    from: Address,
    desired_a: int,
    desired_b: int,
    min_a: int,
    min_b: int,
    a: int,
    b: int,
    shares: int,
)
    requires
        takes_calls(ledger),
        funded(ledger),
        desired_a > 0,
        desired_b > 0,
        min_a >= 0,
        min_b >= 0,
        fair_deposit(ledger, desired_a, desired_b, a, b, shares),
    ensures
        later_deposit_verdict(
            ledger,
            from,
            desired_a,
            desired_b,
            min_a,
            min_b,
            a,
            b,
            shares,
            deposit_refusal(ledger, from, desired_a, desired_b, min_a, min_b),
        ),
{
    let ra = ledger.pool_a() as int;
    let rb = ledger.pool_b() as int;
    let supply = ledger.supply() as int;
    law_terms_of_a_deposit(ledger, desired_a, desired_b, a, b, shares);
    lemma_amounts_not_negative(ra, rb, desired_a, desired_b, a, b);
    law_when_amounts_of_a_deposit_are_refused(ra, rb, desired_a, desired_b, min_a, min_b);
    law_when_a_deposit_earns_nothing(ra, rb, supply, a, b);
    let cuts_b = desired_a * rb < (desired_b + 1) * ra;
    if cuts_b {
        lemma_floor_against(desired_a * rb, ra, b, min_b);
    } else {
        lemma_floor_against(desired_b * ra, rb, a, min_a);
    }
    if a * supply >= ra && b * supply >= rb {
        assert(shares >= 0) by (nonlinear_arith)
            requires
                a * supply < (shares + 1) * ra || b * supply < (shares + 1) * rb,
                a * supply >= ra,
                b * supply >= rb,
                ra > 0,
                rb > 0,
        ;
    }
}

/// A pool that has lost one side, or has shares in nothing, has no price: no
/// deposit goes through.
pub proof fn law_when_a_pool_without_a_price_is_asked(
    ledger: Ledger,
    from: Address,
    desired_a: int,
    desired_b: int,
    min_a: int,
    min_b: int,
)
    requires
        takes_calls(ledger),
        ledger.pool_a() >= 0,
        ledger.pool_b() >= 0,
        ledger.supply() >= 0,
        ledger.pool_a() == 0 || ledger.pool_b() == 0,
        !empty(ledger),
        0 < desired_a <= i128::MAX,
        0 < desired_b <= i128::MAX,
        min_a >= 0,
        min_b >= 0,
    ensures
        deposit_refusal(ledger, from, desired_a, desired_b, min_a, min_b) == Some(
            if ledger.pool_a() == 0 {
                PoolError::ArithmeticOverflow
            } else if min_b > 0 {
                PoolError::InsufficientBAmount
            } else if ledger.supply() == 0 {
                PoolError::InsufficientInitialLiquidity
            } else {
                PoolError::ArithmeticOverflow
            },
        ),
{
    let ra = ledger.pool_a() as int;
    let rb = ledger.pool_b() as int;
    let supply = ledger.supply() as int;
    let (a, b, shares) = deposit_terms(ledger, desired_a, desired_b);
    law_when_amounts_of_a_deposit_are_refused(ra, rb, desired_a, desired_b, min_a, min_b);
    assert(desired_a * 0 == 0 && min_b * ra >= 0 && (desired_b + 1) * ra >= 0) by (nonlinear_arith)
        requires
            min_b >= 0,
            ra >= 0,
            desired_b > 0,
    ;
    if ra > 0 {
        assert((desired_b + 1) * ra > 0 && (min_b > 0 ==> min_b * ra > 0) && (min_b == 0 ==> min_b
            * ra == 0)) by (nonlinear_arith)
            requires
                ra > 0,
                desired_b > 0,
        ;
        law_amounts_of_a_deposit(ra, rb, desired_a, desired_b, a, b);
        assert(b * ra <= 0 < (b + 1) * ra ==> b == 0) by (nonlinear_arith)
            requires
                ra > 0,
        ;
        assert(a * 0 == 0);
    }
    if ra == 0 && rb == 0 {
        law_amounts_of_a_deposit(ra, rb, desired_a, desired_b, a, b);
    }
    if ra > 0 || rb == 0 {
        if supply == 0 {
            law_when_a_first_deposit_earns_nothing(ra, rb, a, b);
        } else {
            law_when_a_deposit_earns_nothing(ra, rb, supply, a, b);
        }
    }
}

/// A withdrawal returns of each reserve the most that the shares are worth.
pub proof fn law_terms_of_a_withdrawal(ledger: Ledger, shares: int, a: int, b: int)
    requires
        ledger.pool_a() >= 0,
        ledger.pool_b() >= 0,
        ledger.supply() > 0,
        shares >= 0,
    ensures
        (a, b) == withdrawal_amounts(ledger, shares) <==> {
            let supply = ledger.supply();
            &&& a * supply <= shares * ledger.pool_a() < (a + 1) * supply
            &&& b * supply <= shares * ledger.pool_b() < (b + 1) * supply
        },
{
    let supply = ledger.supply() as int;
    law_slice_is_all_the_shares_are_worth(ledger.pool_a() as int, shares, supply, a);
    law_slice_is_all_the_shares_are_worth(ledger.pool_b() as int, shares, supply, b);
}

/// Whether `refusal` is the right answer to a withdrawal: it goes through
/// exactly if the pool takes calls, the amount of shares is positive, the
/// products that price it are in range, the shares are worth something of both
/// tokens and as much as was asked for, and the caller holds them.
pub open spec fn withdrawal_verdict(
    ledger: Ledger,
    from: Address,
    shares: int,
    min_a: int,
    min_b: int,
    refusal: Option<PoolError>,
) -> bool {
    let ra = ledger.pool_a();
    let rb = ledger.pool_b();
    let supply = ledger.supply();
    let asked = takes_calls(ledger) && shares > 0;
    let in_range = shares * ra <= i128::MAX && shares * rb <= i128::MAX;
    let priced = asked && supply > 0 && in_range;
    let worth = shares * ra >= supply && shares * rb >= supply;
    let enough_a = shares * ra >= min_a * supply;
    let enough_b = shares * rb >= min_b * supply;
    let owned = shares <= ledger.held(from);
    &&& refusal is None <==> priced && worth && enough_a && enough_b && owned
    &&& refusal == Some(PoolError::ReentrancyDetected) <==> ledger.entry_lock == Some(true)
    &&& refusal == Some(PoolError::NotInitialized) <==> ledger.entry_lock != Some(true)
        && ledger.token_a is None
    &&& refusal == Some(PoolError::AmountMustBePositive) <==> takes_calls(ledger) && !asked
    &&& refusal == Some(PoolError::InsufficientLiquidity) <==> (asked && supply == 0) || (
    priced && !worth)
    &&& refusal == Some(PoolError::ArithmeticOverflow) <==> asked && supply > 0 && !in_range
    &&& refusal == Some(PoolError::InsufficientAOutput) <==> priced && worth && !enough_a
    &&& refusal == Some(PoolError::InsufficientBOutput) <==> priced && worth && enough_a
        && !enough_b
    &&& refusal == Some(PoolError::InsufficientShareBalance) <==> priced && worth
        && enough_a && enough_b && !owned
}

/// A withdrawal goes through, or is refused for the right reason, as long as
/// nothing is negative.
pub proof fn law_when_a_withdrawal_goes_through(
    ledger: Ledger,
    from: Address,
    shares: int,
    min_a: int,
    min_b: int,
)
    requires
        ledger.pool_a() >= 0,
        ledger.pool_b() >= 0,
        ledger.supply() >= 0,
    ensures
        withdrawal_verdict(
            ledger,
            from,
            shares,
            min_a,
            min_b,
            withdrawal_refusal(ledger, from, shares, min_a, min_b),
        ),
{
    let ra = ledger.pool_a() as int;
    let rb = ledger.pool_b() as int;
    let supply = ledger.supply() as int;
    if shares > 0 && supply > 0 {
        let (a, b) = withdrawal_amounts(ledger, shares);
        law_terms_of_a_withdrawal(ledger, shares, a, b);
        assert(shares * ra >= 0 && shares * rb >= 0) by (nonlinear_arith)
            requires
                shares > 0,
                ra >= 0,
                rb >= 0,
        ;
        law_when_a_quotient_of_a_product_fits(shares, ra, supply);
        law_when_a_quotient_of_a_product_fits(shares, rb, supply);
        lemma_floor_against(shares * ra, supply, a, 1);
        lemma_floor_against(shares * rb, supply, b, 1);
        lemma_floor_against(shares * ra, supply, a, min_a);
        lemma_floor_against(shares * rb, supply, b, min_b);
    }
}

} // verus!
