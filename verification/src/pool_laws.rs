//! What holds of the pool from call to call.

use vstd::prelude::*;

use crate::address::Address;
use crate::curve_laws;
use crate::host::{EnvView, Ledger};
use crate::math::{fits, MINIMUM_LIQUIDITY};
use crate::pool::{
    configured, deposit_refusal, deposit_terms, deposited, handed_on, initialize_refusal,
    is_token_a, market_refusal, price_in, price_out, reserve_beside, reserve_of,
    share_transfer_refusal, swap_in_refusal, swap_out_refusal, swapped, withdrawal_amounts,
    withdrawal_refusal, withdrawn,
};
use crate::pricing::{amount_in_fits, lemma_ceiling};

verus! {

/// All the shares that are held by someone.
pub open spec fn total(shares: Map<Address, i128>) -> int
    decreases shares.dom().len(),
    when shares.dom().finite()
{
    if shares.dom().len() == 0 {
        0
    } else {
        let id = shares.dom().choose();
        shares[id] + total(shares.remove(id))
    }
}

/// The state that every call finds and leaves. The two tokens differ, and are
/// stored together. Either nothing has been deposited yet, or both reserves are
/// positive, and the supply is what the accounts hold plus the locked minimum.
/// Only accounts that hold shares have an entry.
pub open spec fn sound(ledger: Ledger) -> bool {
    &&& ledger.paired()
    &&& ledger.initialized() ==> ledger.token_a != ledger.token_b
    &&& !ledger.initialized() ==> ledger.supply() == 0
    &&& ledger.shares.dom().finite()
    &&& forall|id: Address| #[trigger] ledger.shares.contains_key(id) ==> ledger.shares[id] > 0
    &&& if ledger.supply() == 0 {
        ledger.pool_a() == 0 && ledger.pool_b() == 0 && ledger.shares == Map::<
            Address,
            i128,
        >::empty()
    } else {
        ledger.pool_a() > 0 && ledger.pool_b() > 0 && ledger.supply() == MINIMUM_LIQUIDITY + total(
            ledger.shares,
        )
    }
}

proof fn lemma_total_remove(shares: Map<Address, i128>, id: Address)
    requires
        shares.dom().finite(),
        shares.contains_key(id),
    ensures
        total(shares) == shares[id] + total(shares.remove(id)),
    decreases shares.dom().len(),
{
    let first = shares.dom().choose();
    if first != id {
        assert(shares.dom().contains(first)) by {
            assert(shares.dom().contains(id));
        }
        lemma_total_remove(shares.remove(first), id);
        lemma_total_remove(shares.remove(id), first);
        assert(shares.remove(first).remove(id) =~= shares.remove(id).remove(first));
    }
}

proof fn lemma_total_insert(shares: Map<Address, i128>, id: Address, amount: i128)
    requires
        shares.dom().finite(),
    ensures
        total(shares.insert(id, amount)) == total(shares.remove(id)) + amount,
        shares.contains_key(id) ==> total(shares.remove(id)) == total(shares) - shares[id],
        !shares.contains_key(id) ==> total(shares.remove(id)) == total(shares),
{
    lemma_total_remove(shares.insert(id, amount), id);
    assert(shares.insert(id, amount).remove(id) =~= shares.remove(id));
    if shares.contains_key(id) {
        lemma_total_remove(shares, id);
    } else {
        assert(shares.remove(id) =~= shares);
    }
}

/// Nobody holds more shares than everybody together.
pub(crate) proof fn lemma_held_within_total(shares: Map<Address, i128>, id: Address)
    requires
        shares.dom().finite(),
        forall|k: Address| #[trigger] shares.contains_key(k) ==> shares[k] > 0,
        shares.contains_key(id),
    ensures
        0 < shares[id] <= total(shares),
{
    lemma_total_remove(shares, id);
    lemma_total_not_negative(shares.remove(id));
}

pub(crate) proof fn lemma_total_not_negative(shares: Map<Address, i128>)
    requires
        shares.dom().finite(),
        forall|k: Address| #[trigger] shares.contains_key(k) ==> shares[k] > 0,
    ensures
        total(shares) >= 0,
    decreases shares.dom().len(),
{
    if shares.dom().len() != 0 {
        let id = shares.dom().choose();
        assert(shares.contains_key(id));
        lemma_total_not_negative(shares.remove(id));
    }
}

/// A pool that has nothing stored is sound.
pub proof fn law_blank_ledger_is_sound()
    ensures
        sound(Ledger::blank()),
{
}

/// Nobody holds more shares than there are.
pub(crate) proof fn lemma_held_within_supply(ledger: Ledger, id: Address)
    requires
        sound(ledger),
    ensures
        0 <= ledger.held(id) <= ledger.supply(),
{
    if ledger.shares.contains_key(id) {
        lemma_held_within_total(ledger.shares, id);
    } else {
        lemma_total_not_negative(ledger.shares);
    }
}

/// Two accounts together hold no more shares than there are.
pub(crate) proof fn lemma_two_held_within_supply(ledger: Ledger, one: Address, other: Address)
    requires
        sound(ledger),
        one != other,
    ensures
        0 <= ledger.held(one) + ledger.held(other) <= ledger.supply(),
{
    lemma_held_within_supply(ledger, one);
    lemma_held_within_supply(ledger, other);
    if ledger.shares.contains_key(one) && ledger.shares.contains_key(other) {
        let rest = ledger.shares.remove(one);
        lemma_total_remove(ledger.shares, one);
        assert(rest.contains_key(other) && rest[other] == ledger.shares[other]);
        lemma_held_within_total(rest, other);
    }
}

/// Giving a pool its tokens keeps it sound.
pub proof fn law_initialize_keeps_pool_sound(env: EnvView, token_a: Address, token_b: Address)
    requires
        sound(env.ledger),
        initialize_refusal(env.ledger, token_a, token_b) is None,
    ensures
        sound(configured(env, token_a, token_b).ledger),
{
}

/// A deposit keeps the pool sound. In particular, the first one locks the
/// minimum away for good.
pub proof fn law_deposit_keeps_pool_sound(
    env: EnvView,
    from: Address,
    desired_a: int,
    desired_b: int,
    min_a: int,
    min_b: int,
)
    requires
        sound(env.ledger),
        deposit_refusal(env.ledger, from, desired_a, desired_b, min_a, min_b) is None,
    ensures
        ({
            let (a, b, shares) = deposit_terms(env.ledger, desired_a, desired_b);
            let after = deposited(env, from, a, b, shares).ledger;
            &&& sound(after)
            &&& after.supply() > MINIMUM_LIQUIDITY
        }),
{
    let ledger = env.ledger;
    let (a, b, shares) = deposit_terms(ledger, desired_a, desired_b);
    let after = deposited(env, from, a, b, shares).ledger;
    assert(shares > 0);
    if ledger.supply() != 0 {
        curve_laws::law_deposit_keeps_the_price(
            ledger.pool_a() as int,
            ledger.pool_b() as int,
            desired_a,
            desired_b,
            min_a,
            min_b,
        );
        lemma_total_not_negative(ledger.shares);
    }
    if ledger.shares.contains_key(from) {
        lemma_held_within_total(ledger.shares, from);
    }
    let held = (ledger.held(from) + shares) as i128;
    assert(after.shares =~= ledger.shares.insert(from, held));
    lemma_total_insert(ledger.shares, from, held);
}

/// A deposit takes something of both tokens, and no more of either than was
/// desired. The first one takes all that was desired. A later one takes all of
/// one token, and of the other what goes with it, but not below the minimum that
/// was set for that.
pub proof fn law_deposit_stays_within_bounds(
    ledger: Ledger,
    from: Address,
    desired_a: int,
    desired_b: int,
    min_a: int,
    min_b: int,
)
    requires
        sound(ledger),
        deposit_refusal(ledger, from, desired_a, desired_b, min_a, min_b) is None,
    ensures
        ({
            let (a, b, shares) = deposit_terms(ledger, desired_a, desired_b);
            &&& shares > 0
            &&& 0 < a <= desired_a
            &&& 0 < b <= desired_b
            &&& ledger.supply() == 0 ==> a == desired_a && b == desired_b
            &&& ledger.supply() != 0 ==> (a == desired_a && b >= min_b) || (b == desired_b && a
                >= min_a)
        }),
{
    let (a, b, shares) = deposit_terms(ledger, desired_a, desired_b);
    if ledger.supply() != 0 {
        let ra = ledger.pool_a() as int;
        let rb = ledger.pool_b() as int;
        let supply = ledger.supply() as int;
        lemma_total_not_negative(ledger.shares);
        curve_laws::law_deposit_keeps_the_price(ra, rb, desired_a, desired_b, min_a, min_b);
        curve_laws::law_deposit_does_not_dilute(ra, rb, supply, a, b);
        assert(a > 0 && b > 0) by (nonlinear_arith)
            requires
                shares * ra <= a * supply,
                shares * rb <= b * supply,
                shares > 0,
                ra > 0,
                rb > 0,
                supply > 0,
        ;
    }
}

/// A withdrawal keeps the pool sound: neither reserve nor the locked minimum
/// can be withdrawn to nothing.
pub proof fn law_withdrawal_keeps_pool_sound(
    env: EnvView,
    from: Address,
    shares: int,
    min_a: int,
    min_b: int,
)
    requires
        sound(env.ledger),
        withdrawal_refusal(env.ledger, from, shares, min_a, min_b) is None,
    ensures
        ({
            let (a, b) = withdrawal_amounts(env.ledger, shares);
            let after = withdrawn(env, from, shares, a, b).ledger;
            &&& sound(after)
            &&& after.supply() >= MINIMUM_LIQUIDITY
            &&& after.pool_a() > 0
            &&& after.pool_b() > 0
        }),
{
    let ledger = env.ledger;
    let (a, b) = withdrawal_amounts(ledger, shares);
    let after = withdrawn(env, from, shares, a, b).ledger;
    assert(ledger.shares.contains_key(from));
    lemma_held_within_total(ledger.shares, from);
    curve_laws::law_withdrawal_does_not_dilute(
        ledger.pool_a() as int,
        shares,
        ledger.supply() as int,
    );
    curve_laws::law_withdrawal_does_not_dilute(
        ledger.pool_b() as int,
        shares,
        ledger.supply() as int,
    );
    let held = (ledger.held(from) - shares) as i128;
    lemma_total_insert(ledger.shares, from, held);
    if held == 0 {
        assert(after.shares =~= ledger.shares.remove(from));
        lemma_total_not_negative(ledger.shares.remove(from));
    } else {
        assert(after.shares =~= ledger.shares.insert(from, held));
        lemma_total_not_negative(ledger.shares.insert(from, held));
    }
}

/// Whatever an exact output costs, the reserve that it goes into can hold it.
pub(crate) proof fn lemma_price_in_fits(ledger: Ledger, token_out: Address, amount_out: int)
    requires
        market_refusal(ledger, token_out) is None,
        0 < amount_out < reserve_of(ledger, token_out),
        amount_in_fits(
            amount_out,
            reserve_beside(ledger, token_out) as int,
            reserve_of(ledger, token_out) as int,
        ),
    ensures
        price_in(ledger, token_out, amount_out) > 0,
        fits(reserve_beside(ledger, token_out) + price_in(ledger, token_out, amount_out)),
{
    let reserve_in = reserve_beside(ledger, token_out) as int;
    let owed = reserve_in * amount_out * 10_000;
    let unit = (reserve_of(ledger, token_out) - amount_out) * 9_970;
    assert(reserve_in <= reserve_in * amount_out) by (nonlinear_arith)
        requires
            reserve_in >= 1,
            amount_out >= 1,
    ;
    lemma_ceiling(owed, unit);
    assert(owed / unit <= owed / 9_970) by (nonlinear_arith)
        requires
            owed > 0,
            unit >= 9_970,
    ;
}

proof fn lemma_swap_keeps_pool_sound(
    env: EnvView,
    from: Address,
    takes_a: bool,
    amount_in: int,
    amount_out: int,
    to: Address,
)
    requires
        sound(env.ledger),
        env.ledger.supply() != 0,
        amount_in > 0,
        amount_out < if takes_a {
            env.ledger.pool_b()
        } else {
            env.ledger.pool_a()
        },
        amount_out > 0,
        amount_in + if takes_a {
            env.ledger.pool_a()
        } else {
            env.ledger.pool_b()
        } <= i128::MAX,
    ensures
        sound(swapped(env, from, takes_a, amount_in, amount_out, to).ledger),
{
    assert(swapped(env, from, takes_a, amount_in, amount_out, to).ledger.shares
        == env.ledger.shares);
}

/// A swap of an exact input keeps the pool sound.
pub proof fn law_swap_in_keeps_pool_sound(
    env: EnvView,
    from: Address,
    token_in: Address,
    amount_in: int,
    min_amount_out: int,
    to: Address,
)
    requires
        sound(env.ledger),
        swap_in_refusal(env.ledger, token_in, amount_in, min_amount_out) is None,
    ensures
        sound(
            swapped(
                env,
                from,
                is_token_a(env.ledger, token_in),
                amount_in,
                price_out(env.ledger, token_in, amount_in),
                to,
            ).ledger,
        ),
{
    lemma_swap_keeps_pool_sound(
        env,
        from,
        is_token_a(env.ledger, token_in),
        amount_in,
        price_out(env.ledger, token_in, amount_in),
        to,
    );
}

/// A swap for an exact output keeps the pool sound.
pub proof fn law_swap_out_keeps_pool_sound(
    env: EnvView,
    from: Address,
    token_out: Address,
    amount_out: int,
    max_amount_in: int,
    to: Address,
)
    requires
        sound(env.ledger),
        swap_out_refusal(env.ledger, token_out, amount_out, max_amount_in) is None,
    ensures
        sound(
            swapped(
                env,
                from,
                !is_token_a(env.ledger, token_out),
                price_in(env.ledger, token_out, amount_out),
                amount_out,
                to,
            ).ledger,
        ),
{
    lemma_price_in_fits(env.ledger, token_out, amount_out);
    lemma_swap_keeps_pool_sound(
        env,
        from,
        !is_token_a(env.ledger, token_out),
        price_in(env.ledger, token_out, amount_out),
        amount_out,
        to,
    );
}

/// Handing shares on keeps the pool sound.
pub proof fn law_share_transfer_keeps_pool_sound(
    env: EnvView,
    from: Address,
    to: Address,
    amount: int,
)
    requires
        sound(env.ledger),
        share_transfer_refusal(env.ledger, from, to, amount) is None,
    ensures
        sound(handed_on(env, from, to, amount).ledger),
{
    let before = env.ledger.shares;
    let after = handed_on(env, from, to, amount).ledger.shares;
    let left_over = (env.ledger.held(from) - amount) as i128;
    assert(before.contains_key(from));
    lemma_held_within_total(before, from);
    lemma_total_insert(before, from, left_over);
    let given = if left_over == 0 {
        before.remove(from)
    } else {
        before.insert(from, left_over)
    };
    assert(given.dom().finite());
    let reached = ((if given.contains_key(to) {
        given[to]
    } else {
        0
    }) + amount) as i128;
    lemma_total_insert(given, to, reached);
    assert(reached > 0) by {
        if given.contains_key(to) && to != from {
            assert(before.contains_key(to));
        }
    }
    assert(after =~= given.insert(to, reached));
}

} // verus!
