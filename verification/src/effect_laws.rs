//! What each call leaves on the ledger and asks of the host, entry by entry
//! and action by action.

use vstd::prelude::*;

use crate::address::Address;
use crate::events::{AddLiquidity, Event, Initialize, RemoveLiquidity, Swap};
use crate::host::{Action, Entry, EnvView, Ledger};
use crate::lp_token::{burned, minted, moved};
use crate::pool::{configured, deposited, handed_on, swapped, turned_away, withdrawn};
use crate::storage::DataKey;

verus! {

/// Whether a number is an `i128`.
pub open spec fn storable(x: int) -> bool {
    i128::MIN <= x <= i128::MAX
}

/// The balances with that of `id` made `amount`: an account without shares has
/// none.
pub open spec fn rebalanced(shares: Map<Address, i128>, id: Address, amount: int) -> Map<
    Address,
    i128,
> {
    if amount == 0 {
        shares.remove(id)
    } else {
        shares.insert(id, amount as i128)
    }
}

/// What is asked for to read the balance of `id` and make it `amount`.
pub open spec fn asks_for_balance(
    shares: Map<Address, i128>,
    id: Address,
    amount: int,
) -> Seq<Action> {
    let lasting = Action::ExtendEntry {
        key: DataKey::Share(id),
        threshold: 17_280,
        extend_to: 518_400,
    };
    let read = if shares.contains_key(id) {
        seq![lasting]
    } else {
        Seq::empty()
    };
    if amount == 0 {
        read + seq![Action::Remove(DataKey::Share(id))]
    } else {
        read + seq![Action::Write(Entry::Share(id, amount as i128)), lasting]
    }
}

/// Whether a call by `from` was refused between `env` and `after`: the ledger
/// is as it was. A call that was turned away at the door asked for nothing, and
/// any other for the authorization of its caller.
pub open spec fn is_refusal(env: EnvView, after: EnvView, from: Address) -> bool {
    &&& after.contract == env.contract
    &&& after.ledger =~= env.ledger
    &&& after.actions =~= if env.ledger.entry_lock == Some(true) || env.ledger.token_a is None {
        env.actions
    } else {
        env.actions.push(Action::RequireAuth(from))
    }
}

/// A refused call leaves the ledger alone. If it was turned away at the door it
/// asks for nothing, and otherwise for the caller's authorization.
pub proof fn law_refused_call_leaves_the_ledger(env: EnvView, from: Address)
    ensures
        is_refusal(env, turned_away(env, from), from),
{
}

/// Whether the pool got its tokens between `env` and `after`: it starts with
/// nothing of either and no shares, and reports it. Nothing else changed.
pub open spec fn is_initialize(
    env: EnvView,
    after: EnvView,
    token_a: Address,
    token_b: Address,
) -> bool {
    &&& after.contract == env.contract
    &&& after.ledger =~= (Ledger {
        token_a: Some(token_a),
        token_b: Some(token_b),
        reserve_a: Some(0),
        reserve_b: Some(0),
        total_shares: Some(0),
        entry_lock: env.ledger.entry_lock,
        shares: env.ledger.shares,
    })
    &&& after.actions =~= env.actions + seq![
        Action::Write(Entry::TokenA(token_a)),
        Action::Write(Entry::TokenB(token_b)),
        Action::Write(Entry::ReserveA(0)),
        Action::Write(Entry::ReserveB(0)),
        Action::Write(Entry::TotalShares(0)),
        Action::ExtendInstance { threshold: 17_280, extend_to: 518_400 },
        Action::Publish(Event::Initialize(Initialize { token_a, token_b })),
    ]
}

/// A pool that gets its tokens starts with nothing of either and no shares,
/// and reports it. Nothing else changes.
pub proof fn law_effect_of_initialize(env: EnvView, token_a: Address, token_b: Address)
    ensures
        is_initialize(env, configured(env, token_a, token_b), token_a, token_b),
{
}

/// Whether `amount` shares were minted between `env` and `after`: the same amount
/// was added to one balance and to the supply, and nothing else changed.
pub open spec fn is_minting(env: EnvView, after: EnvView, to: Address, amount: int) -> bool {
    let balance = env.ledger.held(to) + amount;
    let supply = env.ledger.supply() + amount;
    &&& after.contract == env.contract
    &&& after.ledger =~= (Ledger {
        total_shares: Some(supply as i128),
        shares: rebalanced(env.ledger.shares, to, balance),
        ..env.ledger
    })
    &&& after.actions =~= env.actions + asks_for_balance(env.ledger.shares, to, balance)
        + seq![Action::Write(Entry::TotalShares(supply as i128))]
}

/// Minting adds the same amount to one balance and to the supply, and changes
/// nothing else.
pub proof fn law_effect_of_minting(env: EnvView, to: Address, amount: int)
    requires
        storable(env.ledger.held(to) + amount),
        storable(env.ledger.supply() + amount),
    ensures
        is_minting(env, minted(env, to, amount), to, amount),
{
}

/// Whether `amount` shares were burned between `env` and `after`: the same amount
/// was taken from one balance and from the supply, and nothing else changed.
pub open spec fn is_burning(env: EnvView, after: EnvView, from: Address, amount: int) -> bool {
    let balance = env.ledger.held(from) - amount;
    let supply = env.ledger.supply() - amount;
    &&& after.contract == env.contract
    &&& after.ledger =~= (Ledger {
        total_shares: Some(supply as i128),
        shares: rebalanced(env.ledger.shares, from, balance),
        ..env.ledger
    })
    &&& after.actions =~= env.actions + asks_for_balance(env.ledger.shares, from, balance)
        + seq![Action::Write(Entry::TotalShares(supply as i128))]
}

/// Burning takes the same amount from one balance and from the supply, and
/// changes nothing else.
pub proof fn law_effect_of_burning(env: EnvView, from: Address, amount: int)
    requires
        storable(env.ledger.held(from) - amount),
        storable(env.ledger.supply() - amount),
    ensures
        is_burning(env, burned(env, from, amount), from, amount),
{
}

/// Whether `amount` shares were moved between `env` and `after`: one balance lost
/// what the other gained, and nothing else changed.
pub open spec fn is_moving(
    env: EnvView,
    after: EnvView,
    from: Address,
    to: Address,
    amount: int,
) -> bool {
    let given = env.ledger.held(from) - amount;
    let reached = if from == to {
        env.ledger.held(to) as int
    } else {
        env.ledger.held(to) + amount
    };
    let between = rebalanced(env.ledger.shares, from, given);
    &&& after.contract == env.contract
    &&& after.ledger =~= (Ledger {
        shares: rebalanced(between, to, reached),
        ..env.ledger
    })
    &&& after.actions =~= env.actions + asks_for_balance(env.ledger.shares, from, given)
        + asks_for_balance(between, to, reached)
}

/// Moving shares takes from one balance what it adds to the other, and changes
/// nothing else.
pub proof fn law_effect_of_moving(env: EnvView, from: Address, to: Address, amount: int)
    requires
        0 < amount <= env.ledger.held(from),
        from != to ==> env.ledger.held(to) + amount <= i128::MAX,
    ensures
        is_moving(env, moved(env, from, to, amount), from, to, amount),
{
    let given = env.ledger.held(from) - amount;
    assert(storable(given));
}

/// Whether `amount` shares were handed on between `env` and `after`: the lock was
/// taken, the authorization of the sender demanded, the shares moved, and the
/// lock given back.
pub open spec fn is_handing_on(
    env: EnvView,
    after: EnvView,
    from: Address,
    to: Address,
    amount: int,
) -> bool {
    let given = env.ledger.held(from) - amount;
    let reached = if from == to {
        env.ledger.held(to) as int
    } else {
        env.ledger.held(to) + amount
    };
    let between = rebalanced(env.ledger.shares, from, given);
    &&& after.contract == env.contract
    &&& after.ledger =~= (Ledger {
        entry_lock: Some(false),
        shares: rebalanced(between, to, reached),
        ..env.ledger
    })
    &&& after.actions =~= env.actions + seq![
        Action::Write(Entry::EntryLock(true)),
        Action::RequireAuth(from),
    ] + asks_for_balance(env.ledger.shares, from, given) + asks_for_balance(
        between,
        to,
        reached,
    ) + seq![
        Action::ExtendInstance { threshold: 17_280, extend_to: 518_400 },
        Action::Write(Entry::EntryLock(false)),
    ]
}

/// Handing shares on takes the lock, demands the sender's authorization, moves
/// the shares, and gives the lock back.
pub proof fn law_effect_of_handing_on(env: EnvView, from: Address, to: Address, amount: int)
    requires
        0 < amount <= env.ledger.held(from),
        from != to ==> env.ledger.held(to) + amount <= i128::MAX,
    ensures
        is_handing_on(env, handed_on(env, from, to, amount), from, to, amount),
{
    let inside = env.act(Action::Write(Entry::EntryLock(true))).act(Action::RequireAuth(from));
    law_effect_of_moving(inside, from, to, amount);
}

/// Whether `a` and `b` were deposited for `shares` between `env` and `after`: the
/// reserves gained what was taken, the caller the shares, and the supply the
/// shares, together with the thousand that the first deposit locks away. Only
/// then did the tokens move, from the caller to the pool.
pub open spec fn is_deposit(
    env: EnvView,
    after: EnvView,
    from: Address,
    a: int,
    b: int,
    shares: int,
) -> bool {
    let before = env.ledger;
    let balance = before.held(from) + shares;
    let supply = if before.supply() == 0 {
        1_000 + shares
    } else {
        before.supply() + shares
    };
    let reserve_a = (before.pool_a() + a) as i128;
    let reserve_b = (before.pool_b() + b) as i128;
    &&& after.contract == env.contract
    &&& after.ledger =~= (Ledger {
        token_a: before.token_a,
        token_b: before.token_b,
        reserve_a: Some(reserve_a),
        reserve_b: Some(reserve_b),
        total_shares: Some(supply as i128),
        entry_lock: Some(false),
        shares: rebalanced(before.shares, from, balance),
    })
    &&& after.actions =~= env.actions + seq![
        Action::Write(Entry::EntryLock(true)),
        Action::RequireAuth(from),
    ] + if before.supply() == 0 {
        seq![Action::Write(Entry::TotalShares(1_000))]
    } else {
        Seq::empty()
    } + asks_for_balance(before.shares, from, balance) + seq![
        Action::Write(Entry::TotalShares(supply as i128)),
        Action::Write(Entry::ReserveA(reserve_a)),
        Action::Write(Entry::ReserveB(reserve_b)),
        Action::ExtendInstance { threshold: 17_280, extend_to: 518_400 },
        Action::Transfer {
            token: before.token_a->0,
            from,
            to: env.contract,
            amount: a as i128,
        },
        Action::Transfer {
            token: before.token_b->0,
            from,
            to: env.contract,
            amount: b as i128,
        },
        Action::Publish(
            Event::AddLiquidity(
                AddLiquidity {
                    provider: from,
                    amount_a: a as i128,
                    amount_b: b as i128,
                    shares_minted: shares as i128,
                },
            ),
        ),
        Action::Write(Entry::EntryLock(false)),
    ]
}

/// A deposit adds what it takes to the reserves, credits the caller with the
/// shares that it earns, and adds them to the supply, together with the
/// thousand that the first one locks away. Only then do the tokens move, from
/// the caller to the pool.
pub proof fn law_effect_of_a_deposit(env: EnvView, from: Address, a: int, b: int, shares: int)
    requires
        storable(env.ledger.held(from) + shares),
        env.ledger.supply() != 0 ==> storable(env.ledger.supply() + shares),
        env.ledger.supply() == 0 ==> storable(1_000 + shares),
    ensures
        is_deposit(env, deposited(env, from, a, b, shares), from, a, b, shares),
{
    let inside = env.act(Action::Write(Entry::EntryLock(true))).act(Action::RequireAuth(from));
    if env.ledger.supply() == 0 {
        law_effect_of_minting(
            inside.act(Action::Write(Entry::TotalShares(1_000))),
            from,
            shares,
        );
    } else {
        law_effect_of_minting(inside, from, shares);
    }
}

/// Whether `shares` were withdrawn for `a` and `b` between `env` and `after`: the
/// reserves lost what was returned, and the caller and the supply lost the
/// shares. Only then did the tokens move, from the pool to the caller.
pub open spec fn is_withdrawal(
    env: EnvView,
    after: EnvView,
    from: Address,
    shares: int,
    a: int,
    b: int,
) -> bool {
    let before = env.ledger;
    let balance = before.held(from) - shares;
    let supply = (before.supply() - shares) as i128;
    let reserve_a = (before.pool_a() - a) as i128;
    let reserve_b = (before.pool_b() - b) as i128;
    &&& after.contract == env.contract
    &&& after.ledger =~= (Ledger {
        token_a: before.token_a,
        token_b: before.token_b,
        reserve_a: Some(reserve_a),
        reserve_b: Some(reserve_b),
        total_shares: Some(supply),
        entry_lock: Some(false),
        shares: rebalanced(before.shares, from, balance),
    })
    &&& after.actions =~= env.actions + seq![
        Action::Write(Entry::EntryLock(true)),
        Action::RequireAuth(from),
    ] + asks_for_balance(before.shares, from, balance) + seq![
        Action::Write(Entry::TotalShares(supply)),
        Action::Write(Entry::ReserveA(reserve_a)),
        Action::Write(Entry::ReserveB(reserve_b)),
        Action::ExtendInstance { threshold: 17_280, extend_to: 518_400 },
        Action::Transfer {
            token: before.token_a->0,
            from: env.contract,
            to: from,
            amount: a as i128,
        },
        Action::Transfer {
            token: before.token_b->0,
            from: env.contract,
            to: from,
            amount: b as i128,
        },
        Action::Publish(
            Event::RemoveLiquidity(
                RemoveLiquidity {
                    provider: from,
                    amount_a: a as i128,
                    amount_b: b as i128,
                    shares_burned: shares as i128,
                },
            ),
        ),
        Action::Write(Entry::EntryLock(false)),
    ]
}

/// A withdrawal takes what it returns from the reserves, and the shares from
/// the caller and the supply. Only then do the tokens move, from the pool to
/// the caller.
pub proof fn law_effect_of_a_withdrawal(env: EnvView, from: Address, shares: int, a: int, b: int)
    requires
        storable(env.ledger.held(from) - shares),
        storable(env.ledger.supply() - shares),
    ensures
        is_withdrawal(env, withdrawn(env, from, shares, a, b), from, shares, a, b),
{
    let inside = env.act(Action::Write(Entry::EntryLock(true))).act(Action::RequireAuth(from));
    law_effect_of_burning(inside, from, shares);
}

/// Whether a swap took place between `env` and `after`: one reserve gained the
/// input and the other lost the output. Only then did the tokens move: the
/// input from the caller to the pool, the output from the pool to the
/// recipient. Shares were left alone.
pub open spec fn is_swap(
    env: EnvView,
    after: EnvView,
    from: Address,
    takes_a: bool,
    amount_in: int,
    amount_out: int,
    to: Address,
) -> bool {
    let before = env.ledger;
    let (change_a, change_b) = if takes_a {
        (amount_in, -amount_out)
    } else {
        (-amount_out, amount_in)
    };
    let reserve_a = (before.pool_a() + change_a) as i128;
    let reserve_b = (before.pool_b() + change_b) as i128;
    let (token_in, token_out) = if takes_a {
        (before.token_a->0, before.token_b->0)
    } else {
        (before.token_b->0, before.token_a->0)
    };
    &&& after.contract == env.contract
    &&& after.ledger =~= (Ledger {
        token_a: before.token_a,
        token_b: before.token_b,
        reserve_a: Some(reserve_a),
        reserve_b: Some(reserve_b),
        total_shares: before.total_shares,
        entry_lock: Some(false),
        shares: before.shares,
    })
    &&& after.actions =~= env.actions + seq![
        Action::Write(Entry::EntryLock(true)),
        Action::RequireAuth(from),
    ] + if takes_a {
        seq![
            Action::Write(Entry::ReserveA(reserve_a)),
            Action::Write(Entry::ReserveB(reserve_b)),
        ]
    } else {
        seq![
            Action::Write(Entry::ReserveB(reserve_b)),
            Action::Write(Entry::ReserveA(reserve_a)),
        ]
    } + seq![
        Action::ExtendInstance { threshold: 17_280, extend_to: 518_400 },
        Action::Transfer {
            token: token_in,
            from,
            to: env.contract,
            amount: amount_in as i128,
        },
        Action::Transfer {
            token: token_out,
            from: env.contract,
            to,
            amount: amount_out as i128,
        },
        Action::Publish(
            Event::Swap(
                Swap {
                    trader: from,
                    token_in,
                    amount_in: amount_in as i128,
                    token_out,
                    amount_out: amount_out as i128,
                },
            ),
        ),
        Action::Write(Entry::EntryLock(false)),
    ]
}

/// A swap adds the input to one reserve and takes the output from the other.
/// Only then do the tokens move: the input from the caller to the pool, the
/// output from the pool to the recipient. Shares are left alone.
pub proof fn law_effect_of_a_swap(
    env: EnvView,
    from: Address,
    takes_a: bool,
    amount_in: int,
    amount_out: int,
    to: Address,
)
    ensures
        is_swap(
            env,
            swapped(env, from, takes_a, amount_in, amount_out, to),
            from,
            takes_a,
            amount_in,
            amount_out,
            to,
        ),
{
}

} // verus!
