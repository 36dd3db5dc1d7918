//! The pool's share ledger.
//!
//! A share is a claim on a proportional slice of both reserves. Shares are
//! minted on deposit, burned on withdrawal, and can be handed on like any
//! other fungible asset.

use vstd::prelude::*;

use crate::address::Address;
use crate::errors::PoolError;
use crate::host::{Action, Entry, Env, EnvView, Ledger};
use crate::math::{checked_add, checked_sub, fits};
use crate::storage;
use crate::storage::{share_read, share_written};

verus! {

/// Whether `to` can be credited with `amount` new shares.
pub open spec fn mintable(ledger: Ledger, to: Address, amount: int) -> bool {
    fits(ledger.held(to) + amount) && fits(ledger.supply() + amount)
}

/// What minting `amount` shares to `to` leaves.
pub open spec fn minted(env: EnvView, to: Address, amount: int) -> EnvView {
    share_written(share_read(env, to), to, (env.ledger.held(to) + amount) as i128).act(
        Action::Write(Entry::TotalShares((env.ledger.supply() + amount) as i128)),
    )
}

/// Why burning `amount` shares of `from` is refused, if it is.
pub open spec fn burn_refusal(ledger: Ledger, from: Address, amount: int) -> Option<PoolError> {
    if ledger.held(from) < amount {
        Some(PoolError::InsufficientShareBalance)
    } else if !fits(ledger.held(from) - amount) || !fits(ledger.supply() - amount) {
        Some(PoolError::ArithmeticOverflow)
    } else {
        None
    }
}

/// What burning `amount` shares of `from` leaves.
pub open spec fn burned(env: EnvView, from: Address, amount: int) -> EnvView {
    share_written(share_read(env, from), from, (env.ledger.held(from) - amount) as i128).act(
        Action::Write(Entry::TotalShares((env.ledger.supply() - amount) as i128)),
    )
}

/// How many shares `to` holds at the moment at which `from` has given `amount`
/// away and `to` has not received it: less than before if they are the same.
pub open spec fn held_between(ledger: Ledger, from: Address, to: Address, amount: int) -> int {
    if from == to {
        ledger.held(from) - amount
    } else {
        ledger.held(to) as int
    }
}

/// Why moving `amount` shares is refused, if it is.
pub open spec fn transfer_refusal(
    ledger: Ledger,
    from: Address,
    to: Address,
    amount: int,
) -> Option<PoolError> {
    if amount <= 0 {
        Some(PoolError::AmountMustBePositive)
    } else if ledger.held(from) < amount {
        Some(PoolError::InsufficientShareBalance)
    } else if !fits(held_between(ledger, from, to, amount) + amount) {
        Some(PoolError::ArithmeticOverflow)
    } else {
        None
    }
}

/// What moving `amount` shares from one account to another leaves.
pub open spec fn moved(env: EnvView, from: Address, to: Address, amount: int) -> EnvView {
    let given = share_written(
        share_read(env, from),
        from,
        (env.ledger.held(from) - amount) as i128,
    );
    share_written(share_read(given, to), to, (given.ledger.held(to) + amount) as i128)
}

pub fn total_supply(env: &Env) -> (amount: i128)
    ensures
        amount == env@.ledger.supply(),
{
    storage::get_total_shares(env)
}

/// The shares of `id`, whose entry the reading keeps alive.
pub fn balance(env: &mut Env, id: Address) -> (amount: i128)
    ensures
        amount == old(env)@.ledger.held(id),
        final(env)@ == share_read(old(env)@, id),
{
    storage::get_share_balance(env, id)
}

/// Mints `amount` new shares to `to`. That `amount` is positive is for the
/// caller to make sure of.
pub fn mint(env: &mut Env, to: Address, amount: i128) -> (result: Result<(), PoolError>)
    ensures
        match result {
            Ok(_) => {
                &&& mintable(old(env)@.ledger, to, amount as int)
                &&& final(env)@ == minted(old(env)@, to, amount as int)
                &&& final(env)@.ledger.held(to) == old(env)@.ledger.held(to) + amount
                &&& final(env)@.ledger.supply() == old(env)@.ledger.supply() + amount
            },
            Err(e) => {
                &&& e == PoolError::ArithmeticOverflow
                &&& !mintable(old(env)@.ledger, to, amount as int)
                &&& final(env)@ == old(env)@
            },
        },
{
    let new_balance: i128 = match checked_add(env.share_of(to), amount) {
        Ok(sum) => sum,
        Err(e) => return Err(e),
    };
    let new_supply: i128 = match checked_add(storage::get_total_shares(env), amount) {
        Ok(sum) => sum,
        Err(e) => return Err(e),
    };
    let _ = storage::get_share_balance(env, to);
    storage::set_share_balance(env, to, new_balance);
    storage::set_total_shares(env, new_supply);
    Ok(())
}

/// Adds `amount` to the supply without crediting anyone: how the first deposit
/// locks its minimum away.
pub fn mint_unallocated(env: &mut Env, amount: i128) -> (result: Result<(), PoolError>)
    ensures
        match result {
            Ok(_) => {
                &&& fits(old(env)@.ledger.supply() + amount)
                &&& final(env)@ == old(env)@.act(
                    Action::Write(
                        Entry::TotalShares((old(env)@.ledger.supply() + amount) as i128),
                    ),
                )
                &&& final(env)@.ledger.supply() == old(env)@.ledger.supply() + amount
            },
            Err(e) => {
                &&& e == PoolError::ArithmeticOverflow
                &&& !fits(old(env)@.ledger.supply() + amount)
                &&& final(env)@ == old(env)@
            },
        },
{
    match checked_add(storage::get_total_shares(env), amount) {
        Ok(supply) => {
            storage::set_total_shares(env, supply);
            Ok(())
        },
        Err(e) => Err(e),
    }
}

/// Burns `amount` shares of `from`, who must hold as many.
pub fn burn(env: &mut Env, from: Address, amount: i128) -> (result: Result<(), PoolError>)
    ensures
        match result {
            Ok(_) => {
                &&& burn_refusal(old(env)@.ledger, from, amount as int) is None
                &&& final(env)@ == burned(old(env)@, from, amount as int)
                &&& final(env)@.ledger.held(from) == old(env)@.ledger.held(from) - amount
                &&& final(env)@.ledger.supply() == old(env)@.ledger.supply() - amount
            },
            Err(e) => {
                &&& burn_refusal(old(env)@.ledger, from, amount as int) == Some(e)
                &&& final(env)@ == old(env)@
            },
        },
{
    let balance: i128 = env.share_of(from);
    if balance < amount {
        return Err(PoolError::InsufficientShareBalance);
    }
    let new_balance: i128 = match checked_sub(balance, amount) {
        Ok(difference) => difference,
        Err(e) => return Err(e),
    };
    let new_supply: i128 = match checked_sub(storage::get_total_shares(env), amount) {
        Ok(difference) => difference,
        Err(e) => return Err(e),
    };
    let _ = storage::get_share_balance(env, from);
    storage::set_share_balance(env, from, new_balance);
    storage::set_total_shares(env, new_supply);
    Ok(())
}

/// What a transfer leaves `from` with and what `to` then reaches, or why it is
/// refused.
pub(crate) fn plan_transfer(env: &Env, from: Address, to: Address, amount: i128) -> (result: Result<
    (i128, i128),
    PoolError,
>)
    ensures
        match result {
            Ok((from_left, to_reached)) => {
                &&& transfer_refusal(env@.ledger, from, to, amount as int) is None
                &&& from_left == env@.ledger.held(from) - amount
                &&& to_reached == held_between(env@.ledger, from, to, amount as int) + amount
            },
            Err(e) => transfer_refusal(env@.ledger, from, to, amount as int) == Some(e),
        },
{
    if amount <= 0 {
        return Err(PoolError::AmountMustBePositive);
    }
    let from_balance: i128 = env.share_of(from);
    if from_balance < amount {
        return Err(PoolError::InsufficientShareBalance);
    }
    let from_left: i128 = from_balance - amount;
    let to_balance: i128 = if from == to {
        from_left
    } else {
        env.share_of(to)
    };
    match checked_add(to_balance, amount) {
        Ok(to_reached) => Ok((from_left, to_reached)),
        Err(e) => Err(e),
    }
}

/// Moves `amount` shares from `from`, whose authorization it demands, to `to`.
pub fn transfer(env: &mut Env, from: Address, to: Address, amount: i128) -> (result: Result<
    (),
    PoolError,
>)
    ensures
        match result {
            Ok(_) => {
                &&& transfer_refusal(old(env)@.ledger, from, to, amount as int) is None
                &&& final(env)@ == moved(
                    old(env)@.act(Action::RequireAuth(from)),
                    from,
                    to,
                    amount as int,
                )
                &&& from != to ==> final(env)@.ledger.held(from) == old(env)@.ledger.held(from)
                    - amount
                &&& from != to ==> final(env)@.ledger.held(to) == old(env)@.ledger.held(to) + amount
                &&& from == to ==> final(env)@.ledger.held(to) == old(env)@.ledger.held(to)
            },
            Err(e) => {
                &&& transfer_refusal(old(env)@.ledger, from, to, amount as int) == Some(e)
                &&& final(env)@ == old(env)@.act(Action::RequireAuth(from))
            },
        },
{
    env.act(Action::RequireAuth(from));
    let (from_left, to_reached) = match plan_transfer(env, from, to, amount) {
        Ok(balances) => balances,
        Err(e) => return Err(e),
    };
    let _ = storage::get_share_balance(env, from);
    storage::set_share_balance(env, from, from_left);
    let _ = storage::get_share_balance(env, to);
    storage::set_share_balance(env, to, to_reached);
    Ok(())
}

} // verus!
