//! The pool's ledger entries and how they are read and written.
//!
//! Instance entries hold the small state that every call needs: the token
//! addresses, the reserves, the share supply and the entry lock. What grows
//! with the number of users is stored entry by entry: each account's shares.

use vstd::prelude::*;

use crate::address::Address;
use crate::errors::PoolError;
use crate::host::{Action, Entry, Env, EnvView};

verus! {

/// Under which key an entry is stored.
#[derive(Copy, Clone, Debug, PartialEq, Eq)]
pub enum DataKey {
    TokenA,
    TokenB,
    ReserveA,
    ReserveB,
    TotalShares,
    /// The shares of one account.
    Share(Address),
    /// Holds `true` while a state-changing call is under way.
    EntryLock,
}

/// With fewer ledgers than this left, an entry's lifetime is extended: about a
/// day, at five seconds a ledger.
pub const LEDGER_THRESHOLD: u32 = 17_280;

/// How many ledgers an extended entry lives for: about thirty days.
pub const LEDGER_BUMP: u32 = 30 * LEDGER_THRESHOLD;

/// Asking to keep the instance entries alive.
pub open spec fn keep_instance() -> Action {
    Action::ExtendInstance { threshold: LEDGER_THRESHOLD, extend_to: LEDGER_BUMP }
}

/// Asking to keep the entry under `key` alive.
pub open spec fn keep_entry(key: DataKey) -> Action {
    Action::ExtendEntry { key, threshold: LEDGER_THRESHOLD, extend_to: LEDGER_BUMP }
}

/// What reading the shares of `id` leaves: an entry that exists is kept alive.
pub open spec fn share_read(env: EnvView, id: Address) -> EnvView {
    if env.ledger.shares.contains_key(id) {
        env.act(keep_entry(DataKey::Share(id)))
    } else {
        env
    }
}

/// What writing the shares of `id` leaves: no entry for an account without
/// shares, and one that is kept alive for any other.
pub open spec fn share_written(env: EnvView, id: Address, amount: i128) -> EnvView {
    if amount == 0 {
        env.act(Action::Remove(DataKey::Share(id)))
    } else {
        env.act(Action::Write(Entry::Share(id, amount))).act(keep_entry(DataKey::Share(id)))
    }
}

pub fn bump_instance(env: &mut Env)
    ensures
        final(env)@ == old(env)@.act(keep_instance()),
{
    env.act(Action::ExtendInstance { threshold: LEDGER_THRESHOLD, extend_to: LEDGER_BUMP });
}

fn bump_persistent(env: &mut Env, key: DataKey)
    ensures
        final(env)@ == old(env)@.act(keep_entry(key)),
{
    env.act(Action::ExtendEntry { key, threshold: LEDGER_THRESHOLD, extend_to: LEDGER_BUMP });
}

pub fn is_initialized(env: &Env) -> (initialized: bool)
    ensures
        initialized == env@.ledger.initialized(),
{
    env.token_a.is_some()
}

pub fn require_initialized(env: &Env) -> (result: Result<(), PoolError>)
    ensures
        result == if env@.ledger.initialized() {
            Ok::<(), PoolError>(())
        } else {
            Err(PoolError::NotInitialized)
        },
{
    if !is_initialized(env) {
        return Err(PoolError::NotInitialized);
    }
    Ok(())
}

pub fn set_token_a(env: &mut Env, token: Address)
    ensures
        final(env)@ == old(env)@.act(Action::Write(Entry::TokenA(token))),
{
    env.act(Action::Write(Entry::TokenA(token)));
}

pub fn get_token_a(env: &Env) -> (token: Address)
    requires
        env@.ledger.token_a is Some,
    ensures
        env@.ledger.token_a == Some(token),
{
    env.token_a.unwrap()
}

pub fn set_token_b(env: &mut Env, token: Address)
    ensures
        final(env)@ == old(env)@.act(Action::Write(Entry::TokenB(token))),
{
    env.act(Action::Write(Entry::TokenB(token)));
}

pub fn get_token_b(env: &Env) -> (token: Address)
    requires
        env@.ledger.token_b is Some,
    ensures
        env@.ledger.token_b == Some(token),
{
    env.token_b.unwrap()
}

pub fn get_reserve_a(env: &Env) -> (amount: i128)
    ensures
        amount == env@.ledger.pool_a(),
{
    match env.reserve_a {
        Some(amount) => amount,
        None => 0,
    }
}

pub fn set_reserve_a(env: &mut Env, amount: i128)
    ensures
        final(env)@ == old(env)@.act(Action::Write(Entry::ReserveA(amount))),
{
    env.act(Action::Write(Entry::ReserveA(amount)));
}

pub fn get_reserve_b(env: &Env) -> (amount: i128)
    ensures
        amount == env@.ledger.pool_b(),
{
    match env.reserve_b {
        Some(amount) => amount,
        None => 0,
    }
}

pub fn set_reserve_b(env: &mut Env, amount: i128)
    ensures
        final(env)@ == old(env)@.act(Action::Write(Entry::ReserveB(amount))),
{
    env.act(Action::Write(Entry::ReserveB(amount)));
}

pub fn get_total_shares(env: &Env) -> (amount: i128)
    ensures
        amount == env@.ledger.supply(),
{
    match env.total_shares {
        Some(amount) => amount,
        None => 0,
    }
}

pub fn set_total_shares(env: &mut Env, amount: i128)
    ensures
        final(env)@ == old(env)@.act(Action::Write(Entry::TotalShares(amount))),
{
    env.act(Action::Write(Entry::TotalShares(amount)));
}

/// The shares of `id`, whose entry the reading keeps alive.
pub fn get_share_balance(env: &mut Env, id: Address) -> (amount: i128)
    ensures
        amount == old(env)@.ledger.held(id),
        final(env)@ == share_read(old(env)@, id),
{
    match env.shares.get(id) {
        Some(amount) => {
            bump_persistent(env, DataKey::Share(id));
            amount
        },
        None => 0,
    }
}

/// Makes `amount` the shares of `id`. An account without shares gets no entry:
/// the one that it had is deleted.
pub fn set_share_balance(env: &mut Env, id: Address, amount: i128)
    ensures
        final(env)@ == share_written(old(env)@, id, amount),
        final(env)@.ledger.held(id) == amount,
        forall|other: Address|
            other != id ==> #[trigger] final(env)@.ledger.held(other) == old(env)@.ledger.held(
                other,
            ),
{
    if amount == 0 {
        env.act(Action::Remove(DataKey::Share(id)));
    } else {
        env.act(Action::Write(Entry::Share(id, amount)));
        bump_persistent(env, DataKey::Share(id));
    }
}

/// Takes the entry lock, which only one call at a time can hold: a token
/// contract that calls back into the pool is refused here.
pub fn enter(env: &mut Env) -> (result: Result<(), PoolError>)
    ensures
        match result {
            Ok(_) => !old(env)@.ledger.locked() && final(env)@ == old(env)@.act(
                Action::Write(Entry::EntryLock(true)),
            ),
            Err(e) => e == PoolError::ReentrancyDetected && old(env)@.ledger.locked() && final(env)@
                == old(env)@,
        },
{
    let held: bool = match env.entry_lock {
        Some(held) => held,
        None => false,
    };
    if held {
        return Err(PoolError::ReentrancyDetected);
    }
    env.act(Action::Write(Entry::EntryLock(true)));
    Ok(())
}

/// Gives the entry lock back.
pub fn exit(env: &mut Env)
    ensures
        final(env)@ == old(env)@.act(Action::Write(Entry::EntryLock(false))),
{
    env.act(Action::Write(Entry::EntryLock(false)));
}

} // verus!
