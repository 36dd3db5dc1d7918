//! What the ledger holds once an entry was stored or deleted, and how it is
//! read.

use vstd::prelude::*;

use crate::address::Address;
use crate::errors::PoolError;
use crate::host::{Action, Entry, Env, EnvView, Ledger};
use crate::storage::{share_read, share_written, DataKey};

verus! {

/// The pool's surroundings are read as they were loaded.
pub proof fn law_surroundings_are_read_as_loaded(env: Env)
    ensures
        env@.contract == env.contract,
        env@.actions == env.actions@,
        env@.ledger.token_a == env.token_a,
        env@.ledger.token_b == env.token_b,
        env@.ledger.reserve_a == env.reserve_a,
        env@.ledger.reserve_b == env.reserve_b,
        env@.ledger.total_shares == env.total_shares,
        env@.ledger.entry_lock == env.entry_lock,
        env@.ledger.shares == env.shares@,
{
}

/// An amount is read as it is stored.
pub proof fn law_stored_amounts_are_read(ledger: Ledger, id: Address)
    ensures
        ledger.reserve_a matches Some(amount) ==> ledger.pool_a() == amount,
        ledger.reserve_b matches Some(amount) ==> ledger.pool_b() == amount,
        ledger.total_shares matches Some(amount) ==> ledger.supply() == amount,
        ledger.shares.contains_key(id) ==> ledger.held(id) == ledger.shares[id],
{
}

/// An amount that is not stored is read as zero.
pub proof fn law_missing_amounts_are_zero(ledger: Ledger, id: Address)
    ensures
        ledger.reserve_a is None ==> ledger.pool_a() == 0,
        ledger.reserve_b is None ==> ledger.pool_b() == 0,
        ledger.total_shares is None ==> ledger.supply() == 0,
        !ledger.shares.contains_key(id) ==> ledger.held(id) == 0,
{
}

/// The lock is held if it is stored as such, and a pool has its tokens if token
/// A is stored.
pub proof fn law_state_is_what_is_stored(ledger: Ledger)
    ensures
        ledger.locked() <==> ledger.entry_lock == Some(true),
        ledger.initialized() <==> ledger.token_a is Some,
        ledger.paired() <==> ledger.token_a is None || ledger.token_b is Some,
{
}

/// Nothing is stored on a blank ledger.
pub proof fn law_blank_ledger_is_empty(id: Address)
    ensures
        ({
            let ledger = Ledger::blank();
            &&& ledger.token_a is None
            &&& ledger.token_b is None
            &&& ledger.reserve_a is None
            &&& ledger.reserve_b is None
            &&& ledger.total_shares is None
            &&& ledger.entry_lock is None
            &&& !ledger.shares.contains_key(id)
        }),
{
}

/// An entry that was stored is there, and every other is as it was.
pub proof fn law_stored_entry_is_there(ledger: Ledger, entry: Entry, id: Address)
    ensures
        ({
            let after = ledger.with_entry(entry);
            let own = entry matches Entry::Share(account, _) && account == id;
            &&& after.token_a == if entry is TokenA {
                Some(entry->TokenA_0)
            } else {
                ledger.token_a
            }
            &&& after.token_b == if entry is TokenB {
                Some(entry->TokenB_0)
            } else {
                ledger.token_b
            }
            &&& after.reserve_a == if entry is ReserveA {
                Some(entry->ReserveA_0)
            } else {
                ledger.reserve_a
            }
            &&& after.reserve_b == if entry is ReserveB {
                Some(entry->ReserveB_0)
            } else {
                ledger.reserve_b
            }
            &&& after.total_shares == if entry is TotalShares {
                Some(entry->TotalShares_0)
            } else {
                ledger.total_shares
            }
            &&& after.entry_lock == if entry is EntryLock {
                Some(entry->EntryLock_0)
            } else {
                ledger.entry_lock
            }
            &&& after.shares.contains_key(id) <==> own || ledger.shares.contains_key(id)
            &&& own ==> after.shares[id] == entry->Share_1
            &&& !own && ledger.shares.contains_key(id) ==> after.shares[id] == ledger.shares[id]
        }),
{
}

/// An entry that was deleted is gone, and every other is as it was.
pub proof fn law_deleted_entry_is_gone(ledger: Ledger, key: DataKey, id: Address)
    ensures
        ({
            let after = ledger.without_entry(key);
            &&& after.token_a == if key is TokenA {
                None
            } else {
                ledger.token_a
            }
            &&& after.token_b == if key is TokenB {
                None
            } else {
                ledger.token_b
            }
            &&& after.reserve_a == if key is ReserveA {
                None
            } else {
                ledger.reserve_a
            }
            &&& after.reserve_b == if key is ReserveB {
                None
            } else {
                ledger.reserve_b
            }
            &&& after.total_shares == if key is TotalShares {
                None
            } else {
                ledger.total_shares
            }
            &&& after.entry_lock == if key is EntryLock {
                None
            } else {
                ledger.entry_lock
            }
            &&& after.shares.contains_key(id) <==> ledger.shares.contains_key(id) && key
                != DataKey::Share(id)
            &&& after.shares.contains_key(id) ==> after.shares[id] == ledger.shares[id]
        }),
{
}

/// An action is asked for once and after all others, never changes where the
/// pool stands, and shows on the ledger only if it stores or deletes an entry.
pub proof fn law_action_is_asked_for_last(env: EnvView, action: Action)
    ensures
        env.act(action).contract == env.contract,
        env.act(action).actions == env.actions.push(action),
        action matches Action::Write(entry) ==> env.act(action).ledger == env.ledger.with_entry(
            entry,
        ),
        action matches Action::Remove(key) ==> env.act(action).ledger == env.ledger.without_entry(
            key,
        ),
        !(action is Write) && !(action is Remove) ==> env.act(action).ledger == env.ledger,
{
}

/// Actions are carried out one by one, in the order in which they were asked
/// for.
pub proof fn law_actions_are_carried_out_in_order(
    ledger: Ledger,
    actions: Seq<Action>,
    action: Action,
)
    ensures
        ledger.replay(Seq::empty()) == ledger,
        ledger.replay(actions.push(action)) == ledger.replay(actions).after(action),
{
    assert(actions.push(action).drop_last() =~= actions);
}

/// Reading a balance changes no entry. If the account has one, its lifetime is
/// extended, to thirty days if less than a day is left.
pub proof fn law_reading_a_balance_keeps_it_alive(env: EnvView, id: Address)
    ensures
        ({
            let after = share_read(env, id);
            &&& after.contract == env.contract
            &&& after.ledger == env.ledger
            &&& after.actions == if env.ledger.shares.contains_key(id) {
                env.actions.push(
                    Action::ExtendEntry {
                        key: DataKey::Share(id),
                        threshold: 17_280,
                        extend_to: 518_400,
                    },
                )
            } else {
                env.actions
            }
        }),
{
}

/// A balance that was written is read back. A balance of zero leaves no entry,
/// and any other leaves one whose lifetime is extended. Nothing else changes.
pub proof fn law_written_balance_is_read_back(
    env: EnvView,
    id: Address,
    amount: i128,
    other: Address,
)
    ensures
        ({
            let after = share_written(env, id, amount);
            &&& after.contract == env.contract
            &&& after.ledger == (Ledger { shares: after.ledger.shares, ..env.ledger })
            &&& after.ledger.held(id) == amount
            &&& after.ledger.shares.contains_key(id) <==> amount != 0
            &&& other != id ==> {
                &&& after.ledger.held(other) == env.ledger.held(other)
                &&& after.ledger.shares.contains_key(other) <==> env.ledger.shares.contains_key(
                    other,
                )
            }
            &&& after.actions == env.actions + if amount == 0 {
                seq![Action::Remove(DataKey::Share(id))]
            } else {
                seq![
                    Action::Write(Entry::Share(id, amount)),
                    Action::ExtendEntry {
                        key: DataKey::Share(id),
                        threshold: 17_280,
                        extend_to: 518_400,
                    },
                ]
            }
        }),
{
}

/// Every error has a code of its own, from 1 to 17.
pub proof fn law_error_codes_tell_errors_apart(one: PoolError, other: PoolError)
    ensures
        1 <= one.number() <= 17,
        one.number() == other.number() ==> one == other,
{
}

} // verus!
