//! What the pool sees of the ledger that hosts it.
//!
//! The pool never reaches out by itself. A call reads the ledger entries that
//! were loaded into an [`Env`] and, step by step, asks the host for
//! [`Action`]s: entries to write, lifetimes to extend, an authorization to
//! demand, tokens to move, events to publish. The host then carries them out
//! in the order in which they were asked for, and undoes all of them when the
//! call is refused.

use vstd::prelude::*;

use crate::address::Address;
use crate::events::Event;
use crate::shares::ShareBook;
use crate::storage::DataKey;

verus! {

/// One ledger entry of the pool, with the value that it holds.
#[derive(Copy, Clone, Debug, PartialEq, Eq)]
pub enum Entry {
    TokenA(Address),
    TokenB(Address),
    ReserveA(i128),
    ReserveB(i128),
    TotalShares(i128),
    Share(Address, i128),
    EntryLock(bool),
}

/// One thing that the pool asks of its host.
#[derive(Copy, Clone, Debug, PartialEq, Eq)]
pub enum Action {
    /// Store an entry, in place of the one that was there under its key.
    Write(Entry),
    /// Delete the entry under a key.
    Remove(DataKey),
    /// If fewer than `threshold` ledgers are left to the pool's instance
    /// entries, let them live for `extend_to` from now.
    ExtendInstance { threshold: u32, extend_to: u32 },
    /// If fewer than `threshold` ledgers are left to the entry under `key`,
    /// let it live for `extend_to` from now.
    ExtendEntry { key: DataKey, threshold: u32, extend_to: u32 },
    /// Fail the whole call unless this address has authorized it.
    RequireAuth(Address),
    /// Have the contract `token` move `amount` from one holder to another.
    Transfer { token: Address, from: Address, to: Address, amount: i128 },
    /// Publish an event.
    Publish(Event),
}

/// The pool's ledger entries. Whatever is `None`, or no key of `shares`, is
/// not stored.
#[verifier::ext_equal]
pub struct Ledger {
    pub token_a: Option<Address>,
    pub token_b: Option<Address>,
    pub reserve_a: Option<i128>,
    pub reserve_b: Option<i128>,
    pub total_shares: Option<i128>,
    pub entry_lock: Option<bool>,
    pub shares: Map<Address, i128>,
}

/// An amount that counts as zero while it is not stored.
pub open spec fn or_zero(stored: Option<i128>) -> i128 {
    match stored {
        Some(amount) => amount,
        None => 0,
    }
}

impl Ledger {
    /// The ledger on which no pool has stored anything.
    pub open spec fn blank() -> Ledger {
        Ledger {
            token_a: None,
            token_b: None,
            reserve_a: None,
            reserve_b: None,
            total_shares: None,
            entry_lock: None,
            shares: Map::empty(),
        }
    }

    /// How much of token A belongs to the pool.
    pub open spec fn pool_a(self) -> i128 {
        or_zero(self.reserve_a)
    }

    /// How much of token B belongs to the pool.
    pub open spec fn pool_b(self) -> i128 {
        or_zero(self.reserve_b)
    }

    /// How many shares exist.
    pub open spec fn supply(self) -> i128 {
        or_zero(self.total_shares)
    }

    /// How many shares `id` holds.
    pub open spec fn held(self, id: Address) -> i128 {
        if self.shares.contains_key(id) {
            self.shares[id]
        } else {
            0
        }
    }

    /// Whether a state-changing call is under way.
    pub open spec fn locked(self) -> bool {
        self.entry_lock == Some(true)
    }

    /// Whether the pool has been given its tokens.
    pub open spec fn initialized(self) -> bool {
        self.token_a is Some
    }

    /// Token A is never stored without token B.
    pub open spec fn paired(self) -> bool {
        self.token_a is Some ==> self.token_b is Some
    }

    /// The ledger with `entry` stored.
    pub open spec fn with_entry(self, entry: Entry) -> Ledger {
        match entry {
            Entry::TokenA(token) => Ledger { token_a: Some(token), ..self },
            Entry::TokenB(token) => Ledger { token_b: Some(token), ..self },
            Entry::ReserveA(amount) => Ledger { reserve_a: Some(amount), ..self },
            Entry::ReserveB(amount) => Ledger { reserve_b: Some(amount), ..self },
            Entry::TotalShares(amount) => Ledger { total_shares: Some(amount), ..self },
            Entry::Share(id, amount) => Ledger { shares: self.shares.insert(id, amount), ..self },
            Entry::EntryLock(held) => Ledger { entry_lock: Some(held), ..self },
        }
    }

    /// The ledger with nothing stored under `key`.
    pub open spec fn without_entry(self, key: DataKey) -> Ledger {
        match key {
            DataKey::TokenA => Ledger { token_a: None, ..self },
            DataKey::TokenB => Ledger { token_b: None, ..self },
            DataKey::ReserveA => Ledger { reserve_a: None, ..self },
            DataKey::ReserveB => Ledger { reserve_b: None, ..self },
            DataKey::TotalShares => Ledger { total_shares: None, ..self },
            DataKey::Share(id) => Ledger { shares: self.shares.remove(id), ..self },
            DataKey::EntryLock => Ledger { entry_lock: None, ..self },
        }
    }

    /// The ledger once the host has carried out `action`. Only storing and
    /// deleting entries shows on it.
    pub open spec fn after(self, action: Action) -> Ledger {
        match action {
            Action::Write(entry) => self.with_entry(entry),
            Action::Remove(key) => self.without_entry(key),
            _ => self,
        }
    }

    /// The ledger once the host has carried out `actions`, first to last.
    pub open spec fn replay(self, actions: Seq<Action>) -> Ledger
        decreases actions.len(),
    {
        if actions.len() == 0 {
            self
        } else {
            self.replay(actions.drop_last()).after(actions.last())
        }
    }
}

/// A pool instance on its ledger, together with all that it has asked for.
#[verifier::ext_equal]
pub struct EnvView {
    pub contract: Address,
    pub ledger: Ledger,
    pub actions: Seq<Action>,
}

impl EnvView {
    /// What there is after one more action.
    pub open spec fn act(self, action: Action) -> EnvView {
        EnvView {
            contract: self.contract,
            ledger: self.ledger.after(action),
            actions: self.actions.push(action),
        }
    }
}

/// The pool's surroundings during a call.
#[derive(Debug)]
pub struct Env {
    /// The address of the pool itself.
    pub contract: Address,
    pub token_a: Option<Address>,
    pub token_b: Option<Address>,
    pub reserve_a: Option<i128>,
    pub reserve_b: Option<i128>,
    pub total_shares: Option<i128>,
    pub entry_lock: Option<bool>,
    pub shares: ShareBook,
    /// What the pool has asked of its host so far, oldest first.
    pub actions: Vec<Action>,
}

impl View for Env {
    type V = EnvView;

    open spec fn view(&self) -> EnvView {
        EnvView {
            contract: self.contract,
            ledger: Ledger {
                token_a: self.token_a,
                token_b: self.token_b,
                reserve_a: self.reserve_a,
                reserve_b: self.reserve_b,
                total_shares: self.total_shares,
                entry_lock: self.entry_lock,
                shares: self.shares@,
            },
            actions: self.actions@,
        }
    }
}

impl Env {
    /// The surroundings of a pool at the address `contract` that has nothing
    /// stored and has asked for nothing.
    pub fn new(contract: Address) -> (env: Self)
        ensures
            env@ == (EnvView { contract, ledger: Ledger::blank(), actions: Seq::empty() }),
    {
        Env {
            contract,
            token_a: None,
            token_b: None,
            reserve_a: None,
            reserve_b: None,
            total_shares: None,
            entry_lock: None,
            shares: ShareBook::new(),
            actions: Vec::new(),
        }
    }

    /// Takes note of an entry that the ledger already holds.
    pub fn load(&mut self, entry: Entry)
        ensures
            final(self)@ == (EnvView {
                ledger: old(self)@.ledger.with_entry(entry),
                ..old(self)@
            }),
    {
        match entry {
            Entry::TokenA(token) => {
                self.token_a = Some(token);
            },
            Entry::TokenB(token) => {
                self.token_b = Some(token);
            },
            Entry::ReserveA(amount) => {
                self.reserve_a = Some(amount);
            },
            Entry::ReserveB(amount) => {
                self.reserve_b = Some(amount);
            },
            Entry::TotalShares(amount) => {
                self.total_shares = Some(amount);
            },
            Entry::Share(id, amount) => {
                self.shares.set(id, amount);
            },
            Entry::EntryLock(held) => {
                self.entry_lock = Some(held);
            },
        }
    }

    /// Forgets the entry under `key`.
    fn unload(&mut self, key: DataKey)
        ensures
            final(self)@ == (EnvView {
                ledger: old(self)@.ledger.without_entry(key),
                ..old(self)@
            }),
    {
        match key {
            DataKey::TokenA => {
                self.token_a = None;
            },
            DataKey::TokenB => {
                self.token_b = None;
            },
            DataKey::ReserveA => {
                self.reserve_a = None;
            },
            DataKey::ReserveB => {
                self.reserve_b = None;
            },
            DataKey::TotalShares => {
                self.total_shares = None;
            },
            DataKey::Share(id) => {
                self.shares.remove(id);
            },
            DataKey::EntryLock => {
                self.entry_lock = None;
            },
        }
    }

    /// Asks the host for `action`, and sees the ledger as it will then be.
    pub fn act(&mut self, action: Action)
        ensures
            final(self)@ == old(self)@.act(action),
    {
        match action {
            Action::Write(entry) => self.load(entry),
            Action::Remove(key) => self.unload(key),
            _ => {},
        }
        self.actions.push(action);
    }

    /// How many shares `id` holds.
    pub fn share_of(&self, id: Address) -> (amount: i128)
        ensures
            amount == self@.ledger.held(id),
    {
        match self.shares.get(id) {
            Some(amount) => amount,
            None => 0,
        }
    }
}

} // verus!
