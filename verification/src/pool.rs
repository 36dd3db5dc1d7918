//! The pool's entry points.
//!
//! Every state-changing call goes the same way. It takes the entry lock,
//! demands the caller's authorization, settles its effects on the ledger, and
//! only then has the token contracts move funds; last of all it gives the lock
//! back. A call that is refused leaves the ledger as it was. It may still have
//! demanded the authorization, since the host is to report a missing one before
//! anything that is wrong with the amounts.

use vstd::prelude::*;

use crate::address::Address;
use crate::errors::PoolError;
use crate::events;
use crate::events::{AddLiquidity, Event, Initialize, RemoveLiquidity, Swap};
use crate::host::{Action, Entry, Env, EnvView, Ledger};
use crate::lp_token;
use crate::lp_token::{burn_refusal, burned, minted, moved, transfer_refusal};
use crate::math::{checked_add, checked_mul_div, checked_sub, fits, mul_div_fits, MINIMUM_LIQUIDITY};
use crate::pricing::{
    amount_in, amount_in_fits, amount_out, amount_out_fits, deposit_amounts,
    deposit_amounts_refusal, shares_earned, shares_earned_refusal, slice_of,
};
use crate::storage;
use crate::storage::{keep_instance, share_read};

verus! {

/// A constant-product (`x * y = k`) market maker for one pair of tokens. Its
/// state lives in the [`Env`] that every call is given.
pub struct ConstantProductPool;

/// Why a guarded call is refused at the door, if it is.
pub open spec fn gate(ledger: Ledger) -> Option<PoolError> {
    if ledger.locked() {
        Some(PoolError::ReentrancyDetected)
    } else if !ledger.initialized() {
        Some(PoolError::NotInitialized)
    } else {
        None
    }
}

/// The pool with its lock taken and the authorization of `from` demanded.
pub open spec fn entered(env: EnvView, from: Address) -> EnvView {
    env.act(Action::Write(Entry::EntryLock(true))).act(Action::RequireAuth(from))
}

/// The pool with its lock given back.
pub open spec fn left(env: EnvView) -> EnvView {
    env.act(Action::Write(Entry::EntryLock(false)))
}

/// What a refused call by `from` leaves: nothing, if it was refused at the
/// door, and otherwise only the demand for authorization.
pub open spec fn turned_away(env: EnvView, from: Address) -> EnvView {
    if gate(env.ledger) is Some {
        env
    } else {
        env.act(Action::RequireAuth(from))
    }
}

/// Why `initialize` is refused, if it is.
pub open spec fn initialize_refusal(ledger: Ledger, token_a: Address, token_b: Address) -> Option<
    PoolError,
> {
    if ledger.initialized() {
        Some(PoolError::AlreadyInitialized)
    } else if token_a == token_b {
        Some(PoolError::IdenticalTokens)
    } else {
        None
    }
}

/// What `initialize` leaves.
pub open spec fn configured(env: EnvView, token_a: Address, token_b: Address) -> EnvView {
    env.act(Action::Write(Entry::TokenA(token_a))).act(Action::Write(Entry::TokenB(token_b))).act(
        Action::Write(Entry::ReserveA(0)),
    ).act(Action::Write(Entry::ReserveB(0))).act(Action::Write(Entry::TotalShares(0))).act(
        keep_instance(),
    ).act(Action::Publish(Event::Initialize(Initialize { token_a, token_b })))
}

/// What a deposit takes of each token, and how many shares it earns.
pub open spec fn deposit_terms(ledger: Ledger, desired_a: int, desired_b: int) -> (int, int, int) {
    let (a, b) = deposit_amounts(
        ledger.pool_a() as int,
        ledger.pool_b() as int,
        desired_a,
        desired_b,
    );
    (
        a,
        b,
        shares_earned(
            ledger.pool_a() as int,
            ledger.pool_b() as int,
            ledger.supply() as int,
            a,
            b,
        ),
    )
}

/// The shares that a deposit locks away: the minimum, if it is the first.
pub open spec fn shares_locked(ledger: Ledger) -> int {
    if ledger.supply() == 0 {
        MINIMUM_LIQUIDITY as int
    } else {
        0
    }
}

/// Why a deposit is refused, if it is.
pub open spec fn deposit_refusal(
    ledger: Ledger,
    from: Address,
    desired_a: int,
    desired_b: int,
    min_a: int,
    min_b: int,
) -> Option<PoolError> {
    let ra = ledger.pool_a() as int;
    let rb = ledger.pool_b() as int;
    let supply = ledger.supply() as int;
    let (a, b, shares) = deposit_terms(ledger, desired_a, desired_b);
    if gate(ledger) is Some {
        gate(ledger)
    } else if desired_a <= 0 || desired_b <= 0 || min_a < 0 || min_b < 0 {
        Some(PoolError::AmountMustBePositive)
    } else if deposit_amounts_refusal(ra, rb, desired_a, desired_b, min_a, min_b) is Some {
        deposit_amounts_refusal(ra, rb, desired_a, desired_b, min_a, min_b)
    } else if shares_earned_refusal(ra, rb, supply, a, b) is Some {
        shares_earned_refusal(ra, rb, supply, a, b)
    } else if !fits(ledger.held(from) + shares) || !fits(supply + shares_locked(ledger) + shares)
        || !fits(ra + a) || !fits(rb + b) {
        Some(PoolError::ArithmeticOverflow)
    } else {
        None
    }
}

/// What a deposit settles on the ledger.
pub open spec fn deposit_settled(
    env: EnvView,
    from: Address,
    a: int,
    b: int,
    shares: int,
) -> EnvView {
    let locked_away = if env.ledger.supply() == 0 {
        env.act(Action::Write(Entry::TotalShares(MINIMUM_LIQUIDITY)))
    } else {
        env
    };
    minted(locked_away, from, shares).act(
        Action::Write(Entry::ReserveA((env.ledger.pool_a() + a) as i128)),
    ).act(Action::Write(Entry::ReserveB((env.ledger.pool_b() + b) as i128))).act(keep_instance())
}

/// What a deposit has the token contracts do, and what it reports.
pub open spec fn deposit_paid(env: EnvView, from: Address, a: int, b: int, shares: int) -> EnvView {
    env.act(
        Action::Transfer {
            token: env.ledger.token_a->0,
            from,
            to: env.contract,
            amount: a as i128,
        },
    ).act(
        Action::Transfer {
            token: env.ledger.token_b->0,
            from,
            to: env.contract,
            amount: b as i128,
        },
    ).act(
        Action::Publish(
            Event::AddLiquidity(
                AddLiquidity {
                    provider: from,
                    amount_a: a as i128,
                    amount_b: b as i128,
                    shares_minted: shares as i128,
                },
            ),
        ),
    )
}

/// What a deposit leaves.
pub open spec fn deposited(env: EnvView, from: Address, a: int, b: int, shares: int) -> EnvView {
    left(
        deposit_paid(
            deposit_settled(entered(env, from), from, a, b, shares),
            from,
            a,
            b,
            shares,
        ),
    )
}

/// What a withdrawal of `shares` returns of each token.
pub open spec fn withdrawal_amounts(ledger: Ledger, shares: int) -> (int, int) {
    (
        slice_of(ledger.pool_a() as int, shares, ledger.supply() as int),
        slice_of(ledger.pool_b() as int, shares, ledger.supply() as int),
    )
}

/// Why a withdrawal is refused, if it is.
pub open spec fn withdrawal_refusal(
    ledger: Ledger,
    from: Address,
    shares: int,
    min_a: int,
    min_b: int,
) -> Option<PoolError> {
    let ra = ledger.pool_a() as int;
    let rb = ledger.pool_b() as int;
    let supply = ledger.supply() as int;
    let (a, b) = withdrawal_amounts(ledger, shares);
    if gate(ledger) is Some {
        gate(ledger)
    } else if shares <= 0 {
        Some(PoolError::AmountMustBePositive)
    } else if supply == 0 {
        Some(PoolError::InsufficientLiquidity)
    } else if !mul_div_fits(shares, ra, supply) || !mul_div_fits(shares, rb, supply) {
        Some(PoolError::ArithmeticOverflow)
    } else if a <= 0 || b <= 0 {
        Some(PoolError::InsufficientLiquidity)
    } else if a < min_a {
        Some(PoolError::InsufficientAOutput)
    } else if b < min_b {
        Some(PoolError::InsufficientBOutput)
    } else if burn_refusal(ledger, from, shares) is Some {
        burn_refusal(ledger, from, shares)
    } else if !fits(ra - a) || !fits(rb - b) {
        Some(PoolError::ArithmeticOverflow)
    } else {
        None
    }
}

/// What a withdrawal settles on the ledger.
pub open spec fn withdrawal_settled(
    env: EnvView,
    from: Address,
    shares: int,
    a: int,
    b: int,
) -> EnvView {
    burned(env, from, shares).act(
        Action::Write(Entry::ReserveA((env.ledger.pool_a() - a) as i128)),
    ).act(Action::Write(Entry::ReserveB((env.ledger.pool_b() - b) as i128))).act(keep_instance())
}

/// What a withdrawal has the token contracts do, and what it reports.
pub open spec fn withdrawal_paid(
    env: EnvView,
    from: Address,
    shares: int,
    a: int,
    b: int,
) -> EnvView {
    env.act(
        Action::Transfer {
            token: env.ledger.token_a->0,
            from: env.contract,
            to: from,
            amount: a as i128,
        },
    ).act(
        Action::Transfer {
            token: env.ledger.token_b->0,
            from: env.contract,
            to: from,
            amount: b as i128,
        },
    ).act(
        Action::Publish(
            Event::RemoveLiquidity(
                RemoveLiquidity {
                    provider: from,
                    amount_a: a as i128,
                    amount_b: b as i128,
                    shares_burned: shares as i128,
                },
            ),
        ),
    )
}

/// What a withdrawal leaves.
pub open spec fn withdrawn(env: EnvView, from: Address, shares: int, a: int, b: int) -> EnvView {
    left(
        withdrawal_paid(
            withdrawal_settled(entered(env, from), from, shares, a, b),
            from,
            shares,
            a,
            b,
        ),
    )
}

/// Whether `token` is one of the pool's two.
pub open spec fn pool_token(ledger: Ledger, token: Address) -> bool {
    Some(token) == ledger.token_a || Some(token) == ledger.token_b
}

/// Whether `token` is the pool's token A.
pub open spec fn is_token_a(ledger: Ledger, token: Address) -> bool {
    Some(token) == ledger.token_a
}

/// How much of `token`, one of the pool's two, belongs to the pool.
pub open spec fn reserve_of(ledger: Ledger, token: Address) -> i128 {
    if is_token_a(ledger, token) {
        ledger.pool_a()
    } else {
        ledger.pool_b()
    }
}

/// How much of the other token belongs to the pool.
pub open spec fn reserve_beside(ledger: Ledger, token: Address) -> i128 {
    if is_token_a(ledger, token) {
        ledger.pool_b()
    } else {
        ledger.pool_a()
    }
}

/// What `amount_in` of `token_in` buys, before any check.
pub open spec fn price_out(ledger: Ledger, token_in: Address, amount_in: int) -> int {
    amount_out(
        amount_in,
        reserve_of(ledger, token_in) as int,
        reserve_beside(ledger, token_in) as int,
    )
}

/// What `amount_out` of `token_out` costs, before any check.
pub open spec fn price_in(ledger: Ledger, token_out: Address, amount_out: int) -> int {
    amount_in(
        amount_out,
        reserve_beside(ledger, token_out) as int,
        reserve_of(ledger, token_out) as int,
    )
}

/// Why no trade against `token` is possible, if none is.
pub open spec fn market_refusal(ledger: Ledger, token: Address) -> Option<PoolError> {
    if !pool_token(ledger, token) {
        Some(PoolError::InvalidToken)
    } else if ledger.pool_a() <= 0 || ledger.pool_b() <= 0 {
        Some(PoolError::InsufficientLiquidity)
    } else {
        None
    }
}

/// Why a quote is refused, if it is.
pub open spec fn quote_refusal(ledger: Ledger, token_in: Address, amount_in: int) -> Option<
    PoolError,
> {
    if !ledger.initialized() {
        Some(PoolError::NotInitialized)
    } else if amount_in <= 0 {
        Some(PoolError::AmountMustBePositive)
    } else if market_refusal(ledger, token_in) is Some {
        market_refusal(ledger, token_in)
    } else if !amount_out_fits(
        amount_in,
        reserve_of(ledger, token_in) as int,
        reserve_beside(ledger, token_in) as int,
    ) {
        Some(PoolError::ArithmeticOverflow)
    } else {
        None
    }
}

/// Why a swap of an exact input is refused, if it is.
pub open spec fn swap_in_refusal(
    ledger: Ledger,
    token_in: Address,
    amount_in: int,
    min_amount_out: int,
) -> Option<PoolError> {
    let out = price_out(ledger, token_in, amount_in);
    if gate(ledger) is Some {
        gate(ledger)
    } else if amount_in <= 0 || min_amount_out < 0 {
        Some(PoolError::AmountMustBePositive)
    } else if quote_refusal(ledger, token_in, amount_in) is Some {
        quote_refusal(ledger, token_in, amount_in)
    } else if out <= 0 || out >= reserve_beside(ledger, token_in) {
        Some(PoolError::InsufficientOutputReserve)
    } else if out < min_amount_out {
        Some(PoolError::SlippageExceededMinOut)
    } else {
        None
    }
}

/// Why a swap for an exact output is refused, if it is.
pub open spec fn swap_out_refusal(
    ledger: Ledger,
    token_out: Address,
    amount_out: int,
    max_amount_in: int,
) -> Option<PoolError> {
    if gate(ledger) is Some {
        gate(ledger)
    } else if amount_out <= 0 || max_amount_in <= 0 {
        Some(PoolError::AmountMustBePositive)
    } else if market_refusal(ledger, token_out) is Some {
        market_refusal(ledger, token_out)
    } else if amount_out >= reserve_of(ledger, token_out) {
        Some(PoolError::InsufficientOutputReserve)
    } else if !amount_in_fits(
        amount_out,
        reserve_beside(ledger, token_out) as int,
        reserve_of(ledger, token_out) as int,
    ) {
        Some(PoolError::ArithmeticOverflow)
    } else if price_in(ledger, token_out, amount_out) > max_amount_in {
        Some(PoolError::SlippageExceededMaxIn)
    } else {
        None
    }
}

/// Which token a swap takes: token A, or token B.
pub open spec fn taken_token(ledger: Ledger, takes_a: bool) -> Address {
    if takes_a {
        ledger.token_a->0
    } else {
        ledger.token_b->0
    }
}

/// What a swap settles on the ledger: the reserve of the token that comes in,
/// then that of the token that goes out.
pub open spec fn swap_settled(
    env: EnvView,
    takes_a: bool,
    amount_in: int,
    amount_out: int,
) -> EnvView {
    if takes_a {
        env.act(Action::Write(Entry::ReserveA((env.ledger.pool_a() + amount_in) as i128))).act(
            Action::Write(Entry::ReserveB((env.ledger.pool_b() - amount_out) as i128)),
        ).act(keep_instance())
    } else {
        env.act(Action::Write(Entry::ReserveB((env.ledger.pool_b() + amount_in) as i128))).act(
            Action::Write(Entry::ReserveA((env.ledger.pool_a() - amount_out) as i128)),
        ).act(keep_instance())
    }
}

/// What a swap has the token contracts do, and what it reports.
pub open spec fn swap_paid(
    env: EnvView,
    from: Address,
    takes_a: bool,
    amount_in: int,
    amount_out: int,
    to: Address,
) -> EnvView {
    let token_in = taken_token(env.ledger, takes_a);
    let token_out = taken_token(env.ledger, !takes_a);
    env.act(
        Action::Transfer { token: token_in, from, to: env.contract, amount: amount_in as i128 },
    ).act(
        Action::Transfer {
            token: token_out,
            from: env.contract,
            to,
            amount: amount_out as i128,
        },
    ).act(
        Action::Publish(
            Event::Swap(
                Swap {
                    trader: from,
                    token_in,
                    amount_in: amount_in as i128,
                    token_out,
                    amount_out: amount_out as i128,
                },
            ),
        ),
    )
}

/// What a swap leaves that takes `amount_in` of one token and gives
/// `amount_out` of the other.
pub open spec fn swapped(
    env: EnvView,
    from: Address,
    takes_a: bool,
    amount_in: int,
    amount_out: int,
    to: Address,
) -> EnvView {
    left(
        swap_paid(
            swap_settled(entered(env, from), takes_a, amount_in, amount_out),
            from,
            takes_a,
            amount_in,
            amount_out,
            to,
        ),
    )
}

/// Why handing shares on is refused, if it is.
pub open spec fn share_transfer_refusal(
    ledger: Ledger,
    from: Address,
    to: Address,
    amount: int,
) -> Option<PoolError> {
    if gate(ledger) is Some {
        gate(ledger)
    } else {
        transfer_refusal(ledger, from, to, amount)
    }
}

/// What handing shares on leaves.
pub open spec fn handed_on(env: EnvView, from: Address, to: Address, amount: int) -> EnvView {
    left(moved(entered(env, from), from, to, amount).act(keep_instance()))
}

impl ConstantProductPool {
    /// Gives a fresh pool its pair of tokens. This happens once, and takes no
    /// deposit: [`Self::add_liquidity`] does.
    pub fn initialize(env: &mut Env, token_a: Address, token_b: Address) -> (result: Result<
        (),
        PoolError,
    >)
        ensures
            match result {
                Ok(_) => {
                    &&& initialize_refusal(old(env)@.ledger, token_a, token_b) is None
                    &&& final(env)@ == configured(old(env)@, token_a, token_b)
                    &&& final(env)@.ledger.token_a == Some(token_a)
                    &&& final(env)@.ledger.token_b == Some(token_b)
                    &&& final(env)@.ledger.pool_a() == 0
                    &&& final(env)@.ledger.pool_b() == 0
                    &&& final(env)@.ledger.supply() == 0
                    &&& final(env)@.ledger.paired()
                },
                Err(e) => {
                    &&& initialize_refusal(old(env)@.ledger, token_a, token_b) == Some(e)
                    &&& final(env)@ == old(env)@
                },
            },
    {
        if storage::is_initialized(env) {
            return Err(PoolError::AlreadyInitialized);
        }
        if token_a == token_b {
            return Err(PoolError::IdenticalTokens);
        }
        storage::set_token_a(env, token_a);
        storage::set_token_b(env, token_b);
        storage::set_reserve_a(env, 0);
        storage::set_reserve_b(env, 0);
        storage::set_total_shares(env, 0);
        storage::bump_instance(env);
        events::initialize(env, token_a, token_b);
        Ok(())
    }

    /// Whether a guarded call may go in at all.
    fn check_gate(env: &Env) -> (result: Result<(), PoolError>)
        ensures
            match result {
                Ok(_) => gate(env@.ledger) is None,
                Err(e) => gate(env@.ledger) == Some(e),
            },
    {
        match env.entry_lock {
            Some(true) => Err(PoolError::ReentrancyDetected),
            _ => storage::require_initialized(env),
        }
    }

    /// Takes the lock and demands the authorization of `from`.
    fn open(env: &mut Env, from: Address)
        requires
            gate(old(env)@.ledger) is None,
        ensures
            final(env)@ == entered(old(env)@, from),
    {
        let _ = storage::enter(env);
        env.act(Action::RequireAuth(from));
    }

    /// What a deposit takes and earns, or why it is refused.
    fn plan_deposit(
        env: &Env,
        from: Address,
        amount_a_desired: i128,
        amount_b_desired: i128,
        amount_a_min: i128,
        amount_b_min: i128,
    ) -> (result: Result<(i128, i128, i128), PoolError>)
        requires
            gate(env@.ledger) is None,
        ensures
            match result {
                Ok((a, b, shares)) => {
                    &&& deposit_refusal(
                        env@.ledger,
                        from,
                        amount_a_desired as int,
                        amount_b_desired as int,
                        amount_a_min as int,
                        amount_b_min as int,
                    ) is None
                    &&& (a as int, b as int, shares as int) == deposit_terms(
                        env@.ledger,
                        amount_a_desired as int,
                        amount_b_desired as int,
                    )
                },
                Err(e) => deposit_refusal(
                    env@.ledger,
                    from,
                    amount_a_desired as int,
                    amount_b_desired as int,
                    amount_a_min as int,
                    amount_b_min as int,
                ) == Some(e),
            },
    {
        if amount_a_desired <= 0 || amount_b_desired <= 0 {
            return Err(PoolError::AmountMustBePositive);
        }
        if amount_a_min < 0 || amount_b_min < 0 {
            return Err(PoolError::AmountMustBePositive);
        }
        let reserve_a: i128 = storage::get_reserve_a(env);
        let reserve_b: i128 = storage::get_reserve_b(env);
        let (amount_a, amount_b) = match Self::optimal_deposit_amounts(
            reserve_a,
            reserve_b,
            amount_a_desired,
            amount_b_desired,
            amount_a_min,
            amount_b_min,
        ) {
            Ok(amounts) => amounts,
            Err(e) => return Err(e),
        };
        let total_shares: i128 = lp_token::total_supply(env);
        let shares: i128 = match Self::shares_for_deposit(
            reserve_a,
            reserve_b,
            total_shares,
            amount_a,
            amount_b,
        ) {
            Ok(shares) => shares,
            Err(e) => return Err(e),
        };
        if let Err(e) = checked_add(env.share_of(from), shares) {
            return Err(e);
        }
        if total_shares != 0 {
            if let Err(e) = checked_add(total_shares, shares) {
                return Err(e);
            }
        }
        if let Err(e) = checked_add(reserve_a, amount_a) {
            return Err(e);
        }
        if let Err(e) = checked_add(reserve_b, amount_b) {
            return Err(e);
        }
        Ok((amount_a, amount_b, shares))
    }

    /// Deposits up to `(amount_a_desired, amount_b_desired)` at the pool's
    /// current price and mints shares to `from` in return.
    ///
    /// If the pool has reserves, one of the two amounts is cut down so that
    /// their ratio stays what it is. The minimum of that side bounds how far
    /// the cut may go.
    ///
    /// Returns the amounts taken of each token and the shares minted.
    pub fn add_liquidity(
        env: &mut Env,
        from: Address,
        amount_a_desired: i128,
        amount_b_desired: i128,
        amount_a_min: i128,
        amount_b_min: i128,
    ) -> (result: Result<(i128, i128, i128), PoolError>)
        requires
            old(env)@.ledger.paired(),
        ensures
            match result {
                Ok((a, b, shares)) => {
                    &&& deposit_refusal(
                        old(env)@.ledger,
                        from,
                        amount_a_desired as int,
                        amount_b_desired as int,
                        amount_a_min as int,
                        amount_b_min as int,
                    ) is None
                    &&& (a as int, b as int, shares as int) == deposit_terms(
                        old(env)@.ledger,
                        amount_a_desired as int,
                        amount_b_desired as int,
                    )
                    &&& final(env)@ == deposited(old(env)@, from, a as int, b as int, shares as int)
                    &&& final(env)@.ledger.pool_a() == old(env)@.ledger.pool_a() + a
                    &&& final(env)@.ledger.pool_b() == old(env)@.ledger.pool_b() + b
                    &&& final(env)@.ledger.supply() == old(env)@.ledger.supply() + shares_locked(
                        old(env)@.ledger,
                    ) + shares
                    &&& final(env)@.ledger.held(from) == old(env)@.ledger.held(from) + shares
                    &&& forall|other: Address|
                        other != from ==> #[trigger] final(env)@.ledger.held(other) == old(
                            env,
                        )@.ledger.held(other)
                    &&& !final(env)@.ledger.locked()
                },
                Err(e) => {
                    &&& deposit_refusal(
                        old(env)@.ledger,
                        from,
                        amount_a_desired as int,
                        amount_b_desired as int,
                        amount_a_min as int,
                        amount_b_min as int,
                    ) == Some(e)
                    &&& final(env)@ == turned_away(old(env)@, from)
                    &&& final(env)@.ledger == old(env)@.ledger
                },
            },
            final(env)@.ledger.paired(),
    {
        if let Err(e) = Self::check_gate(env) {
            return Err(e);
        }
        let (amount_a, amount_b, shares) = match Self::plan_deposit(
            env,
            from,
            amount_a_desired,
            amount_b_desired,
            amount_a_min,
            amount_b_min,
        ) {
            Ok(terms) => terms,
            Err(e) => {
                env.act(Action::RequireAuth(from));
                return Err(e);
            },
        };
        Self::open(env, from);
        let token_a: Address = storage::get_token_a(env);
        let token_b: Address = storage::get_token_b(env);
        let reserve_a: i128 = storage::get_reserve_a(env);
        let reserve_b: i128 = storage::get_reserve_b(env);
        // Effects before interactions: the ledger is settled before any token
        // contract runs.
        if lp_token::total_supply(env) == 0 {
            let _ = lp_token::mint_unallocated(env, MINIMUM_LIQUIDITY);
        }
        let _ = lp_token::mint(env, from, shares);
        storage::set_reserve_a(env, reserve_a + amount_a);
        storage::set_reserve_b(env, reserve_b + amount_b);
        storage::bump_instance(env);
        env.act(
            Action::Transfer { token: token_a, from, to: env.contract, amount: amount_a },
        );
        env.act(
            Action::Transfer { token: token_b, from, to: env.contract, amount: amount_b },
        );
        events::add_liquidity(env, from, amount_a, amount_b, shares);
        storage::exit(env);
        Ok((amount_a, amount_b, shares))
    }

    /// What a withdrawal returns, or why it is refused.
    fn plan_withdrawal(
        env: &Env,
        from: Address,
        shares: i128,
        amount_a_min: i128,
        amount_b_min: i128,
    ) -> (result: Result<(i128, i128), PoolError>)
        requires
            gate(env@.ledger) is None,
        ensures
            match result {
                Ok((a, b)) => {
                    &&& withdrawal_refusal(
                        env@.ledger,
                        from,
                        shares as int,
                        amount_a_min as int,
                        amount_b_min as int,
                    ) is None
                    &&& (a as int, b as int) == withdrawal_amounts(env@.ledger, shares as int)
                },
                Err(e) => withdrawal_refusal(
                    env@.ledger,
                    from,
                    shares as int,
                    amount_a_min as int,
                    amount_b_min as int,
                ) == Some(e),
            },
    {
        if shares <= 0 {
            return Err(PoolError::AmountMustBePositive);
        }
        let total_shares: i128 = lp_token::total_supply(env);
        if total_shares == 0 {
            return Err(PoolError::InsufficientLiquidity);
        }
        let reserve_a: i128 = storage::get_reserve_a(env);
        let reserve_b: i128 = storage::get_reserve_b(env);
        let amount_a: i128 = match checked_mul_div(shares, reserve_a, total_shares) {
            Ok(amount) => amount,
            Err(e) => return Err(e),
        };
        let amount_b: i128 = match checked_mul_div(shares, reserve_b, total_shares) {
            Ok(amount) => amount,
            Err(e) => return Err(e),
        };
        if amount_a <= 0 || amount_b <= 0 {
            return Err(PoolError::InsufficientLiquidity);
        }
        if amount_a < amount_a_min {
            return Err(PoolError::InsufficientAOutput);
        }
        if amount_b < amount_b_min {
            return Err(PoolError::InsufficientBOutput);
        }
        if env.share_of(from) < shares {
            return Err(PoolError::InsufficientShareBalance);
        }
        if let Err(e) = checked_sub(total_shares, shares) {
            return Err(e);
        }
        if let Err(e) = checked_sub(reserve_a, amount_a) {
            return Err(e);
        }
        if let Err(e) = checked_sub(reserve_b, amount_b) {
            return Err(e);
        }
        Ok((amount_a, amount_b))
    }

    /// Burns `shares` of `from` and returns their slice of both reserves, which
    /// must not fall below `amount_a_min` and `amount_b_min`.
    ///
    /// Returns the amounts paid out of each token.
    pub fn remove_liquidity(
        env: &mut Env,
        from: Address,
        shares: i128,
        amount_a_min: i128,
        amount_b_min: i128,
    ) -> (result: Result<(i128, i128), PoolError>)
        requires
            old(env)@.ledger.paired(),
        ensures
            match result {
                Ok((a, b)) => {
                    &&& withdrawal_refusal(
                        old(env)@.ledger,
                        from,
                        shares as int,
                        amount_a_min as int,
                        amount_b_min as int,
                    ) is None
                    &&& (a as int, b as int) == withdrawal_amounts(old(env)@.ledger, shares as int)
                    &&& a >= amount_a_min
                    &&& b >= amount_b_min
                    &&& final(env)@ == withdrawn(old(env)@, from, shares as int, a as int, b as int)
                    &&& final(env)@.ledger.pool_a() == old(env)@.ledger.pool_a() - a
                    &&& final(env)@.ledger.pool_b() == old(env)@.ledger.pool_b() - b
                    &&& final(env)@.ledger.supply() == old(env)@.ledger.supply() - shares
                    &&& final(env)@.ledger.held(from) == old(env)@.ledger.held(from) - shares
                    &&& forall|other: Address|
                        other != from ==> #[trigger] final(env)@.ledger.held(other) == old(
                            env,
                        )@.ledger.held(other)
                    &&& !final(env)@.ledger.locked()
                },
                Err(e) => {
                    &&& withdrawal_refusal(
                        old(env)@.ledger,
                        from,
                        shares as int,
                        amount_a_min as int,
                        amount_b_min as int,
                    ) == Some(e)
                    &&& final(env)@ == turned_away(old(env)@, from)
                    &&& final(env)@.ledger == old(env)@.ledger
                },
            },
            final(env)@.ledger.paired(),
    {
        if let Err(e) = Self::check_gate(env) {
            return Err(e);
        }
        let (amount_a, amount_b) = match Self::plan_withdrawal(
            env,
            from,
            shares,
            amount_a_min,
            amount_b_min,
        ) {
            Ok(amounts) => amounts,
            Err(e) => {
                env.act(Action::RequireAuth(from));
                return Err(e);
            },
        };
        Self::open(env, from);
        let token_a: Address = storage::get_token_a(env);
        let token_b: Address = storage::get_token_b(env);
        let reserve_a: i128 = storage::get_reserve_a(env);
        let reserve_b: i128 = storage::get_reserve_b(env);
        // Effects before interactions.
        let _ = lp_token::burn(env, from, shares);
        storage::set_reserve_a(env, reserve_a - amount_a);
        storage::set_reserve_b(env, reserve_b - amount_b);
        storage::bump_instance(env);
        env.act(
            Action::Transfer { token: token_a, from: env.contract, to: from, amount: amount_a },
        );
        env.act(
            Action::Transfer { token: token_b, from: env.contract, to: from, amount: amount_b },
        );
        events::remove_liquidity(env, from, amount_a, amount_b, shares);
        storage::exit(env);
        Ok((amount_a, amount_b))
    }

    /// The reserve of `token` and that of the pool's other token, or why no
    /// trade against it is possible.
    fn reserves_for(env: &Env, token: Address) -> (result: Result<(i128, i128), PoolError>)
        requires
            env@.ledger.initialized(),
            env@.ledger.paired(),
        ensures
            match result {
                Ok((of, beside)) => {
                    &&& market_refusal(env@.ledger, token) is None
                    &&& of == reserve_of(env@.ledger, token)
                    &&& beside == reserve_beside(env@.ledger, token)
                    &&& of > 0
                    &&& beside > 0
                },
                Err(e) => market_refusal(env@.ledger, token) == Some(e),
            },
    {
        let reserve_a: i128 = storage::get_reserve_a(env);
        let reserve_b: i128 = storage::get_reserve_b(env);
        let (of, beside): (i128, i128) = if token == storage::get_token_a(env) {
            (reserve_a, reserve_b)
        } else if token == storage::get_token_b(env) {
            (reserve_b, reserve_a)
        } else {
            return Err(PoolError::InvalidToken);
        };
        if of <= 0 || beside <= 0 {
            return Err(PoolError::InsufficientLiquidity);
        }
        Ok((of, beside))
    }

    /// Settles a swap on the ledger, then has it paid and reported.
    fn settle_swap(
        env: &mut Env,
        from: Address,
        takes_a: bool,
        amount_in: i128,
        amount_out: i128,
        to: Address,
    )
        requires
            gate(old(env)@.ledger) is None,
            old(env)@.ledger.paired(),
            takes_a ==> fits(old(env)@.ledger.pool_a() + amount_in) && fits(
                old(env)@.ledger.pool_b() - amount_out,
            ),
            !takes_a ==> fits(old(env)@.ledger.pool_b() + amount_in) && fits(
                old(env)@.ledger.pool_a() - amount_out,
            ),
        ensures
            final(env)@ == swapped(
                old(env)@,
                from,
                takes_a,
                amount_in as int,
                amount_out as int,
                to,
            ),
    {
        Self::open(env, from);
        let token_a: Address = storage::get_token_a(env);
        let token_b: Address = storage::get_token_b(env);
        let reserve_a: i128 = storage::get_reserve_a(env);
        let reserve_b: i128 = storage::get_reserve_b(env);
        let (token_in, token_out): (Address, Address) = if takes_a {
            (token_a, token_b)
        } else {
            (token_b, token_a)
        };
        // Effects before interactions.
        if takes_a {
            storage::set_reserve_a(env, reserve_a + amount_in);
            storage::set_reserve_b(env, reserve_b - amount_out);
        } else {
            storage::set_reserve_b(env, reserve_b + amount_in);
            storage::set_reserve_a(env, reserve_a - amount_out);
        }
        storage::bump_instance(env);
        env.act(
            Action::Transfer { token: token_in, from, to: env.contract, amount: amount_in },
        );
        env.act(
            Action::Transfer { token: token_out, from: env.contract, to, amount: amount_out },
        );
        events::swap(env, from, token_in, amount_in, token_out, amount_out);
        storage::exit(env);
    }

    /// The output of a swap of an exact input, or why it is refused.
    fn plan_swap_in(env: &Env, token_in: Address, amount_in: i128, min_amount_out: i128) -> (result:
        Result<i128, PoolError>)
        requires
            gate(env@.ledger) is None,
            env@.ledger.paired(),
        ensures
            match result {
                Ok(out) => {
                    &&& swap_in_refusal(
                        env@.ledger,
                        token_in,
                        amount_in as int,
                        min_amount_out as int,
                    ) is None
                    &&& out == price_out(env@.ledger, token_in, amount_in as int)
                },
                Err(e) => swap_in_refusal(
                    env@.ledger,
                    token_in,
                    amount_in as int,
                    min_amount_out as int,
                ) == Some(e),
            },
    {
        if amount_in <= 0 {
            return Err(PoolError::AmountMustBePositive);
        }
        if min_amount_out < 0 {
            return Err(PoolError::AmountMustBePositive);
        }
        let (reserve_in, reserve_out) = match Self::reserves_for(env, token_in) {
            Ok(reserves) => reserves,
            Err(e) => return Err(e),
        };
        let amount_out: i128 = match Self::get_amount_out(amount_in, reserve_in, reserve_out) {
            Ok(amount) => amount,
            Err(e) => return Err(e),
        };
        if amount_out <= 0 || amount_out >= reserve_out {
            return Err(PoolError::InsufficientOutputReserve);
        }
        if amount_out < min_amount_out {
            return Err(PoolError::SlippageExceededMinOut);
        }
        Ok(amount_out)
    }

    /// Swaps exactly `amount_in` of `token_in`, one of the pool's two tokens,
    /// for as much of the other as the curve yields after the fee, and sends it
    /// to `to`. Refused if that is less than `min_amount_out`.
    ///
    /// Returns the amount sent.
    pub fn swap_exact_in(
        env: &mut Env,
        from: Address,
        token_in: Address,
        amount_in: i128,
        min_amount_out: i128,
        to: Address,
    ) -> (result: Result<i128, PoolError>)
        requires
            old(env)@.ledger.paired(),
        ensures
            match result {
                Ok(out) => {
                    &&& swap_in_refusal(
                        old(env)@.ledger,
                        token_in,
                        amount_in as int,
                        min_amount_out as int,
                    ) is None
                    &&& out == price_out(old(env)@.ledger, token_in, amount_in as int)
                    &&& out >= min_amount_out
                    &&& final(env)@ == swapped(
                        old(env)@,
                        from,
                        is_token_a(old(env)@.ledger, token_in),
                        amount_in as int,
                        out as int,
                        to,
                    )
                    &&& reserve_of(final(env)@.ledger, token_in) == reserve_of(
                        old(env)@.ledger,
                        token_in,
                    ) + amount_in
                    &&& reserve_beside(final(env)@.ledger, token_in) == reserve_beside(
                        old(env)@.ledger,
                        token_in,
                    ) - out
                    &&& final(env)@.ledger.supply() == old(env)@.ledger.supply()
                    &&& final(env)@.ledger.shares == old(env)@.ledger.shares
                    &&& !final(env)@.ledger.locked()
                },
                Err(e) => {
                    &&& swap_in_refusal(
                        old(env)@.ledger,
                        token_in,
                        amount_in as int,
                        min_amount_out as int,
                    ) == Some(e)
                    &&& final(env)@ == turned_away(old(env)@, from)
                    &&& final(env)@.ledger == old(env)@.ledger
                },
            },
            final(env)@.ledger.paired(),
    {
        if let Err(e) = Self::check_gate(env) {
            return Err(e);
        }
        let amount_out: i128 = match Self::plan_swap_in(env, token_in, amount_in, min_amount_out) {
            Ok(amount) => amount,
            Err(e) => {
                env.act(Action::RequireAuth(from));
                return Err(e);
            },
        };
        let takes_a: bool = token_in == storage::get_token_a(env);
        Self::settle_swap(env, from, takes_a, amount_in, amount_out, to);
        Ok(amount_out)
    }

    /// The input of a swap for an exact output, or why it is refused.
    fn plan_swap_out(
        env: &Env,
        token_out: Address,
        amount_out: i128,
        max_amount_in: i128,
    ) -> (result: Result<i128, PoolError>)
        requires
            gate(env@.ledger) is None,
            env@.ledger.paired(),
        ensures
            match result {
                Ok(input) => {
                    &&& swap_out_refusal(
                        env@.ledger,
                        token_out,
                        amount_out as int,
                        max_amount_in as int,
                    ) is None
                    &&& input == price_in(env@.ledger, token_out, amount_out as int)
                    &&& input > 0
                    &&& fits(reserve_beside(env@.ledger, token_out) + input)
                },
                Err(e) => swap_out_refusal(
                    env@.ledger,
                    token_out,
                    amount_out as int,
                    max_amount_in as int,
                ) == Some(e),
            },
    {
        if amount_out <= 0 {
            return Err(PoolError::AmountMustBePositive);
        }
        if max_amount_in <= 0 {
            return Err(PoolError::AmountMustBePositive);
        }
        let (reserve_out, reserve_in) = match Self::reserves_for(env, token_out) {
            Ok(reserves) => reserves,
            Err(e) => return Err(e),
        };
        let amount_in: i128 = match Self::get_amount_in(amount_out, reserve_in, reserve_out) {
            Ok(amount) => amount,
            Err(e) => return Err(e),
        };
        if amount_in > max_amount_in {
            return Err(PoolError::SlippageExceededMaxIn);
        }
        Ok(amount_in)
    }

    /// Swaps as much of the other token as it takes for exactly `amount_out` of
    /// `token_out`, one of the pool's two tokens, which goes to `to`. Refused if
    /// that takes more than `max_amount_in`.
    ///
    /// Returns the amount taken.
    pub fn swap_exact_out(
        env: &mut Env,
        from: Address,
        token_out: Address,
        amount_out: i128,
        max_amount_in: i128,
        to: Address,
    ) -> (result: Result<i128, PoolError>)
        requires
            old(env)@.ledger.paired(),
        ensures
            match result {
                Ok(input) => {
                    &&& swap_out_refusal(
                        old(env)@.ledger,
                        token_out,
                        amount_out as int,
                        max_amount_in as int,
                    ) is None
                    &&& input == price_in(old(env)@.ledger, token_out, amount_out as int)
                    &&& 0 < input <= max_amount_in
                    &&& final(env)@ == swapped(
                        old(env)@,
                        from,
                        !is_token_a(old(env)@.ledger, token_out),
                        input as int,
                        amount_out as int,
                        to,
                    )
                    &&& reserve_beside(final(env)@.ledger, token_out) == reserve_beside(
                        old(env)@.ledger,
                        token_out,
                    ) + input
                    &&& reserve_of(final(env)@.ledger, token_out) == reserve_of(
                        old(env)@.ledger,
                        token_out,
                    ) - amount_out
                    &&& final(env)@.ledger.supply() == old(env)@.ledger.supply()
                    &&& final(env)@.ledger.shares == old(env)@.ledger.shares
                    &&& !final(env)@.ledger.locked()
                },
                Err(e) => {
                    &&& swap_out_refusal(
                        old(env)@.ledger,
                        token_out,
                        amount_out as int,
                        max_amount_in as int,
                    ) == Some(e)
                    &&& final(env)@ == turned_away(old(env)@, from)
                    &&& final(env)@.ledger == old(env)@.ledger
                },
            },
            final(env)@.ledger.paired(),
    {
        if let Err(e) = Self::check_gate(env) {
            return Err(e);
        }
        let amount_in: i128 = match Self::plan_swap_out(env, token_out, amount_out, max_amount_in) {
            Ok(amount) => amount,
            Err(e) => {
                env.act(Action::RequireAuth(from));
                return Err(e);
            },
        };
        let takes_a: bool = token_out != storage::get_token_a(env);
        Self::settle_swap(env, from, takes_a, amount_in, amount_out, to);
        Ok(amount_in)
    }

    /// Hands `amount` shares on from `from`, whose authorization it demands, to
    /// `to`.
    pub fn transfer_shares(env: &mut Env, from: Address, to: Address, amount: i128) -> (result:
        Result<(), PoolError>)
        ensures
            match result {
                Ok(_) => {
                    &&& share_transfer_refusal(old(env)@.ledger, from, to, amount as int) is None
                    &&& final(env)@ == handed_on(old(env)@, from, to, amount as int)
                    &&& from != to ==> final(env)@.ledger.held(from) == old(env)@.ledger.held(from)
                        - amount
                    &&& from != to ==> final(env)@.ledger.held(to) == old(env)@.ledger.held(to)
                        + amount
                    &&& from == to ==> final(env)@.ledger.held(to) == old(env)@.ledger.held(to)
                    &&& forall|other: Address|
                        other != from && other != to ==> #[trigger] final(env)@.ledger.held(other)
                            == old(env)@.ledger.held(other)
                    &&& !final(env)@.ledger.locked()
                },
                Err(e) => {
                    &&& share_transfer_refusal(old(env)@.ledger, from, to, amount as int) == Some(e)
                    &&& final(env)@ == turned_away(old(env)@, from)
                    &&& final(env)@.ledger == old(env)@.ledger
                },
            },
    {
        if let Err(e) = Self::check_gate(env) {
            return Err(e);
        }
        if let Err(e) = lp_token::plan_transfer(env, from, to, amount) {
            env.act(Action::RequireAuth(from));
            return Err(e);
        }
        let _ = storage::enter(env);
        let _ = lp_token::transfer(env, from, to, amount);
        storage::bump_instance(env);
        storage::exit(env);
        Ok(())
    }

    // ---- Read-only views ----

    /// The pool's token A.
    pub fn token_a(env: &Env) -> (result: Result<Address, PoolError>)
        ensures
            match result {
                Ok(token) => env@.ledger.token_a == Some(token),
                Err(e) => e == PoolError::NotInitialized && !env@.ledger.initialized(),
            },
    {
        match storage::require_initialized(env) {
            Ok(_) => Ok(storage::get_token_a(env)),
            Err(e) => Err(e),
        }
    }

    /// The pool's token B.
    pub fn token_b(env: &Env) -> (result: Result<Address, PoolError>)
        requires
            env@.ledger.paired(),
        ensures
            match result {
                Ok(token) => env@.ledger.initialized() && env@.ledger.token_b == Some(token),
                Err(e) => e == PoolError::NotInitialized && !env@.ledger.initialized(),
            },
    {
        match storage::require_initialized(env) {
            Ok(_) => Ok(storage::get_token_b(env)),
            Err(e) => Err(e),
        }
    }

    /// The reserves of token A and token B.
    pub fn get_reserves(env: &Env) -> (result: Result<(i128, i128), PoolError>)
        ensures
            match result {
                Ok(reserves) => env@.ledger.initialized() && reserves == (
                    env@.ledger.pool_a(),
                    env@.ledger.pool_b(),
                ),
                Err(e) => e == PoolError::NotInitialized && !env@.ledger.initialized(),
            },
    {
        match storage::require_initialized(env) {
            Ok(_) => Ok((storage::get_reserve_a(env), storage::get_reserve_b(env))),
            Err(e) => Err(e),
        }
    }

    /// How many shares exist, those locked away among them.
    pub fn total_shares(env: &Env) -> (amount: i128)
        ensures
            amount == env@.ledger.supply(),
    {
        lp_token::total_supply(env)
    }

    /// How many shares `id` holds. Asking keeps their entry alive.
    pub fn balance(env: &mut Env, id: Address) -> (amount: i128)
        ensures
            amount == old(env)@.ledger.held(id),
            final(env)@ == share_read(old(env)@, id),
    {
        lp_token::balance(env, id)
    }

    /// What [`Self::swap_exact_in`] would currently yield for `amount_in` of
    /// `token_in`.
    pub fn quote_amount_out(env: &Env, token_in: Address, amount_in: i128) -> (result: Result<
        i128,
        PoolError,
    >)
        requires
            env@.ledger.paired(),
        ensures
            match result {
                Ok(out) => {
                    &&& quote_refusal(env@.ledger, token_in, amount_in as int) is None
                    &&& out == price_out(env@.ledger, token_in, amount_in as int)
                },
                Err(e) => quote_refusal(env@.ledger, token_in, amount_in as int) == Some(e),
            },
    {
        if let Err(e) = storage::require_initialized(env) {
            return Err(e);
        }
        if amount_in <= 0 {
            return Err(PoolError::AmountMustBePositive);
        }
        match Self::reserves_for(env, token_in) {
            Ok((reserve_in, reserve_out)) => Self::get_amount_out(
                amount_in,
                reserve_in,
                reserve_out,
            ),
            Err(e) => Err(e),
        }
    }
}

} // verus!
