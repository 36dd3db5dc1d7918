//! What the functions beneath the entry points return and leave, stated of
//! every call that returns.

use vstd::prelude::*;

use crate::address::Address;
use crate::curve_laws::{
    law_floor_sqrt_is_largest, law_quotient_rounds_toward_zero,
    law_when_a_quotient_of_a_product_fits,
};
use crate::effect_laws::{
    is_burning, is_minting, is_moving, law_effect_of_burning, law_effect_of_minting,
    law_effect_of_moving, storable,
};
use crate::entry_laws::refused;
use crate::errors::PoolError;
use crate::host::{Action, Entry, Env};
use crate::ledger_laws::{law_reading_a_balance_keeps_it_alive, law_written_balance_is_read_back};
use crate::lp_token;
use crate::math::{checked_add, checked_div, checked_mul, checked_mul_div, checked_sub, isqrt, min};
use crate::shares::ShareBook;
use crate::storage;
use crate::terms_laws::{
    burn_verdict, law_when_shares_are_moved, law_when_shares_can_be_burned, transfer_verdict,
};

verus! {

/// Sums, differences and products are exact, and refused exactly if they are no
/// `i128`.
pub proof fn law_arithmetic_is_exact(
    a: i128,
    b: i128,
    sum: Result<i128, PoolError>,
    difference: Result<i128, PoolError>,
    product: Result<i128, PoolError>,
)
    requires
        call_ensures(checked_add, (a, b), sum),
        call_ensures(checked_sub, (a, b), difference),
        call_ensures(checked_mul, (a, b), product),
    ensures
        sum is Ok <==> storable(a + b),
        difference is Ok <==> storable(a - b),
        product is Ok <==> storable(a * b),
        sum matches Ok(v) ==> v == a + b,
        difference matches Ok(v) ==> v == a - b,
        product matches Ok(v) ==> v == a * b,
        sum matches Err(e) ==> e == PoolError::ArithmeticOverflow,
        difference matches Err(e) ==> e == PoolError::ArithmeticOverflow,
        product matches Err(e) ==> e == PoolError::ArithmeticOverflow,
{
}

/// Whether `q` is `a / b` rounded toward zero: what it leaves over is smaller
/// than the divisor, and does not have the opposite sign of the dividend.
pub open spec fn divides_to(a: int, b: int, q: int) -> bool {
    let rest = a - q * b;
    let size = if b < 0 {
        -b
    } else {
        b
    };
    if a >= 0 {
        0 <= rest < size
    } else {
        -size < rest <= 0
    }
}

/// A quotient is rounded toward zero. It is refused exactly if the divisor is
/// zero, or if the least number would be negated.
pub proof fn law_division_rounds_toward_zero(a: i128, b: i128, result: Result<i128, PoolError>)
    requires
        call_ensures(checked_div, (a, b), result),
    ensures
        result is Ok <==> b != 0 && !(a == i128::MIN && b == -1),
        result matches Ok(q) ==> divides_to(a as int, b as int, q as int),
        result matches Err(e) ==> e == PoolError::ArithmeticOverflow,
{
    law_when_a_quotient_of_a_product_fits(a as int, 1, b as int);
    if b != 0 {
        law_quotient_rounds_toward_zero(a as int, b as int);
    }
}

/// A product is divided without being rounded itself. It is refused exactly if
/// the product is no `i128`, or if the division is.
pub proof fn law_product_is_divided_exactly(
    a: i128,
    b: i128,
    c: i128,
    result: Result<i128, PoolError>,
)
    requires
        call_ensures(checked_mul_div, (a, b, c), result),
    ensures
        result is Ok <==> c != 0 && storable(a * b) && !(a * b == i128::MIN && c == -1),
        result matches Ok(q) ==> divides_to(a * b, c as int, q as int),
        result matches Err(e) ==> e == PoolError::ArithmeticOverflow,
{
    law_when_a_quotient_of_a_product_fits(a as int, b as int, c as int);
    if c != 0 {
        law_quotient_rounds_toward_zero(a * b, c as int);
    }
}

/// A square root is the largest number whose square is not larger. It is refused
/// exactly if the number is negative or the largest of all.
pub proof fn law_square_root_is_largest(value: i128, result: Result<i128, PoolError>)
    requires
        call_ensures(isqrt, (value,), result),
    ensures
        result is Ok <==> 0 <= value < i128::MAX,
        result matches Ok(root) ==> 0 <= root && root * root <= value && value < (root + 1) * (root
            + 1),
        result matches Err(e) ==> e == PoolError::ArithmeticOverflow,
{
    if value >= 0 {
        law_floor_sqrt_is_largest(value as int);
    }
}

/// The smaller of two numbers is one of them, and larger than neither.
pub proof fn law_smaller_is_not_larger(a: i128, b: i128, smaller: i128)
    requires
        call_ensures(min, (a, b), smaller),
    ensures
        smaller == a || smaller == b,
        smaller <= a,
        smaller <= b,
{
}

/// Every error is reported under a code of its own.
pub proof fn law_codes_tell_errors_apart(
    one: PoolError,
    other: PoolError,
    one_code: u32,
    other_code: u32,
)
    requires
        call_ensures(PoolError::code, (one,), one_code),
        call_ensures(PoolError::code, (other,), other_code),
    ensures
        one_code == other_code <==> one == other,
        1 <= one_code <= 17,
{
}

/// A book gives back what was written to it last. Setting or removing one row
/// leaves the others alone.
pub proof fn law_book_gives_back(
    book: &mut ShareBook,
    id: Address,
    amount: i128,
    other: Address,
    read: Option<i128>,
)
    requires
        call_ensures(ShareBook::set, (book, id, amount), ()),
        call_ensures(ShareBook::get, (&*final(book), other), read),
    ensures
        other == id ==> read == Some(amount),
        other != id ==> (read is Some <==> old(book)@.contains_key(other)),
        other != id ==> (read matches Some(kept) ==> kept == old(book)@[other]),
{
}

/// A book has forgotten a row that was removed.
pub proof fn law_book_forgets(
    book: &mut ShareBook,
    id: Address,
    other: Address,
    read: Option<i128>,
)
    requires
        call_ensures(ShareBook::remove, (book, id), ()),
        call_ensures(ShareBook::get, (&*final(book), other), read),
    ensures
        read is Some <==> other != id && old(book)@.contains_key(other),
        read matches Some(kept) ==> kept == old(book)@[other],
{
}

/// A fresh pool has nothing stored and has asked for nothing.
pub proof fn law_fresh_pool_is_empty(contract: Address, env: Env, id: Address)
    requires
        call_ensures(Env::new, (contract,), env),
    ensures
        env.contract == contract,
        env.token_a is None,
        env.token_b is None,
        env.reserve_a is None,
        env.reserve_b is None,
        env.total_shares is None,
        env.entry_lock is None,
        !env.shares@.contains_key(id),
        env.actions@.len() == 0,
{
}

/// A loaded entry is there, and asks for nothing. Every other is as it was.
pub proof fn law_loaded_entry_is_there(env: &mut Env, entry: Entry)
    requires
        call_ensures(Env::load, (env, entry), ()),
    ensures
        final(env).contract == old(env).contract,
        final(env).actions@ == old(env).actions@,
        final(env).token_a == if entry is TokenA {
            Some(entry->TokenA_0)
        } else {
            old(env).token_a
        },
        final(env).token_b == if entry is TokenB {
            Some(entry->TokenB_0)
        } else {
            old(env).token_b
        },
        final(env).reserve_a == if entry is ReserveA {
            Some(entry->ReserveA_0)
        } else {
            old(env).reserve_a
        },
        final(env).reserve_b == if entry is ReserveB {
            Some(entry->ReserveB_0)
        } else {
            old(env).reserve_b
        },
        final(env).total_shares == if entry is TotalShares {
            Some(entry->TotalShares_0)
        } else {
            old(env).total_shares
        },
        final(env).entry_lock == if entry is EntryLock {
            Some(entry->EntryLock_0)
        } else {
            old(env).entry_lock
        },
        final(env).shares@ == if entry is Share {
            old(env).shares@.insert(entry->Share_0, entry->Share_1)
        } else {
            old(env).shares@
        },
{
    assert(final(env)@.ledger == old(env)@.ledger.with_entry(entry));
}

/// The lock is given to one call at a time: it is refused exactly while it is
/// held, and then nothing changes.
pub proof fn law_lock_is_given_once(env: &mut Env, result: Result<(), PoolError>)
    requires
        call_ensures(storage::enter, (env,), result),
    ensures
        result is Ok <==> old(env).entry_lock != Some(true),
        result matches Err(e) ==> e == PoolError::ReentrancyDetected && final(env)@ == old(env)@,
        result is Ok ==> final(env).entry_lock == Some(true),
        result is Ok ==> final(env).actions@ == old(env).actions@.push(
            Action::Write(Entry::EntryLock(true)),
        ),
{
    assert(final(env)@.ledger.entry_lock == final(env).entry_lock);
    assert(final(env)@.actions == final(env).actions@);
}

/// A lock that was given back is free.
pub proof fn law_lock_is_given_back(env: &mut Env)
    requires
        call_ensures(storage::exit, (env,), ()),
    ensures
        final(env).entry_lock == Some(false),
        final(env).actions@ == old(env).actions@.push(Action::Write(Entry::EntryLock(false))),
{
    assert(final(env)@.ledger.entry_lock == final(env).entry_lock);
    assert(final(env)@.actions == final(env).actions@);
}

/// A balance that was stored is there; a balance of zero leaves no entry. Other
/// balances are as they were.
pub proof fn law_stored_balance_is_there(env: &mut Env, id: Address, amount: i128, other: Address)
    requires
        call_ensures(storage::set_share_balance, (env, id, amount), ()),
    ensures
        final(env).shares@.contains_key(id) <==> amount != 0,
        amount != 0 ==> final(env).shares@[id] == amount,
        other != id ==> (final(env).shares@.contains_key(other) <==> old(env).shares@.contains_key(
            other,
        )),
        other != id && old(env).shares@.contains_key(other) ==> final(env).shares@[other] == old(
            env,
        ).shares@[other],
        final(env).total_shares == old(env).total_shares,
{
    law_written_balance_is_read_back(old(env)@, id, amount, other);
    assert(final(env)@.ledger.shares == final(env).shares@);
    assert(final(env)@.ledger.total_shares == final(env).total_shares);
}

/// Shares are minted exactly if the balance and the supply stay in range.
/// Otherwise nothing changes.
pub proof fn law_mint_answers(
    env: &mut Env,
    to: Address,
    amount: i128,
    result: Result<(), PoolError>,
)
    requires
        call_ensures(lp_token::mint, (env, to, amount), result),
    ensures
        result is Ok <==> storable(old(env)@.ledger.held(to) + amount) && storable(
            old(env)@.ledger.supply() + amount,
        ),
        result is Ok ==> is_minting(old(env)@, final(env)@, to, amount as int),
        result matches Err(e) ==> e == PoolError::ArithmeticOverflow && final(env)@ == old(env)@,
{
    if result is Ok {
        law_effect_of_minting(old(env)@, to, amount as int);
    }
}

/// Shares without an owner are minted exactly if the supply stays in range. No
/// balance changes.
pub proof fn law_mint_unallocated_answers(
    env: &mut Env,
    amount: i128,
    result: Result<(), PoolError>,
)
    requires
        call_ensures(lp_token::mint_unallocated, (env, amount), result),
    ensures
        result is Ok <==> storable(old(env)@.ledger.supply() + amount),
        result is Ok ==> {
            &&& final(env).total_shares matches Some(supply) && supply == old(env)@.ledger.supply()
                + amount
            &&& final(env).shares@ == old(env).shares@
            &&& final(env).reserve_a == old(env).reserve_a
            &&& final(env).reserve_b == old(env).reserve_b
            &&& final(env).actions@ == old(env).actions@.push(
                Action::Write(Entry::TotalShares((old(env)@.ledger.supply() + amount) as i128)),
            )
        },
        result matches Err(e) ==> e == PoolError::ArithmeticOverflow && final(env)@ == old(env)@,
{
    assert(final(env)@.ledger.total_shares == final(env).total_shares);
    assert(final(env)@.ledger.shares == final(env).shares@);
    assert(final(env)@.ledger.reserve_a == final(env).reserve_a);
    assert(final(env)@.ledger.reserve_b == final(env).reserve_b);
    assert(final(env)@.actions == final(env).actions@);
}

/// Shares are burned exactly if their owner holds as many, and the balance and
/// the supply stay in range. Otherwise nothing changes.
pub proof fn law_burn_answers(
    env: &mut Env,
    from: Address,
    amount: i128,
    result: Result<(), PoolError>,
)
    requires
        call_ensures(lp_token::burn, (env, from, amount), result),
    ensures
        burn_verdict(old(env)@.ledger, from, amount as int, refused(result)),
        result is Ok ==> is_burning(old(env)@, final(env)@, from, amount as int),
        result is Err ==> final(env)@ == old(env)@,
{
    law_when_shares_can_be_burned(old(env)@.ledger, from, amount as int);
    if result is Ok {
        law_effect_of_burning(old(env)@, from, amount as int);
    }
}

/// Shares are moved exactly if the amount is positive, the sender holds as many,
/// and the balance of the receiver stays in range. The authorization of the
/// sender is demanded in any case, and first.
pub proof fn law_transfer_answers(
    env: &mut Env,
    from: Address,
    to: Address,
    amount: i128,
    result: Result<(), PoolError>,
)
    requires
        call_ensures(lp_token::transfer, (env, from, to, amount), result),
    ensures
        transfer_verdict(old(env)@.ledger, from, to, amount as int, refused(result)),
        result is Ok ==> is_moving(
            old(env)@.act(Action::RequireAuth(from)),
            final(env)@,
            from,
            to,
            amount as int,
        ),
        result is Err ==> final(env)@ == old(env)@.act(Action::RequireAuth(from)),
{
    law_when_shares_are_moved(old(env)@.ledger, from, to, amount as int);
    if result is Ok {
        law_effect_of_moving(old(env)@.act(Action::RequireAuth(from)), from, to, amount as int);
    }
}

/// A balance and the supply are read as they are stored, or as zero.
pub proof fn law_shares_are_read(env: &mut Env, id: Address, held: i128, seen: i128, supply: i128)
    requires
        call_ensures(lp_token::balance, (env, id), held),
        call_ensures(Env::share_of, (&*old(env), id), seen),
        call_ensures(lp_token::total_supply, (&*old(env),), supply),
    ensures
        held == seen,
        old(env).shares@.contains_key(id) ==> held == old(env).shares@[id],
        !old(env).shares@.contains_key(id) ==> held == 0,
        old(env).total_shares == Some(supply) || (old(env).total_shares is None && supply == 0),
        final(env)@.ledger == old(env)@.ledger,
{
    law_reading_a_balance_keeps_it_alive(old(env)@, id);
}

} // verus!
