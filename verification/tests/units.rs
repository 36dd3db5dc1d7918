//! The parts of the pool one by one: arithmetic, share ledger, storage, the
//! actions of each call, and every way in which a call is refused.

use stellarswap::address::{Address, Key};
use stellarswap::errors::PoolError;
use stellarswap::events;
use stellarswap::events::{AddLiquidity, Event, Initialize, RemoveLiquidity, Swap};
use stellarswap::host::{Action, Entry, Env};
use stellarswap::lp_token;
use stellarswap::math::{
    checked_add, checked_div, checked_mul, checked_mul_div, checked_sub, isqrt, min,
    FEE_DENOMINATOR, FEE_NUMERATOR, MINIMUM_LIQUIDITY,
};
use stellarswap::pool::ConstantProductPool;
use stellarswap::shares::ShareBook;
use stellarswap::storage;
use stellarswap::storage::DataKey;

const OVERFLOW: PoolError = PoolError::ArithmeticOverflow;

fn account(n: u128) -> Address {
    Address::Account(Key { high: 7, low: n })
}

fn contract(n: u128) -> Address {
    Address::Contract(Key { high: 7, low: n })
}

const POOL: u128 = 1;
const TOKEN_A: u128 = 2;
const TOKEN_B: u128 = 3;

fn fresh() -> Env {
    let mut env = Env::new(contract(POOL));
    ConstantProductPool::initialize(&mut env, contract(TOKEN_A), contract(TOKEN_B)).unwrap();
    env.actions.clear();
    env
}

fn funded(a: i128, b: i128) -> Env {
    let mut env = fresh();
    ConstantProductPool::add_liquidity(&mut env, account(1), a, b, 0, 0).unwrap();
    env.actions.clear();
    env
}

fn keep_instance() -> Action {
    Action::ExtendInstance { threshold: 17_280, extend_to: 518_400 }
}

fn keep_share(id: Address) -> Action {
    Action::ExtendEntry { key: DataKey::Share(id), threshold: 17_280, extend_to: 518_400 }
}

// ---- arithmetic ----

#[test]
fn checked_operations_report_what_does_not_fit() {
    assert_eq!(checked_add(2, 3), Ok(5));
    assert_eq!(checked_add(i128::MAX, 1), Err(OVERFLOW));
    assert_eq!(checked_sub(2, 3), Ok(-1));
    assert_eq!(checked_sub(i128::MIN, 1), Err(OVERFLOW));
    assert_eq!(checked_mul(-4, 3), Ok(-12));
    assert_eq!(checked_mul(i128::MAX, 2), Err(OVERFLOW));
    assert_eq!(checked_div(7, 2), Ok(3));
    assert_eq!(checked_div(-7, 2), Ok(-3));
    assert_eq!(checked_div(7, -2), Ok(-3));
    assert_eq!(checked_div(-7, -2), Ok(3));
    assert_eq!(checked_div(7, 0), Err(OVERFLOW));
    assert_eq!(checked_div(i128::MIN, -1), Err(OVERFLOW));
    assert_eq!(checked_mul_div(7, 5, 3), Ok(11));
    assert_eq!(checked_mul_div(i128::MAX, 2, 2), Err(OVERFLOW));
    assert_eq!(checked_mul_div(7, 5, 0), Err(OVERFLOW));
}

#[test]
fn min_is_the_smaller() {
    assert_eq!(min(2, 3), 2);
    assert_eq!(min(3, 2), 2);
    assert_eq!(min(-1, -1), -1);
}

#[test]
fn isqrt_rounds_down() {
    assert_eq!(isqrt(0), Ok(0));
    assert_eq!(isqrt(1), Ok(1));
    assert_eq!(isqrt(2), Ok(1));
    assert_eq!(isqrt(3), Ok(1));
    assert_eq!(isqrt(4), Ok(2));
    assert_eq!(isqrt(400_000_000), Ok(20_000));
    assert_eq!(isqrt(400_000_000 - 1), Ok(19_999));
    assert_eq!(isqrt(i128::MAX - 1), Ok(13_043_817_825_332_782_212));
    for n in 0..2_000_i128 {
        let root = isqrt(n).unwrap();
        assert!(root * root <= n && n < (root + 1) * (root + 1));
    }
    assert_eq!(isqrt(-1), Err(OVERFLOW));
    assert_eq!(isqrt(i128::MAX), Err(OVERFLOW));
}

#[test]
fn constants_are_as_documented() {
    assert_eq!((FEE_NUMERATOR, FEE_DENOMINATOR), (30, 10_000));
    assert_eq!(MINIMUM_LIQUIDITY, 1_000);
    assert_eq!(storage::LEDGER_THRESHOLD, 17_280);
    assert_eq!(storage::LEDGER_BUMP, 518_400);
}

#[test]
fn error_codes_count_from_one() {
    let all = [
        PoolError::AlreadyInitialized,
        PoolError::NotInitialized,
        PoolError::IdenticalTokens,
        PoolError::AmountMustBePositive,
        PoolError::InsufficientAAmount,
        PoolError::InsufficientBAmount,
        PoolError::InsufficientAOutput,
        PoolError::InsufficientBOutput,
        PoolError::SlippageExceededMinOut,
        PoolError::SlippageExceededMaxIn,
        PoolError::InsufficientLiquidity,
        PoolError::InsufficientShareBalance,
        PoolError::InsufficientOutputReserve,
        PoolError::InvalidToken,
        PoolError::ArithmeticOverflow,
        PoolError::InsufficientInitialLiquidity,
        PoolError::ReentrancyDetected,
    ];
    for (i, error) in all.iter().enumerate() {
        assert_eq!(error.code() as usize, i + 1);
    }
    assert!(PoolError::AlreadyInitialized < PoolError::ReentrancyDetected);
}

// ---- share book and share ledger ----

#[test]
fn share_book_keeps_one_row_for_each_account() {
    let mut book = ShareBook::new();
    assert_eq!(book.get(account(1)), None);
    book.set(account(1), 10);
    book.set(account(2), 20);
    book.set(Address::Contract(Key { high: 7, low: 1 }), 30);
    book.set(account(1), 11);
    assert_eq!(book.get(account(1)), Some(11));
    assert_eq!(book.get(account(2)), Some(20));
    assert_eq!(book.get(contract(1)), Some(30));
    book.remove(account(1));
    book.remove(account(5));
    assert_eq!(book.get(account(1)), None);
    assert_eq!(book.get(account(2)), Some(20));
}

#[test]
fn minting_and_burning_change_balance_and_supply() {
    let mut env = fresh();
    assert_eq!(lp_token::mint(&mut env, account(1), 500), Ok(()));
    assert_eq!(lp_token::mint_unallocated(&mut env, 100), Ok(()));
    assert_eq!(lp_token::total_supply(&env), 600);
    assert_eq!(lp_token::balance(&mut env, account(1)), 500);
    assert_eq!(lp_token::burn(&mut env, account(1), 200), Ok(()));
    assert_eq!(lp_token::total_supply(&env), 400);
    assert_eq!(lp_token::balance(&mut env, account(1)), 300);
    assert_eq!(
        lp_token::burn(&mut env, account(1), 301),
        Err(PoolError::InsufficientShareBalance)
    );
    assert_eq!(lp_token::mint(&mut env, account(1), i128::MAX), Err(OVERFLOW));
    assert_eq!(lp_token::mint(&mut env, account(2), i128::MAX), Err(OVERFLOW));
    assert_eq!(lp_token::mint_unallocated(&mut env, i128::MAX), Err(OVERFLOW));
    assert_eq!(lp_token::total_supply(&env), 400);
    assert_eq!(lp_token::burn(&mut env, account(1), i128::MIN), Err(OVERFLOW));
}

#[test]
fn share_entries_are_extended_and_dropped() {
    let id = account(1);
    let mut env = fresh();
    storage::set_share_balance(&mut env, id, 5);
    assert_eq!(env.actions, vec![Action::Write(Entry::Share(id, 5)), keep_share(id)]);
    env.actions.clear();
    assert_eq!(storage::get_share_balance(&mut env, id), 5);
    assert_eq!(env.actions, vec![keep_share(id)]);
    env.actions.clear();
    storage::set_share_balance(&mut env, id, 0);
    assert_eq!(env.actions, vec![Action::Remove(DataKey::Share(id))]);
    env.actions.clear();
    assert_eq!(storage::get_share_balance(&mut env, id), 0);
    assert_eq!(env.actions, vec![]);
}

#[test]
fn transfers_of_shares_are_checked() {
    let mut env = fresh();
    storage::set_share_balance(&mut env, account(1), 50);
    storage::set_share_balance(&mut env, account(2), i128::MAX - 10);
    env.actions.clear();
    for (amount, error) in [
        (0, PoolError::AmountMustBePositive),
        (-5, PoolError::AmountMustBePositive),
        (51, PoolError::InsufficientShareBalance),
        (11, PoolError::ArithmeticOverflow),
    ] {
        assert_eq!(lp_token::transfer(&mut env, account(1), account(2), amount), Err(error));
        assert_eq!(env.actions, vec![Action::RequireAuth(account(1))]);
        env.actions.clear();
    }
    assert_eq!(lp_token::transfer(&mut env, account(1), account(2), 10), Ok(()));
    assert_eq!(env.share_of(account(1)), 40);
    assert_eq!(env.share_of(account(2)), i128::MAX);
    assert_eq!(lp_token::transfer(&mut env, account(2), account(2), i128::MAX), Ok(()));
    assert_eq!(env.share_of(account(2)), i128::MAX);
}

// ---- storage ----

#[test]
fn accessors_read_back_what_was_written() {
    let mut env = Env::new(contract(POOL));
    assert!(!storage::is_initialized(&env));
    assert_eq!(storage::require_initialized(&env), Err(PoolError::NotInitialized));
    assert_eq!(storage::get_reserve_a(&env), 0);
    assert_eq!(storage::get_reserve_b(&env), 0);
    assert_eq!(storage::get_total_shares(&env), 0);
    storage::set_token_a(&mut env, contract(4));
    storage::set_token_b(&mut env, contract(5));
    storage::set_reserve_a(&mut env, 6);
    storage::set_reserve_b(&mut env, 7);
    storage::set_total_shares(&mut env, 8);
    storage::bump_instance(&mut env);
    assert!(storage::is_initialized(&env));
    assert_eq!(storage::require_initialized(&env), Ok(()));
    assert_eq!(storage::get_token_a(&env), contract(4));
    assert_eq!(storage::get_token_b(&env), contract(5));
    assert_eq!(storage::get_reserve_a(&env), 6);
    assert_eq!(storage::get_reserve_b(&env), 7);
    assert_eq!(storage::get_total_shares(&env), 8);
    assert_eq!(
        env.actions,
        vec![
            Action::Write(Entry::TokenA(contract(4))),
            Action::Write(Entry::TokenB(contract(5))),
            Action::Write(Entry::ReserveA(6)),
            Action::Write(Entry::ReserveB(7)),
            Action::Write(Entry::TotalShares(8)),
            keep_instance(),
        ]
    );
}

#[test]
fn the_lock_lets_one_call_in() {
    let mut env = fresh();
    assert_eq!(storage::enter(&mut env), Ok(()));
    assert_eq!(storage::enter(&mut env), Err(PoolError::ReentrancyDetected));
    storage::exit(&mut env);
    assert_eq!(storage::enter(&mut env), Ok(()));
    assert_eq!(
        env.actions,
        vec![
            Action::Write(Entry::EntryLock(true)),
            Action::Write(Entry::EntryLock(false)),
            Action::Write(Entry::EntryLock(true)),
        ]
    );
}

#[test]
fn loaded_entries_are_not_asked_for() {
    let mut env = Env::new(contract(POOL));
    env.load(Entry::TokenA(contract(TOKEN_A)));
    env.load(Entry::TokenB(contract(TOKEN_B)));
    env.load(Entry::ReserveA(1_000_000));
    env.load(Entry::ReserveB(1_000_000));
    env.load(Entry::TotalShares(1_000_000));
    env.load(Entry::Share(account(1), 999_000));
    env.load(Entry::EntryLock(false));
    assert_eq!(env.actions, vec![]);
    assert_eq!(
        ConstantProductPool::quote_amount_out(&env, contract(TOKEN_B), 10_000),
        Ok(9_871)
    );
    assert_eq!(
        ConstantProductPool::remove_liquidity(&mut env, account(1), 1_000, 0, 0),
        Ok((1_000, 1_000))
    );
}

#[test]
fn removed_entries_are_gone() {
    let mut env = funded(10_000, 40_000);
    for key in [
        DataKey::TokenA,
        DataKey::TokenB,
        DataKey::ReserveA,
        DataKey::ReserveB,
        DataKey::TotalShares,
        DataKey::Share(account(1)),
        DataKey::EntryLock,
    ] {
        env.act(Action::Remove(key));
    }
    assert_eq!((env.token_a, env.token_b), (None, None));
    assert_eq!((env.reserve_a, env.reserve_b), (None, None));
    assert_eq!((env.total_shares, env.entry_lock), (None, None));
    assert_eq!(env.share_of(account(1)), 0);
}

#[test]
fn events_are_published() {
    let mut env = fresh();
    let (x, y, z) = (account(1), contract(2), contract(3));
    events::initialize(&mut env, y, z);
    events::add_liquidity(&mut env, x, 1, 2, 3);
    events::remove_liquidity(&mut env, x, 4, 5, 6);
    events::swap(&mut env, x, y, 7, z, 8);
    assert_eq!(
        env.actions,
        vec![
            Action::Publish(Event::Initialize(Initialize { token_a: y, token_b: z })),
            Action::Publish(Event::AddLiquidity(AddLiquidity {
                provider: x,
                amount_a: 1,
                amount_b: 2,
                shares_minted: 3
            })),
            Action::Publish(Event::RemoveLiquidity(RemoveLiquidity {
                provider: x,
                amount_a: 4,
                amount_b: 5,
                shares_burned: 6
            })),
            Action::Publish(Event::Swap(Swap {
                trader: x,
                token_in: y,
                amount_in: 7,
                token_out: z,
                amount_out: 8
            })),
        ]
    );
}

// ---- the actions of each call, in their order ----

#[test]
fn actions_of_initialize() {
    let mut env = Env::new(contract(POOL));
    let (a, b) = (contract(TOKEN_A), contract(TOKEN_B));
    ConstantProductPool::initialize(&mut env, a, b).unwrap();
    assert_eq!(
        env.actions,
        vec![
            Action::Write(Entry::TokenA(a)),
            Action::Write(Entry::TokenB(b)),
            Action::Write(Entry::ReserveA(0)),
            Action::Write(Entry::ReserveB(0)),
            Action::Write(Entry::TotalShares(0)),
            keep_instance(),
            Action::Publish(Event::Initialize(Initialize { token_a: a, token_b: b })),
        ]
    );
}

#[test]
fn actions_of_first_and_second_deposit() {
    let mut env = fresh();
    let (from, pool) = (account(1), contract(POOL));
    let (a, b) = (contract(TOKEN_A), contract(TOKEN_B));
    ConstantProductPool::add_liquidity(&mut env, from, 10_000, 40_000, 0, 0).unwrap();
    assert_eq!(
        env.actions,
        vec![
            Action::Write(Entry::EntryLock(true)),
            Action::RequireAuth(from),
            Action::Write(Entry::TotalShares(1_000)),
            Action::Write(Entry::Share(from, 19_000)),
            keep_share(from),
            Action::Write(Entry::TotalShares(20_000)),
            Action::Write(Entry::ReserveA(10_000)),
            Action::Write(Entry::ReserveB(40_000)),
            keep_instance(),
            Action::Transfer { token: a, from, to: pool, amount: 10_000 },
            Action::Transfer { token: b, from, to: pool, amount: 40_000 },
            Action::Publish(Event::AddLiquidity(AddLiquidity {
                provider: from,
                amount_a: 10_000,
                amount_b: 40_000,
                shares_minted: 19_000
            })),
            Action::Write(Entry::EntryLock(false)),
        ]
    );
    env.actions.clear();
    ConstantProductPool::add_liquidity(&mut env, from, 1_000, 4_000, 1_000, 4_000).unwrap();
    assert_eq!(
        env.actions[..6],
        [
            Action::Write(Entry::EntryLock(true)),
            Action::RequireAuth(from),
            keep_share(from),
            Action::Write(Entry::Share(from, 21_000)),
            keep_share(from),
            Action::Write(Entry::TotalShares(22_000)),
        ]
    );
}

#[test]
fn actions_of_withdrawal() {
    let mut env = funded(10_000, 40_000);
    let (from, pool) = (account(1), contract(POOL));
    ConstantProductPool::remove_liquidity(&mut env, from, 19_000, 9_500, 38_000).unwrap();
    assert_eq!(
        env.actions,
        vec![
            Action::Write(Entry::EntryLock(true)),
            Action::RequireAuth(from),
            keep_share(from),
            Action::Remove(DataKey::Share(from)),
            Action::Write(Entry::TotalShares(1_000)),
            Action::Write(Entry::ReserveA(500)),
            Action::Write(Entry::ReserveB(2_000)),
            keep_instance(),
            Action::Transfer { token: contract(TOKEN_A), from: pool, to: from, amount: 9_500 },
            Action::Transfer { token: contract(TOKEN_B), from: pool, to: from, amount: 38_000 },
            Action::Publish(Event::RemoveLiquidity(RemoveLiquidity {
                provider: from,
                amount_a: 9_500,
                amount_b: 38_000,
                shares_burned: 19_000
            })),
            Action::Write(Entry::EntryLock(false)),
        ]
    );
}

#[test]
fn actions_of_swaps() {
    let mut env = funded(1_000_000, 1_000_000);
    let (from, to, pool) = (account(2), account(3), contract(POOL));
    let (a, b) = (contract(TOKEN_A), contract(TOKEN_B));
    ConstantProductPool::swap_exact_in(&mut env, from, b, 10_000, 9_871, to).unwrap();
    let expected = vec![
        Action::Write(Entry::EntryLock(true)),
        Action::RequireAuth(from),
        Action::Write(Entry::ReserveB(1_010_000)),
        Action::Write(Entry::ReserveA(990_129)),
        keep_instance(),
        Action::Transfer { token: b, from, to: pool, amount: 10_000 },
        Action::Transfer { token: a, from: pool, to, amount: 9_871 },
        Action::Publish(Event::Swap(Swap {
            trader: from,
            token_in: b,
            amount_in: 10_000,
            token_out: a,
            amount_out: 9_871,
        })),
        Action::Write(Entry::EntryLock(false)),
    ];
    assert_eq!(env.actions, expected);

    let mut other = funded(1_000_000, 1_000_000);
    ConstantProductPool::swap_exact_out(&mut other, from, a, 9_871, 10_000, to).unwrap();
    assert_eq!(other.actions, expected);
}

#[test]
fn actions_of_share_transfer() {
    let mut env = funded(10_000, 40_000);
    let (from, to) = (account(1), account(2));
    ConstantProductPool::transfer_shares(&mut env, from, to, 4_000).unwrap();
    assert_eq!(
        env.actions,
        vec![
            Action::Write(Entry::EntryLock(true)),
            Action::RequireAuth(from),
            keep_share(from),
            Action::Write(Entry::Share(from, 15_000)),
            keep_share(from),
            Action::Write(Entry::Share(to, 4_000)),
            keep_share(to),
            keep_instance(),
            Action::Write(Entry::EntryLock(false)),
        ]
    );
}

// ---- refusals ----

#[test]
fn a_pool_without_tokens_refuses() {
    let mut env = Env::new(contract(POOL));
    let who = account(1);
    let token = contract(TOKEN_A);
    let not_yet = PoolError::NotInitialized;
    assert_eq!(ConstantProductPool::add_liquidity(&mut env, who, 1, 1, 0, 0), Err(not_yet));
    assert_eq!(ConstantProductPool::remove_liquidity(&mut env, who, 1, 0, 0), Err(not_yet));
    assert_eq!(ConstantProductPool::swap_exact_in(&mut env, who, token, 1, 0, who), Err(not_yet));
    assert_eq!(ConstantProductPool::swap_exact_out(&mut env, who, token, 1, 1, who), Err(not_yet));
    assert_eq!(ConstantProductPool::transfer_shares(&mut env, who, who, 1), Err(not_yet));
    assert_eq!(ConstantProductPool::token_a(&env), Err(not_yet));
    assert_eq!(ConstantProductPool::token_b(&env), Err(not_yet));
    assert_eq!(ConstantProductPool::get_reserves(&env), Err(not_yet));
    assert_eq!(ConstantProductPool::quote_amount_out(&env, token, 1), Err(not_yet));
    assert_eq!(ConstantProductPool::total_shares(&env), 0);
    assert_eq!(ConstantProductPool::balance(&mut env, who), 0);
    assert_eq!(env.actions, vec![]);
}

#[test]
fn a_locked_pool_refuses() {
    let mut env = funded(1_000_000, 1_000_000);
    env.load(Entry::EntryLock(true));
    let who = account(1);
    let token = contract(TOKEN_A);
    let locked = PoolError::ReentrancyDetected;
    assert_eq!(ConstantProductPool::add_liquidity(&mut env, who, 9, 9, 0, 0), Err(locked));
    assert_eq!(ConstantProductPool::remove_liquidity(&mut env, who, 9, 0, 0), Err(locked));
    assert_eq!(ConstantProductPool::swap_exact_in(&mut env, who, token, 9, 0, who), Err(locked));
    assert_eq!(ConstantProductPool::swap_exact_out(&mut env, who, token, 9, 99, who), Err(locked));
    assert_eq!(ConstantProductPool::transfer_shares(&mut env, who, who, 1), Err(locked));
    assert_eq!(
        ConstantProductPool::initialize(&mut env, token, contract(9)),
        Err(PoolError::AlreadyInitialized)
    );
    assert_eq!(env.actions, vec![]);
    assert_eq!(ConstantProductPool::get_reserves(&env), Ok((1_000_000, 1_000_000)));
    assert_eq!(env.share_of(who), 999_000);
}

#[test]
fn refused_deposits() {
    let who = account(2);
    let mut env = funded(10_000, 40_000);
    for (a, b, min_a, min_b, error) in [
        (0, 5, 0, 0, PoolError::AmountMustBePositive),
        (5, -1, 0, 0, PoolError::AmountMustBePositive),
        (5, 5, -1, 0, PoolError::AmountMustBePositive),
        (5, 5, 0, -1, PoolError::AmountMustBePositive),
        (10_000, 10_000, 2_501, 0, PoolError::InsufficientAAmount),
        (1_000, 5_000, 0, 4_001, PoolError::InsufficientBAmount),
        (i128::MAX, 5, 0, 0, PoolError::ArithmeticOverflow),
        (1_000, 1, 0, 0, PoolError::InsufficientInitialLiquidity),
    ] {
        assert_eq!(
            ConstantProductPool::add_liquidity(&mut env, who, a, b, min_a, min_b),
            Err(error)
        );
        assert_eq!(env.actions, vec![Action::RequireAuth(who)]);
        env.actions.clear();
    }
    assert_eq!(ConstantProductPool::get_reserves(&env), Ok((10_000, 40_000)));
    assert_eq!(ConstantProductPool::total_shares(&env), 20_000);
    assert_eq!(env.share_of(who), 0);
    assert_eq!(env.entry_lock, Some(false));
}

#[test]
fn refused_first_deposits() {
    let who = account(2);
    let mut env = fresh();
    assert_eq!(
        ConstantProductPool::add_liquidity(&mut env, who, 1_000, 1_000, 0, 0),
        Err(PoolError::InsufficientInitialLiquidity)
    );
    assert_eq!(
        ConstantProductPool::add_liquidity(&mut env, who, 1, i128::MAX, 0, 0),
        Err(PoolError::ArithmeticOverflow)
    );
    assert_eq!(
        ConstantProductPool::add_liquidity(&mut env, who, 1_001, 1_001, 2_000, 2_000),
        Ok((1_001, 1_001, 1))
    );
}

#[test]
fn refused_withdrawals() {
    let who = account(1);
    let mut env = funded(10_000, 40_000);
    for (shares, min_a, min_b, error) in [
        (0, 0, 0, PoolError::AmountMustBePositive),
        (1, 0, 0, PoolError::InsufficientLiquidity),
        (1_000, 501, 0, PoolError::InsufficientAOutput),
        (1_000, 500, 2_001, PoolError::InsufficientBOutput),
        (19_001, 0, 0, PoolError::InsufficientShareBalance),
        (i128::MAX, 0, 0, PoolError::ArithmeticOverflow),
    ] {
        assert_eq!(
            ConstantProductPool::remove_liquidity(&mut env, who, shares, min_a, min_b),
            Err(error)
        );
        assert_eq!(env.actions, vec![Action::RequireAuth(who)]);
        env.actions.clear();
    }
    assert_eq!(
        ConstantProductPool::remove_liquidity(&mut env, who, 1_000, 500, 2_000),
        Ok((500, 2_000))
    );
}

#[test]
fn refused_swaps() {
    let who = account(2);
    let a = contract(TOKEN_A);
    let b = contract(TOKEN_B);
    let mut env = funded(1_000_000, 1_000_000);
    for (token, amount, least, error) in [
        (a, 0, 0, PoolError::AmountMustBePositive),
        (a, 10_000, -1, PoolError::AmountMustBePositive),
        (contract(8), 10_000, 0, PoolError::InvalidToken),
        (b, i128::MAX, 0, PoolError::ArithmeticOverflow),
        (b, 1, 0, PoolError::InsufficientOutputReserve),
        (b, 10_000, 9_872, PoolError::SlippageExceededMinOut),
    ] {
        assert_eq!(
            ConstantProductPool::swap_exact_in(&mut env, who, token, amount, least, who),
            Err(error)
        );
        assert_eq!(env.actions, vec![Action::RequireAuth(who)]);
        env.actions.clear();
    }
    for (token, amount, most, error) in [
        (a, 0, 10, PoolError::AmountMustBePositive),
        (a, 10, 0, PoolError::AmountMustBePositive),
        (contract(8), 10, 10, PoolError::InvalidToken),
        (a, 1_000_000, 10, PoolError::InsufficientOutputReserve),
        (b, 9_871, 9_999, PoolError::SlippageExceededMaxIn),
    ] {
        assert_eq!(
            ConstantProductPool::swap_exact_out(&mut env, who, token, amount, most, who),
            Err(error)
        );
        assert_eq!(env.actions, vec![Action::RequireAuth(who)]);
        env.actions.clear();
    }
    assert_eq!(ConstantProductPool::get_reserves(&env), Ok((1_000_000, 1_000_000)));
    let mut huge = Env::new(contract(POOL));
    huge.load(Entry::TokenA(a));
    huge.load(Entry::TokenB(b));
    huge.load(Entry::ReserveA(i128::MAX / 100));
    huge.load(Entry::ReserveB(1_000));
    assert_eq!(
        ConstantProductPool::swap_exact_out(&mut huge, who, b, 10, 10, who),
        Err(PoolError::ArithmeticOverflow)
    );
    let mut empty = fresh();
    assert_eq!(
        ConstantProductPool::swap_exact_out(&mut empty, who, b, 10, 10, who),
        Err(PoolError::InsufficientLiquidity)
    );
}

#[test]
fn refused_quotes() {
    let a = contract(TOKEN_A);
    let env = funded(1_000_000, 1_000_000);
    for (token, amount, error) in [
        (a, 0, PoolError::AmountMustBePositive),
        (contract(8), 5, PoolError::InvalidToken),
        (a, i128::MAX / 2, PoolError::ArithmeticOverflow),
    ] {
        assert_eq!(ConstantProductPool::quote_amount_out(&env, token, amount), Err(error));
    }
    assert_eq!(ConstantProductPool::quote_amount_out(&env, a, 1), Ok(0));
    assert_eq!(
        ConstantProductPool::quote_amount_out(&fresh(), a, 5),
        Err(PoolError::InsufficientLiquidity)
    );
}

#[test]
fn refused_share_transfers() {
    let mut env = funded(10_000, 40_000);
    for (amount, error) in [
        (0, PoolError::AmountMustBePositive),
        (19_001, PoolError::InsufficientShareBalance),
    ] {
        assert_eq!(
            ConstantProductPool::transfer_shares(&mut env, account(1), account(2), amount),
            Err(error)
        );
        assert_eq!(env.actions, vec![Action::RequireAuth(account(1))]);
        env.actions.clear();
    }
    assert_eq!(env.share_of(account(1)), 19_000);
}

#[test]
fn replaying_the_actions_rebuilds_the_ledger() {
    let mut env = funded(10_000, 40_000);
    let mut copy = funded(10_000, 40_000);
    ConstantProductPool::swap_exact_in(&mut env, account(2), contract(TOKEN_A), 500, 0, account(2))
        .unwrap();
    ConstantProductPool::remove_liquidity(&mut env, account(1), 5_000, 0, 0).unwrap();
    ConstantProductPool::transfer_shares(&mut env, account(1), account(2), 100).unwrap();
    for action in env.actions.iter() {
        if matches!(action, Action::Transfer { .. }) {
            assert_eq!(copy.entry_lock, Some(true));
        }
        copy.act(*action);
    }
    assert_eq!((copy.reserve_a, copy.reserve_b), (env.reserve_a, env.reserve_b));
    assert_eq!((copy.total_shares, copy.entry_lock), (env.total_shares, env.entry_lock));
    assert_eq!(copy.share_of(account(1)), env.share_of(account(1)));
    assert_eq!(copy.share_of(account(2)), env.share_of(account(2)));
}
