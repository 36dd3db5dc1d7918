//! The pool as its users see it, with token contracts that honour every
//! transfer they are asked for.

use stellarswap::address::{Address, Key};
use stellarswap::errors::PoolError;
use stellarswap::host::{Action, Env};
use stellarswap::pool::ConstantProductPool;

fn account(n: u128) -> Address {
    Address::Account(Key { high: 0, low: n })
}

fn contract(n: u128) -> Address {
    Address::Contract(Key { high: 0, low: n })
}

/// Token balances by token and holder.
struct Tokens {
    rows: Vec<(Address, Address, i128)>,
}

impl Tokens {
    fn balance(&self, token: Address, holder: Address) -> i128 {
        self.rows
            .iter()
            .filter(|row| row.0 == token && row.1 == holder)
            .map(|row| row.2)
            .sum()
    }

    fn credit(&mut self, token: Address, holder: Address, amount: i128) {
        self.rows.push((token, holder, amount));
    }

    fn carry_out(&mut self, actions: &[Action]) {
        for action in actions {
            if let Action::Transfer { token, from, to, amount } = *action {
                assert!(self.balance(token, from) >= amount, "insufficient token balance");
                self.credit(token, from, -amount);
                self.credit(token, to, amount);
            }
        }
    }
}

struct TestPool {
    env: Env,
    tokens: Tokens,
    pool: Address,
    token_a: Address,
    token_b: Address,
    user1: Address,
    user2: Address,
}

/// A pool over two tokens, of each of which both users have plenty. It has no
/// liquidity yet.
fn setup() -> TestPool {
    let pool = contract(1);
    let token_a = contract(2);
    let token_b = contract(3);
    let user1 = account(1);
    let user2 = account(2);
    let mut env = Env::new(pool);
    assert_eq!(ConstantProductPool::initialize(&mut env, token_a, token_b), Ok(()));
    let mut tokens = Tokens { rows: Vec::new() };
    for user in [user1, user2] {
        tokens.credit(token_a, user, 1_000_000_000);
        tokens.credit(token_b, user, 1_000_000_000);
    }
    env.actions.clear();
    TestPool { env, tokens, pool, token_a, token_b, user1, user2 }
}

impl TestPool {
    /// Has the host carry out what the last call asked for.
    fn settle<T>(&mut self, result: Result<T, PoolError>) -> Result<T, PoolError> {
        if result.is_ok() {
            self.tokens.carry_out(&self.env.actions);
        }
        result
    }

    fn add_liquidity(
        &mut self,
        from: Address,
        a: i128,
        b: i128,
        min_a: i128,
        min_b: i128,
    ) -> Result<(i128, i128, i128), PoolError> {
        self.env.actions.clear();
        let result = ConstantProductPool::add_liquidity(&mut self.env, from, a, b, min_a, min_b);
        self.settle(result)
    }

    fn remove_liquidity(
        &mut self,
        from: Address,
        shares: i128,
        min_a: i128,
        min_b: i128,
    ) -> Result<(i128, i128), PoolError> {
        self.env.actions.clear();
        let result =
            ConstantProductPool::remove_liquidity(&mut self.env, from, shares, min_a, min_b);
        self.settle(result)
    }

    fn swap_exact_in(
        &mut self,
        from: Address,
        token_in: Address,
        amount_in: i128,
        min_amount_out: i128,
        to: Address,
    ) -> Result<i128, PoolError> {
        self.env.actions.clear();
        let result = ConstantProductPool::swap_exact_in(
            &mut self.env,
            from,
            token_in,
            amount_in,
            min_amount_out,
            to,
        );
        self.settle(result)
    }

    fn swap_exact_out(
        &mut self,
        from: Address,
        token_out: Address,
        amount_out: i128,
        max_amount_in: i128,
        to: Address,
    ) -> Result<i128, PoolError> {
        self.env.actions.clear();
        let result = ConstantProductPool::swap_exact_out(
            &mut self.env,
            from,
            token_out,
            amount_out,
            max_amount_in,
            to,
        );
        self.settle(result)
    }

    fn transfer_shares(&mut self, from: Address, to: Address, amount: i128) -> Result<(), PoolError> {
        self.env.actions.clear();
        let result = ConstantProductPool::transfer_shares(&mut self.env, from, to, amount);
        self.settle(result)
    }

    fn quote(&self, token_in: Address, amount_in: i128) -> Result<i128, PoolError> {
        ConstantProductPool::quote_amount_out(&self.env, token_in, amount_in)
    }

    fn balance(&mut self, id: Address) -> i128 {
        ConstantProductPool::balance(&mut self.env, id)
    }

    fn total_shares(&self) -> i128 {
        ConstantProductPool::total_shares(&self.env)
    }

    fn get_reserves(&self) -> (i128, i128) {
        ConstantProductPool::get_reserves(&self.env).unwrap()
    }
}

// ---- initialize ----

#[test]
fn test_initialize_sets_tokens_and_zero_reserves() {
    let t = setup();
    assert_eq!(ConstantProductPool::token_a(&t.env), Ok(t.token_a));
    assert_eq!(ConstantProductPool::token_b(&t.env), Ok(t.token_b));
    assert_eq!(t.get_reserves(), (0, 0));
    assert_eq!(t.total_shares(), 0);
}

#[test]
fn test_initialize_twice_rejected() {
    let mut t = setup();
    let res = ConstantProductPool::initialize(&mut t.env, t.token_a, t.token_b);
    assert!(res.is_err());
    assert_eq!(res, Err(PoolError::AlreadyInitialized));
}

#[test]
fn test_initialize_identical_tokens_rejected() {
    let mut env = Env::new(contract(1));
    let token_a = contract(2);
    let res = ConstantProductPool::initialize(&mut env, token_a, token_a);
    assert!(res.is_err());
    assert_eq!(res, Err(PoolError::IdenticalTokens));
}

// ---- add_liquidity / remove_liquidity ----

#[test]
fn test_first_deposit_prices_shares_as_sqrt_and_locks_minimum_liquidity() {
    let mut t = setup();

    // 10_000 * 40_000 = 400_000_000 = 20_000^2, an exact square, so that the
    // expected number of shares is exact too.
    let (amount_a, amount_b, shares) =
        t.add_liquidity(t.user1, 10_000, 40_000, 0, 0).unwrap();

    assert_eq!(amount_a, 10_000);
    assert_eq!(amount_b, 40_000);
    assert_eq!(shares, 19_000);
    assert_eq!(t.balance(t.user1), 19_000);
    // The supply counts the 1_000 locked shares that nobody was credited with.
    assert_eq!(t.total_shares(), 20_000);
    assert_eq!(t.get_reserves(), (10_000, 40_000));

    assert_eq!(t.tokens.balance(t.token_a, t.pool), 10_000);
    assert_eq!(t.tokens.balance(t.token_b, t.pool), 40_000);
}

#[test]
fn test_second_deposit_mints_shares_proportionally() {
    let mut t = setup();
    t.add_liquidity(t.user1, 10_000, 40_000, 0, 0).unwrap();

    // Doubling the pool doubles the supply.
    let total_before = t.total_shares();
    let (amount_a, amount_b, shares) =
        t.add_liquidity(t.user2, 10_000, 40_000, 0, 0).unwrap();

    assert_eq!(amount_a, 10_000);
    assert_eq!(amount_b, 40_000);
    assert_eq!(shares, total_before);
    assert_eq!(t.get_reserves(), (20_000, 80_000));
}

#[test]
fn test_add_liquidity_clamps_to_pool_ratio() {
    let mut t = setup();
    t.add_liquidity(t.user1, 10_000, 40_000, 0, 0).unwrap();

    // 10_000 of A would go with 40_000 of B, more than is offered, so A is cut
    // down: 10_000 * 10_000 / 40_000 = 2_500.
    let (amount_a, amount_b, _shares) =
        t.add_liquidity(t.user2, 10_000, 10_000, 0, 0).unwrap();

    assert_eq!(amount_a, 2_500);
    assert_eq!(amount_b, 10_000);
}

#[test]
fn test_remove_liquidity_returns_proportional_reserves() {
    let mut t = setup();
    t.add_liquidity(t.user1, 10_000, 40_000, 0, 0).unwrap();

    let a_before = t.tokens.balance(t.token_a, t.user1);
    let b_before = t.tokens.balance(t.token_b, t.user1);

    let shares = t.balance(t.user1);
    let (amount_a, amount_b) = t.remove_liquidity(t.user1, shares, 0, 0).unwrap();

    // 19_000 of the 20_000 shares stand for that part of each reserve.
    assert_eq!(amount_a, 9_500);
    assert_eq!(amount_b, 38_000);
    assert_eq!(t.balance(t.user1), 0);
    assert_eq!(t.get_reserves(), (500, 2_000));

    assert_eq!(t.tokens.balance(t.token_a, t.user1), a_before + amount_a);
    assert_eq!(t.tokens.balance(t.token_b, t.user1), b_before + amount_b);
}

#[test]
fn test_remove_liquidity_more_than_owned_rejected() {
    let mut t = setup();
    t.add_liquidity(t.user1, 10_000, 40_000, 0, 0).unwrap();

    let owned = t.balance(t.user1);
    let res = t.remove_liquidity(t.user1, owned + 1, 0, 0);
    assert!(res.is_err());
    assert_eq!(res, Err(PoolError::InsufficientShareBalance));
}

// ---- no liquidity ----

#[test]
fn test_swap_against_empty_pool_rejected() {
    let mut t = setup();
    let res = t.swap_exact_in(t.user1, t.token_a, 1_000, 0, t.user1);
    assert!(res.is_err());
    assert_eq!(res, Err(PoolError::InsufficientLiquidity));
}

#[test]
fn test_remove_liquidity_from_empty_pool_rejected() {
    let mut t = setup();
    let res = t.remove_liquidity(t.user1, 1, 0, 0);
    assert!(res.is_err());
    assert_eq!(res, Err(PoolError::InsufficientLiquidity));
}

// ---- swaps and their fee ----

#[test]
fn test_swap_exact_in_matches_constant_product_formula_with_fee() {
    let mut t = setup();
    t.add_liquidity(t.user1, 1_000_000, 1_000_000, 0, 0).unwrap();

    let amount_in: i128 = 10_000;
    let amount_in_with_fee = amount_in * 9_970;
    let expected_out =
        (amount_in_with_fee * 1_000_000) / (1_000_000 * 10_000 + amount_in_with_fee);
    assert_eq!(expected_out, 9_871);

    let quoted = t.quote(t.token_a, amount_in).unwrap();
    assert_eq!(quoted, expected_out);

    let a_before = t.tokens.balance(t.token_a, t.user2);
    let b_before = t.tokens.balance(t.token_b, t.user2);

    let amount_out = t
        .swap_exact_in(t.user2, t.token_a, amount_in, expected_out, t.user2)
        .unwrap();

    let events: Vec<&Action> =
        t.env.actions.iter().filter(|action| matches!(action, Action::Publish(_))).collect();
    assert!(!events.is_empty());

    assert_eq!(amount_out, expected_out);
    assert_eq!(t.tokens.balance(t.token_a, t.user2), a_before - amount_in);
    assert_eq!(t.tokens.balance(t.token_b, t.user2), b_before + amount_out);
    assert_eq!(t.get_reserves(), (1_000_000 + amount_in, 1_000_000 - amount_out));
}

#[test]
fn test_swap_exact_out_matches_exact_in_inverse() {
    let mut t = setup();
    t.add_liquidity(t.user1, 1_000_000, 1_000_000, 0, 0).unwrap();

    let desired_out: i128 = 9_871;
    let amount_in = t
        .swap_exact_out(t.user2, t.token_b, desired_out, 10_000, t.user2)
        .unwrap();

    assert!(amount_in <= 10_000);
    assert_eq!(t.get_reserves(), (1_000_000 + amount_in, 1_000_000 - desired_out));
}

#[test]
fn test_round_trip_swap_costs_the_fee() {
    let mut t = setup();
    t.add_liquidity(t.user1, 1_000_000, 1_000_000, 0, 0).unwrap();

    let start = t.tokens.balance(t.token_a, t.user2);
    let out_b = t.swap_exact_in(t.user2, t.token_a, 100_000, 0, t.user2).unwrap();
    let out_a = t.swap_exact_in(t.user2, t.token_b, out_b, 0, t.user2).unwrap();

    assert!(out_a < 100_000);
    assert_eq!(t.tokens.balance(t.token_a, t.user2), start - 100_000 + out_a);

    let (reserve_a, reserve_b) = t.get_reserves();
    assert!(reserve_a * reserve_b > 1_000_000_i128 * 1_000_000_i128);
}

// ---- slippage ----

#[test]
fn test_swap_exact_in_slippage_rejected() {
    let mut t = setup();
    t.add_liquidity(t.user1, 1_000_000, 1_000_000, 0, 0).unwrap();

    let quoted = t.quote(t.token_a, 10_000).unwrap();
    let res = t.swap_exact_in(t.user2, t.token_a, 10_000, quoted + 1, t.user2);
    assert!(res.is_err());
    assert_eq!(res, Err(PoolError::SlippageExceededMinOut));
}

#[test]
fn test_swap_exact_out_slippage_rejected() {
    let mut t = setup();
    t.add_liquidity(t.user1, 1_000_000, 1_000_000, 0, 0).unwrap();

    let amount_out: i128 = 9_871;
    let res = t.swap_exact_out(t.user2, t.token_b, amount_out, 1, t.user2);
    assert!(res.is_err());
    assert_eq!(res, Err(PoolError::SlippageExceededMaxIn));
}

#[test]
fn test_add_liquidity_slippage_rejected() {
    let mut t = setup();
    t.add_liquidity(t.user1, 10_000, 40_000, 0, 0).unwrap();

    // At the ratio of 1:4, only 4_000 of B go with 1_000 of A.
    let res = t.add_liquidity(t.user2, 1_000, 5_000, 0, 5_000);
    assert!(res.is_err());
    assert_eq!(res, Err(PoolError::InsufficientBAmount));
}

#[test]
fn test_remove_liquidity_slippage_rejected() {
    let mut t = setup();
    t.add_liquidity(t.user1, 10_000, 40_000, 0, 0).unwrap();

    let shares = t.balance(t.user1);
    let res = t.remove_liquidity(t.user1, shares, 1_000_000, 0);
    assert!(res.is_err());
    assert_eq!(res, Err(PoolError::InsufficientAOutput));
}

// ---- overflow ----

#[test]
fn test_swap_with_overflowing_amount_rejected() {
    let mut t = setup();
    t.add_liquidity(t.user1, 1_000_000, 1_000_000, 0, 0).unwrap();

    let res = t.swap_exact_in(t.user2, t.token_a, i128::MAX, 0, t.user2);
    assert!(res.is_err());
    assert_eq!(res, Err(PoolError::ArithmeticOverflow));
}

#[test]
fn test_add_liquidity_with_overflowing_amount_rejected() {
    let mut t = setup();
    let res = t.add_liquidity(t.user1, i128::MAX, 2, 0, 0);
    assert!(res.is_err());
    assert_eq!(res, Err(PoolError::ArithmeticOverflow));
}

#[test]
fn test_negative_amount_rejected() {
    let mut t = setup();
    t.add_liquidity(t.user1, 1_000_000, 1_000_000, 0, 0).unwrap();

    let res = t.swap_exact_in(t.user2, t.token_a, -1, 0, t.user2);
    assert!(res.is_err());
    assert_eq!(res, Err(PoolError::AmountMustBePositive));
}

// ---- share transfer ----

#[test]
fn test_transfer_shares_moves_balance() {
    let mut t = setup();
    t.add_liquidity(t.user1, 10_000, 40_000, 0, 0).unwrap();

    let shares = t.balance(t.user1);
    t.transfer_shares(t.user1, t.user2, shares).unwrap();

    assert_eq!(t.balance(t.user1), 0);
    assert_eq!(t.balance(t.user2), shares);

    let (amount_a, amount_b) = t.remove_liquidity(t.user2, shares, 0, 0).unwrap();
    assert!(amount_a > 0 && amount_b > 0);
}

// ---- further scenarios ----

#[test]
fn deployed_pool_trades_as_quoted() {
    let mut t = setup();
    let (_, _, shares) = t.add_liquidity(t.user1, 1_000_000, 4_000_000, 0, 0).unwrap();
    assert_eq!(shares, 1_999_000);
    assert_eq!(t.total_shares(), 2_000_000);
    assert_eq!(t.quote(t.token_a, 10_000), Ok(39_486));
    assert_eq!(t.swap_exact_in(t.user2, t.token_a, 10_000, 0, t.user2), Ok(39_486));
    assert_eq!(t.get_reserves(), (1_010_000, 3_960_514));
    assert!(1_010_000_i128 * 3_960_514 > 1_000_000_i128 * 4_000_000);
}

#[test]
fn output_can_go_to_someone_else() {
    let mut t = setup();
    t.add_liquidity(t.user1, 1_000_000, 1_000_000, 0, 0).unwrap();
    let friend = account(9);
    let out = t.swap_exact_in(t.user2, t.token_b, 10_000, 0, friend).unwrap();
    assert_eq!(out, 9_871);
    assert_eq!(t.tokens.balance(t.token_a, friend), 9_871);
    assert_eq!(t.get_reserves(), (1_000_000 - 9_871, 1_010_000));
}

#[test]
fn exact_output_costs_the_least() {
    let mut t = setup();
    t.add_liquidity(t.user1, 1_000_000, 1_000_000, 0, 0).unwrap();
    // 1_000_000 * 9_871 * 10_000 / (990_129 * 9_970), rounded up.
    let cost = t.swap_exact_out(t.user2, t.token_b, 9_871, 10_000, t.user2).unwrap();
    assert_eq!(cost, 10_000);

    let mut u = setup();
    u.add_liquidity(u.user1, 1_000_000, 1_000_000, 0, 0).unwrap();
    assert!(u.quote(u.token_a, cost).unwrap() >= 9_871);
    assert!(u.quote(u.token_a, cost - 1).unwrap() < 9_871);
}

#[test]
fn exact_output_of_token_a_takes_token_b() {
    let mut t = setup();
    t.add_liquidity(t.user1, 1_000_000, 4_000_000, 0, 0).unwrap();
    // 4_000_000 * 1_000 * 10_000 / (999_000 * 9_970) = 4_016.04.., rounded up.
    assert_eq!(t.swap_exact_out(t.user2, t.token_a, 1_000, 5_000, t.user2), Ok(4_017));
    assert_eq!(t.get_reserves(), (999_000, 4_004_017));
    assert_eq!(t.tokens.balance(t.token_a, t.pool), 999_000);
    assert_eq!(t.tokens.balance(t.token_b, t.pool), 4_004_017);
}

#[test]
fn deposit_and_withdrawal_gain_nothing() {
    let mut t = setup();
    t.add_liquidity(t.user1, 10_007, 39_989, 0, 0).unwrap();
    let (a, b, shares) = t.add_liquidity(t.user2, 3_333, 20_000, 0, 0).unwrap();
    assert_eq!((a, b), (3_333, 13_319));
    let (back_a, back_b) = t.remove_liquidity(t.user2, shares, 0, 0).unwrap();
    assert!(back_a <= a && back_b <= b);
}

#[test]
fn locked_minimum_keeps_the_pool_alive() {
    let mut t = setup();
    t.add_liquidity(t.user1, 10_000, 40_000, 0, 0).unwrap();
    t.remove_liquidity(t.user1, 19_000, 0, 0).unwrap();
    assert_eq!(t.total_shares(), 1_000);
    assert_eq!(t.get_reserves(), (500, 2_000));
    assert_eq!(
        t.remove_liquidity(t.user1, 1, 0, 0),
        Err(PoolError::InsufficientLiquidity)
    );
    assert_eq!(
        t.remove_liquidity(t.user1, 10, 0, 0),
        Err(PoolError::InsufficientShareBalance)
    );
    assert!(t.quote(t.token_a, 100).unwrap() > 0);
}

#[test]
fn shares_can_be_handed_back() {
    let mut t = setup();
    t.add_liquidity(t.user1, 10_000, 40_000, 0, 0).unwrap();
    t.transfer_shares(t.user1, t.user2, 7_000).unwrap();
    assert_eq!((t.balance(t.user1), t.balance(t.user2)), (12_000, 7_000));
    t.transfer_shares(t.user2, t.user1, 7_000).unwrap();
    assert_eq!((t.balance(t.user1), t.balance(t.user2)), (19_000, 0));
    t.transfer_shares(t.user1, t.user1, 19_000).unwrap();
    assert_eq!(t.balance(t.user1), 19_000);
    assert_eq!(t.total_shares(), 20_000);
}

#[test]
fn each_share_keeps_its_worth() {
    let mut t = setup();
    t.add_liquidity(t.user1, 12_345, 54_321, 0, 0).unwrap();
    let mut worth = (t.get_reserves(), t.total_shares());
    for step in 0..4 {
        match step {
            0 => {
                t.add_liquidity(t.user2, 777, 9_999, 0, 0).unwrap();
            }
            1 => {
                t.swap_exact_in(t.user2, t.token_b, 1_234, 0, t.user2).unwrap();
            }
            2 => {
                t.remove_liquidity(t.user2, 321, 0, 0).unwrap();
            }
            _ => {
                t.swap_exact_out(t.user2, t.token_b, 55, 1_000, t.user2).unwrap();
            }
        }
        let now = (t.get_reserves(), t.total_shares());
        let ((a0, b0), s0) = worth;
        let ((a1, b1), s1) = now;
        assert!(a1 * b1 * s0 * s0 >= a0 * b0 * s1 * s1);
        assert_eq!(t.tokens.balance(t.token_a, t.pool), a1);
        assert_eq!(t.tokens.balance(t.token_b, t.pool), b1);
        worth = now;
    }
}
