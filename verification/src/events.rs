//! The events by which the pool reports its state changes.

use vstd::prelude::*;

use crate::address::Address;
use crate::host::{Action, Env};

verus! {

#[derive(Copy, Clone, Debug, PartialEq, Eq)]
pub struct Initialize {
    pub token_a: Address,
    pub token_b: Address,
}

#[derive(Copy, Clone, Debug, PartialEq, Eq)]
pub struct AddLiquidity {
    pub provider: Address,
    pub amount_a: i128,
    pub amount_b: i128,
    pub shares_minted: i128,
}

#[derive(Copy, Clone, Debug, PartialEq, Eq)]
pub struct RemoveLiquidity {
    pub provider: Address,
    pub amount_a: i128,
    pub amount_b: i128,
    pub shares_burned: i128,
}

#[derive(Copy, Clone, Debug, PartialEq, Eq)]
pub struct Swap {
    pub trader: Address,
    pub token_in: Address,
    pub amount_in: i128,
    pub token_out: Address,
    pub amount_out: i128,
}

/// Any of the pool's events.
#[derive(Copy, Clone, Debug, PartialEq, Eq)]
pub enum Event {
    Initialize(Initialize),
    AddLiquidity(AddLiquidity),
    RemoveLiquidity(RemoveLiquidity),
    Swap(Swap),
}

pub fn initialize(env: &mut Env, token_a: Address, token_b: Address)
    ensures
        final(env)@ == old(env)@.act(
            Action::Publish(Event::Initialize(Initialize { token_a, token_b })),
        ),
{
    env.act(Action::Publish(Event::Initialize(Initialize { token_a, token_b })));
}

pub fn add_liquidity(
    env: &mut Env,
    provider: Address,
    amount_a: i128,
    amount_b: i128,
    shares_minted: i128,
)
    ensures
        final(env)@ == old(env)@.act(
            Action::Publish(
                Event::AddLiquidity(AddLiquidity { provider, amount_a, amount_b, shares_minted }),
            ),
        ),
{
    env.act(
        Action::Publish(
            Event::AddLiquidity(AddLiquidity { provider, amount_a, amount_b, shares_minted }),
        ),
    );
}

pub fn remove_liquidity(
    env: &mut Env,
    provider: Address,
    amount_a: i128,
    amount_b: i128,
    shares_burned: i128,
)
    ensures
        final(env)@ == old(env)@.act(
            Action::Publish(
                Event::RemoveLiquidity(
                    RemoveLiquidity { provider, amount_a, amount_b, shares_burned },
                ),
            ),
        ),
{
    env.act(
        Action::Publish(
            Event::RemoveLiquidity(RemoveLiquidity { provider, amount_a, amount_b, shares_burned }),
        ),
    );
}

pub fn swap(
    env: &mut Env,
    trader: Address,
    token_in: Address,
    amount_in: i128,
    token_out: Address,
    amount_out: i128,
)
    ensures
        final(env)@ == old(env)@.act(
            Action::Publish(
                Event::Swap(Swap { trader, token_in, amount_in, token_out, amount_out }),
            ),
        ),
{
    env.act(
        Action::Publish(Event::Swap(Swap { trader, token_in, amount_in, token_out, amount_out })),
    );
}

} // verus!
