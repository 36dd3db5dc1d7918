use vstd::prelude::*;

verus! {

/// Every way in which the pool refuses a call. A refusal is a value, never a
/// panic: callers match on the variant, or on its stable numeric [`code`].
///
/// [`code`]: PoolError::code
#[derive(Copy, Clone, Debug, Eq, PartialEq, PartialOrd, Ord, Structural)]
pub enum PoolError {
    /// `initialize` was called on a pool that already has tokens configured.
    AlreadyInitialized,
    /// A call was made before `initialize` set up the pool.
    NotInitialized,
    /// `token_a` and `token_b` were the same address.
    IdenticalTokens,
    /// A deposit, withdrawal, swap or transfer amount was out of range.
    AmountMustBePositive,
    /// The clamped deposit of token A fell below the caller's minimum.
    InsufficientAAmount,
    /// The clamped deposit of token B fell below the caller's minimum.
    InsufficientBAmount,
    /// A withdrawal would return less of token A than requested.
    InsufficientAOutput,
    /// A withdrawal would return less of token B than requested.
    InsufficientBOutput,
    /// A swap's realized output was below `min_amount_out`.
    SlippageExceededMinOut,
    /// A swap's required input was above `max_amount_in`.
    SlippageExceededMaxIn,
    /// The pool holds no liquidity that could serve the call.
    InsufficientLiquidity,
    /// More shares were to leave an account than it owns.
    InsufficientShareBalance,
    /// A swap asked for more of the output token than the pool can give.
    InsufficientOutputReserve,
    /// The token named in a swap is not one of the pool's two tokens.
    InvalidToken,
    /// A checked arithmetic operation would have overflowed or divided by zero.
    ArithmeticOverflow,
    /// The deposit was too small to mint any share beyond the locked minimum.
    InsufficientInitialLiquidity,
    /// The pool is already executing a state-changing call.
    ReentrancyDetected,
}

impl PoolError {
    /// The number under which the error is reported on the ledger: the
    /// variants count from one, in the order in which they are declared.
    pub open spec fn number(self) -> u32 {
        match self {
            PoolError::AlreadyInitialized => 1,
            PoolError::NotInitialized => 2,
            PoolError::IdenticalTokens => 3,
            PoolError::AmountMustBePositive => 4,
            PoolError::InsufficientAAmount => 5,
            PoolError::InsufficientBAmount => 6,
            PoolError::InsufficientAOutput => 7,
            PoolError::InsufficientBOutput => 8,
            PoolError::SlippageExceededMinOut => 9,
            PoolError::SlippageExceededMaxIn => 10,
            PoolError::InsufficientLiquidity => 11,
            PoolError::InsufficientShareBalance => 12,
            PoolError::InsufficientOutputReserve => 13,
            PoolError::InvalidToken => 14,
            PoolError::ArithmeticOverflow => 15,
            PoolError::InsufficientInitialLiquidity => 16,
            PoolError::ReentrancyDetected => 17,
        }
    }

    /// Returns the error's stable numeric code.
    pub fn code(self) -> (code: u32)
        ensures
            code == self.number(),
    {
        match self {
            PoolError::AlreadyInitialized => 1,
            PoolError::NotInitialized => 2,
            PoolError::IdenticalTokens => 3,
            PoolError::AmountMustBePositive => 4,
            PoolError::InsufficientAAmount => 5,
            PoolError::InsufficientBAmount => 6,
            PoolError::InsufficientAOutput => 7,
            PoolError::InsufficientBOutput => 8,
            PoolError::SlippageExceededMinOut => 9,
            PoolError::SlippageExceededMaxIn => 10,
            PoolError::InsufficientLiquidity => 11,
            PoolError::InsufficientShareBalance => 12,
            PoolError::InsufficientOutputReserve => 13,
            PoolError::InvalidToken => 14,
            PoolError::ArithmeticOverflow => 15,
            PoolError::InsufficientInitialLiquidity => 16,
            PoolError::ReentrancyDetected => 17,
        }
    }
}

} // verus!
