use vstd::prelude::*;

verus! {

/// Why an operation was refused. An operation that returns an error has not
/// changed the pool.
#[derive(Clone, Copy, Debug, PartialEq, Eq, Structural)]
pub enum Error {
    /// The caller is not the identity that the operation is reserved for.
    Unauthorized,
    /// The operation is not available in the pool's current lifecycle phase.
    InvalidPhase,
    /// `bind` named a token that the pool already holds.
    TokenAlreadyBound,
    /// The operation named a token that the pool does not hold.
    TokenNotBound,
    /// `bind` would take the pool past its maximum number of tokens.
    MaxTokensExceeded,
    /// An intermediate value left the signed 128-bit range.
    ArithmeticOverflow,
    /// A fixed-point division had a zero divisor.
    DivisionByZero,
    /// A value lies outside the domain that the operation is defined on.
    OutOfBounds,
    /// The amount paid in is more than the allowed fraction of the reserve.
    MaxInRatioExceeded,
    /// The amount taken out is more than the allowed fraction of the reserve.
    MaxOutRatioExceeded,
    /// The result is worse than the limit that the caller gave.
    SlippageExceeded,
    /// The spot price after the trade is above the caller's limit.
    PriceLimitExceeded,
    /// The pool is frozen.
    PoolFrozen,
    /// A reserve or a share balance is too small for the operation.
    InsufficientLiquidity,
}

} // verus!
