use vstd::prelude::*;

verus! {

/// One unit of the fixed-point scale: every balance, weight, share amount and
/// fee is an integer count of `1 / BONE`.
pub const BONE: i128 = 10_000_000;

/// Half a unit, the threshold of rounding to nearest.
pub const HALF_BONE: i128 = 5_000_000;

/// Smallest base that `c_pow` accepts.
pub const MIN_CPOW_BASE: i128 = 1;

/// Largest base that `c_pow` accepts: just under two units.
pub const MAX_CPOW_BASE: i128 = 19_999_999;

/// A term of the power series below this size ends the series.
pub const CPOW_PRECISION: i128 = 1;

/// The power series is cut after this many terms at the latest.
pub const MAX_CPOW_TERMS: u32 = 255;

/// Smallest swap fee: one millionth.
pub const MIN_FEE: i128 = 10;

/// Largest swap fee: one tenth.
pub const MAX_FEE: i128 = 1_000_000;

/// Pool shares minted to the controller when the pool is finalized.
pub const INIT_POOL_SUPPLY: i128 = 1_000_000_000;

/// A pool needs this many tokens to be finalized.
pub const MIN_BOUND_TOKENS: usize = 2;

/// A pool holds at most this many tokens.
pub const MAX_BOUND_TOKENS: usize = 8;

/// Smallest denormalized weight of a token: one tenth.
pub const MIN_WEIGHT: i128 = 1_000_000;

/// Largest denormalized weight of a token: fifty.
pub const MAX_WEIGHT: i128 = 500_000_000;

/// Largest sum of the denormalized weights of a pool.
pub const MAX_TOTAL_WEIGHT: i128 = 500_000_000;

/// Smallest reserve, in the token's own units, that a bound token may have.
pub const MIN_BALANCE: i128 = 1;

/// Largest reserve, in the token's own units, that a bound token may have.
pub const MAX_BALANCE: i128 = 1_000_000_000_000_000_000_000_000;

/// A swap pays in at most this fraction of the reserve: one half.
pub const MAX_IN_RATIO: i128 = 5_000_000;

/// A swap takes out at most this fraction of the reserve: a third.
pub const MAX_OUT_RATIO: i128 = 3_333_334;

/// Most decimal places a token may have: those of the fixed-point scale.
pub const MAX_DECIMALS: u32 = 7;

} // verus!
