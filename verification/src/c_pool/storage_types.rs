use vstd::prelude::*;
use crate::address::Address;

verus! {

/// Ledgers in a day.
pub const DAY_IN_LEDGERS: u32 = 17280;

/// By how many ledgers the lifetime of the pool's shared state is extended.
pub const SHARED_BUMP_AMOUNT: u32 = 31 * DAY_IN_LEDGERS;

/// The shared state is extended once its lifetime is below this.
pub const SHARED_LIFETIME_THRESHOLD: u32 = SHARED_BUMP_AMOUNT - DAY_IN_LEDGERS;

/// By how many ledgers the lifetime of a share balance is extended.
pub const BALANCE_BUMP_AMOUNT: u32 = 120 * DAY_IN_LEDGERS;

/// A share balance is extended once its lifetime is below this.
pub const BALANCE_LIFETIME_THRESHOLD: u32 = BALANCE_BUMP_AMOUNT - 20 * DAY_IN_LEDGERS;

/// What the pool keeps of a bound token.
#[derive(Clone, Copy, Debug, PartialEq, Eq, Structural)]
pub struct Record {
    /// The reserve, in the token's own units.
    pub balance: i128,
    /// The denormalized weight, in fixed point.
    pub weight: i128,
    /// The factor that takes an amount in the token's own units to the
    /// fixed-point scale: ten to the power of the decimal places that the
    /// token lacks.
    pub scalar: i128,
    /// The token's position in the pool's token list.
    pub index: u32,
}

impl Default for Record {
    fn default() -> (r: Record)
        ensures
            r == (Record { balance: 0, weight: 0, scalar: 0, index: 0 }),
    {
        Record { balance: 0, weight: 0, scalar: 0, index: 0 }
    }
}

/// The keys under which the pool's state is stored.
#[derive(Clone, Copy, Debug, PartialEq, Eq, Structural)]
pub enum DataKey {
    /// The address of the factory that deployed the pool.
    Factory,
    /// The address of the controller.
    Controller,
    /// The swap fee.
    SwapFee,
    /// The list of bound tokens.
    AllTokenVec,
    /// The records of the bound tokens.
    AllRecordData,
    /// The address of the share token.
    TokenShare,
    /// The outstanding supply of pool shares.
    TotalShares,
    /// Whether swaps are open to the public.
    PublicSwap,
    /// Whether the pool is finalized.
    Finalize,
    /// Whether the pool is frozen.
    Freeze,
}

/// The keys under which the pool's share token is stored.
#[derive(Clone, Copy, Debug, PartialEq, Eq, Structural)]
pub enum DataKeyToken {
    /// The allowance that one holder gave to a spender.
    Allowance(AllowanceDataKey),
    /// The share balance of a holder.
    Balance(Address),
    /// The nonce of a holder.
    Nonce(Address),
    /// The state of a holder.
    State(Address),
    /// The administrator of the share token.
    Admin,
}

/// Who gave an allowance, and to whom.
#[derive(Clone, Copy, Debug, PartialEq, Eq, Structural)]
pub struct AllowanceDataKey {
    pub from: Address,
    pub spender: Address,
}

/// An allowance and the ledger after which it is void.
#[derive(Clone, Copy, Debug, PartialEq, Eq, Structural)]
pub struct AllowanceValue {
    pub amount: i128,
    pub expiration_ledger: u32,
}

} // verus!
