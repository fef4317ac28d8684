use vstd::prelude::*;
use crate::address::Address;

verus! {

/// The token's instance is extended once its lifetime is below two days.
pub const INSTANCE_BUMP_THRESHOLD: u32 = 34560;

/// By how many ledgers, four days, the token's instance is extended.
pub const INSTANCE_BUMP_AMOUNT: u32 = 69120;

/// A balance is extended once its lifetime is below thirty days.
pub const BALANCE_BUMP_THRESHOLD: u32 = 518400;

/// By how many ledgers, forty-five days, a balance is extended.
pub const BALANCE_BUMP_AMOUNT: u32 = 777600;

/// Who gave an allowance, and to whom.
#[derive(Clone, Copy, Debug, PartialEq, Eq, Structural)]
pub struct AllowanceDataKey {
    pub from: Address,
    pub spender: Address,
}

/// An allowance and the ledger after which it is void.
#[derive(Clone, Copy, Debug, PartialEq, Eq, Structural)]
pub struct AllowanceValue {
    pub amount: i128,
    pub expiration_ledger: u32,
}

/// The keys under which a token is stored.
#[derive(Clone, Copy, Debug, PartialEq, Eq, Structural)]
pub enum DataKey {
    /// The allowance that one holder gave to a spender.
    Allowance(AllowanceDataKey),
    /// The balance of a holder.
    Balance(Address),
    /// The nonce of a holder.
    Nonce(Address),
    /// The state of a holder.
    State(Address),
    /// The administrator of the token.
    Admin,
}

} // verus!
