use vstd::prelude::*;
use crate::address::Address;
use crate::c_pool::error::Error;
use crate::c_pool::lifecycle::transition;
use crate::c_pool::swap::Swap;
use crate::fuzz::fixture::TestFixture;

pub mod fixture;

verus! {

/// An amount between zero and the largest unsigned 32-bit value.
#[derive(Clone, Copy, Debug, PartialEq, Eq, Structural)]
pub struct NatI128(pub i128);

/// An amount between a hundred million and the largest signed 64-bit value:
/// a reserve to start a pool with.
#[derive(Clone, Copy, Debug, PartialEq, Eq, Structural)]
pub struct LargeI128(pub i128);

impl NatI128 {
    /// Whether the amount is in its range.
    pub open spec fn in_range(self) -> bool {
        0 <= self.0 <= u32::MAX
    }

    /// The amount `value`, if it is in the range.
    pub fn new(value: i128) -> (r: Option<NatI128>)
        ensures
            r == if NatI128(value).in_range() {
                Some(NatI128(value))
            } else {
                None
            },
    {
        if 0 <= value && value <= 4_294_967_295 {
            Some(NatI128(value))
        } else {
            None
        }
    }
}

impl LargeI128 {
    /// Whether the amount is in its range.
    pub open spec fn in_range(self) -> bool {
        100_000_000 <= self.0 <= i64::MAX
    }

    /// The amount `value`, if it is in the range.
    pub fn new(value: i128) -> (r: Option<LargeI128>)
        ensures
            r == if LargeI128(value).in_range() {
                Some(LargeI128(value))
            } else {
                None
            },
    {
        if 100_000_000 <= value && value <= 9_223_372_036_854_775_807 {
            Some(LargeI128(value))
        } else {
            None
        }
    }
}

/// The set of tokens that the pool of a fixture supports.
#[derive(Clone, Copy, Debug, PartialEq, Eq, Structural)]
pub enum PoolToken {
    ONE,
    TWO,
}

impl PoolToken {
    /// The other token.
    pub open spec fn other_spec(self) -> PoolToken {
        match self {
            PoolToken::ONE => PoolToken::TWO,
            PoolToken::TWO => PoolToken::ONE,
        }
    }

    /// The other token.
    pub fn other(&self) -> (r: PoolToken)
        ensures
            r == self.other_spec(),
    {
        match self {
            PoolToken::ONE => PoolToken::TWO,
            PoolToken::TWO => PoolToken::ONE,
        }
    }
}

/// Swap `amount` of `token_in` into the pool for at least `min_out` of the
/// other token.
#[derive(Clone, Copy, Debug, PartialEq, Eq, Structural)]
pub struct SwapExactIn {
    pub amount: NatI128,
    pub min_out: NatI128,
    pub token_in: PoolToken,
}

/// Swap `amount` of `token_out` out of the pool for at most `max_in` of the
/// other token.
#[derive(Clone, Copy, Debug, PartialEq, Eq, Structural)]
pub struct SwapExactOut {
    pub amount: NatI128,
    pub max_in: NatI128,
    pub token_out: PoolToken,
}

impl SwapExactIn {
    /// Makes the swap on the pool of `fixture`, for the user with the index
    /// `user_index`, without a limit on the price. The result is that of
    /// `swap_exact_amount_in`; a swap that is refused leaves the fixture as
    /// it was.
    pub fn run(&self, fixture: &mut TestFixture, user_index: usize) -> (r: Result<Swap, Error>)
        requires
            old(fixture).wf(),
            user_index < 2,
        ensures
            final(fixture).wf(),
            final(fixture).same_setting(*old(fixture)),
            ({
                let token_in = old(fixture).token(self.token_in);
                let token_out = old(fixture).token(self.token_in.other_spec());
                let quote = old(fixture).pool@.swap_in_quote(
                    token_in,
                    self.amount.0,
                    token_out,
                    self.min_out.0,
                    i128::MAX,
                );
                &&& transition(
                    old(fixture).pool@,
                    final(fixture).pool@,
                    r,
                    old(fixture).pool@.swapped(token_in, token_out, quote),
                )
                &&& r matches Ok(swap) ==> swap.is(quote->Ok_0)
            }),
    {
        let _user: Address = fixture.user(user_index);
        let token_in: Address = fixture.address_of(self.token_in);
        let token_out: Address = fixture.address_of(self.token_in.other());
        fixture.pool.swap_exact_amount_in(
            token_in,
            self.amount.0,
            token_out,
            self.min_out.0,
            i128::MAX,
        )
    }
}

impl SwapExactOut {
    /// Makes the swap on the pool of `fixture`, for the user with the index
    /// `user_index`, without a limit on the price. The result is that of
    /// `swap_exact_amount_out`; a swap that is refused leaves the fixture as
    /// it was.
    pub fn run(&self, fixture: &mut TestFixture, user_index: usize) -> (r: Result<Swap, Error>)
        requires
            old(fixture).wf(),
            user_index < 2,
        ensures
            final(fixture).wf(),
            final(fixture).same_setting(*old(fixture)),
            ({
                let token_in = old(fixture).token(self.token_out.other_spec());
                let token_out = old(fixture).token(self.token_out);
                let quote = old(fixture).pool@.swap_out_quote(
                    token_in,
                    self.max_in.0,
                    token_out,
                    self.amount.0,
                    i128::MAX,
                );
                &&& transition(
                    old(fixture).pool@,
                    final(fixture).pool@,
                    r,
                    old(fixture).pool@.swapped(token_in, token_out, quote),
                )
                &&& r matches Ok(swap) ==> swap.is(quote->Ok_0)
            }),
    {
        let _user: Address = fixture.user(user_index);
        let token_in: Address = fixture.address_of(self.token_out.other());
        let token_out: Address = fixture.address_of(self.token_out);
        fixture.pool.swap_exact_amount_out(
            token_in,
            self.max_in.0,
            token_out,
            self.amount.0,
            i128::MAX,
        )
    }
}

} // verus!
