use vstd::prelude::*;
use crate::address::Address;
use crate::c_consts::BONE;
use crate::c_consts::MIN_BALANCE;
use crate::c_math::calc_in_given_out;
use crate::c_math::calc_out_given_in;
use crate::c_math::calc_spot_price;
use crate::c_math::downscale;
use crate::c_math::downscale_spec;
use crate::c_math::in_given_out_spec;
use crate::c_math::out_given_in_spec;
use crate::c_math::spot_price_spec;
use crate::c_math::upscale;
use crate::c_math::upscale_spec;
use crate::c_num::Rounding;
use crate::c_num::c_add;
use crate::c_num::fits;
use crate::c_num::lemma_signs;
use crate::c_pool::bounds::check_in_ratio;
use crate::c_pool::bounds::check_max_in;
use crate::c_pool::bounds::check_min_out;
use crate::c_pool::bounds::check_out_ratio;
use crate::c_pool::bounds::check_price;
use crate::c_pool::bounds::max_in_spec;
use crate::c_pool::bounds::max_out_spec;
use crate::c_pool::error::Error;
use crate::c_pool::lifecycle::transition;
use crate::c_pool::pool::Pool;
use crate::c_pool::pool::PoolView;
use crate::c_pool::pool::weights_of;
use crate::c_pool::storage_types::Record;

verus! {

/// What a swap moves and where it leaves the price.
#[derive(Clone, Copy, Debug, PartialEq, Eq, Structural)]
pub struct Swap {
    /// What the trader pays into the pool, in the units of the token coming
    /// in.
    pub amount_in: i128,
    /// What the pool pays to the trader, in the units of the token going out.
    pub amount_out: i128,
    /// The spot price after the swap.
    pub spot_price_after: i128,
}

/// The spot price between two records, the reserves taken to the fixed-point
/// scale.
pub open spec fn price_spec(rin: Record, rout: Record, swap_fee: int) -> Result<int, Error> {
    match upscale_spec(rin.balance as int, rin.scalar as int) {
        Err(e) => Err(e),
        Ok(balance_in) => match upscale_spec(rout.balance as int, rout.scalar as int) {
            Err(e) => Err(e),
            Ok(balance_out) => spot_price_spec(
                balance_in,
                rin.weight as int,
                balance_out,
                rout.weight as int,
                swap_fee,
            ),
        },
    }
}

/// The two records after `amount_in` came in and `amount_out` went out:
/// `ArithmeticOverflow` where the reserve coming in leaves the 128-bit range,
/// `InsufficientLiquidity` where the reserve going out falls below
/// `MIN_BALANCE`.
pub open spec fn moved_spec(rin: Record, rout: Record, amount_in: int, amount_out: int) -> Result<
    (Record, Record),
    Error,
> {
    if !fits(rin.balance + amount_in) {
        Err(Error::ArithmeticOverflow)
    } else if !fits(rout.balance - amount_out) || rout.balance - amount_out < MIN_BALANCE {
        Err(Error::InsufficientLiquidity)
    } else {
        Ok(
            (
                Record { balance: (rin.balance + amount_in) as i128, ..rin },
                Record { balance: (rout.balance - amount_out) as i128, ..rout },
            ),
        )
    }
}

/// The price after a swap, held against the trader's limit.
pub open spec fn settle_spec(
    rin: Record,
    rout: Record,
    swap_fee: int,
    amount_in: int,
    amount_out: int,
    max_price: int,
) -> Result<(int, Record, Record), Error> {
    match moved_spec(rin, rout, amount_in, amount_out) {
        Err(e) => Err(e),
        Ok((new_in, new_out)) => match price_spec(new_in, new_out, swap_fee) {
            Err(e) => Err(e),
            Ok(price) => if price > max_price {
                Err(Error::PriceLimitExceeded)
            } else {
                Ok((price, new_in, new_out))
            },
        },
    }
}

/// What goes out for `amount_in`, in the units of the token going out: the
/// amounts are taken to the fixed-point scale, and the result is brought
/// back rounded down.
pub open spec fn amount_out_spec(rin: Record, rout: Record, swap_fee: int, amount_in: int) -> Result<
    int,
    Error,
> {
    match upscale_spec(rin.balance as int, rin.scalar as int) {
        Err(e) => Err(e),
        Ok(balance_in) => match upscale_spec(rout.balance as int, rout.scalar as int) {
            Err(e) => Err(e),
            Ok(balance_out) => match upscale_spec(amount_in, rin.scalar as int) {
                Err(e) => Err(e),
                Ok(scaled_in) => match out_given_in_spec(
                    balance_in,
                    rin.weight as int,
                    balance_out,
                    rout.weight as int,
                    scaled_in,
                    swap_fee,
                ) {
                    Err(e) => Err(e),
                    Ok(scaled_out) => downscale_spec(scaled_out, rout.scalar as int, Rounding::Floor),
                },
            },
        },
    }
}

/// What must come in for `amount_out`, in the units of the token coming in:
/// the amounts are taken to the fixed-point scale, and the result is brought
/// back rounded up.
pub open spec fn amount_in_spec(rin: Record, rout: Record, swap_fee: int, amount_out: int) -> Result<
    int,
    Error,
> {
    match upscale_spec(rin.balance as int, rin.scalar as int) {
        Err(e) => Err(e),
        Ok(balance_in) => match upscale_spec(rout.balance as int, rout.scalar as int) {
            Err(e) => Err(e),
            Ok(balance_out) => match upscale_spec(amount_out, rout.scalar as int) {
                Err(e) => Err(e),
                Ok(scaled_out) => match in_given_out_spec(
                    balance_in,
                    rin.weight as int,
                    balance_out,
                    rout.weight as int,
                    scaled_out,
                    swap_fee,
                ) {
                    Err(e) => Err(e),
                    Ok(scaled_in) => downscale_spec(scaled_in, rin.scalar as int, Rounding::Ceil),
                },
            },
        },
    }
}

/// A swap as mathematical values, with the two records as it leaves them.
pub struct SwapView {
    pub amount_in: int,
    pub amount_out: int,
    pub spot_price_after: int,
    pub record_in: Record,
    pub record_out: Record,
}

impl Swap {
    /// Whether this is the swap that `view` describes.
    pub open spec fn is(self, view: SwapView) -> bool {
        &&& self.amount_in == view.amount_in
        &&& self.amount_out == view.amount_out
        &&& self.spot_price_after == view.spot_price_after
    }
}

impl PoolView {
    /// Whether swaps, joins and exits are open: `InvalidPhase` unless the
    /// pool is finalized and public, `PoolFrozen` where it is frozen.
    pub open spec fn may_trade(self) -> Result<(), Error> {
        if !self.finalized || !self.public_swap {
            Err(Error::InvalidPhase)
        } else if self.frozen {
            Err(Error::PoolFrozen)
        } else {
            Ok(())
        }
    }

    /// The spot price of `token_out` in units of `token_in`, fee included.
    pub open spec fn spot_price(self, token_in: Address, token_out: Address) -> Result<int, Error> {
        if !self.is_bound(token_in) || !self.is_bound(token_out) {
            Err(Error::TokenNotBound)
        } else {
            price_spec(self.record(token_in), self.record(token_out), self.swap_fee as int)
        }
    }

    /// The swap that `swap_exact_amount_in` makes, or why it makes none.
    pub open spec fn swap_in_quote(
        self,
        token_in: Address,
        amount_in: i128,
        token_out: Address,
        min_amount_out: i128,
        max_price: i128,
    ) -> Result<SwapView, Error> {
        if self.may_trade() is Err {
            Err(self.may_trade()->Err_0)
        } else if !self.is_bound(token_in) {
            Err(Error::TokenNotBound)
        } else if amount_in > max_in_spec(self.record(token_in).balance as int) {
            Err(Error::MaxInRatioExceeded)
        } else if !self.is_bound(token_out) {
            Err(Error::TokenNotBound)
        } else if token_in == token_out || amount_in < 0 {
            Err(Error::OutOfBounds)
        } else {
            let rin = self.record(token_in);
            let rout = self.record(token_out);
            match amount_out_spec(rin, rout, self.swap_fee as int, amount_in as int) {
                Err(e) => Err(e),
                Ok(amount_out) => if amount_out < min_amount_out {
                    Err(Error::SlippageExceeded)
                } else {
                    match settle_spec(
                        rin,
                        rout,
                        self.swap_fee as int,
                        amount_in as int,
                        amount_out,
                        max_price as int,
                    ) {
                        Err(e) => Err(e),
                        Ok((price, record_in, record_out)) => Ok(
                            SwapView {
                                amount_in: amount_in as int,
                                amount_out,
                                spot_price_after: price,
                                record_in,
                                record_out,
                            },
                        ),
                    }
                },
            }
        }
    }

    /// The swap that `swap_exact_amount_out` makes, or why it makes none.
    pub open spec fn swap_out_quote(
        self,
        token_in: Address,
        max_amount_in: i128,
        token_out: Address,
        amount_out: i128,
        max_price: i128,
    ) -> Result<SwapView, Error> {
        if self.may_trade() is Err {
            Err(self.may_trade()->Err_0)
        } else if !self.is_bound(token_out) {
            Err(Error::TokenNotBound)
        } else if amount_out > max_out_spec(self.record(token_out).balance as int) {
            Err(Error::MaxOutRatioExceeded)
        } else if !self.is_bound(token_in) {
            Err(Error::TokenNotBound)
        } else if token_in == token_out || amount_out < 0 {
            Err(Error::OutOfBounds)
        } else {
            let rin = self.record(token_in);
            let rout = self.record(token_out);
            match amount_in_spec(rin, rout, self.swap_fee as int, amount_out as int) {
                Err(e) => Err(e),
                Ok(amount_in) => if amount_in > max_amount_in {
                    Err(Error::SlippageExceeded)
                } else {
                    match settle_spec(
                        rin,
                        rout,
                        self.swap_fee as int,
                        amount_in,
                        amount_out as int,
                        max_price as int,
                    ) {
                        Err(e) => Err(e),
                        Ok((price, record_in, record_out)) => Ok(
                            SwapView {
                                amount_in,
                                amount_out: amount_out as int,
                                spot_price_after: price,
                                record_in,
                                record_out,
                            },
                        ),
                    }
                },
            }
        }
    }

    /// The pool after a swap: the two records are replaced, nothing else
    /// changes.
    pub open spec fn swapped(
        self,
        token_in: Address,
        token_out: Address,
        quote: Result<SwapView, Error>,
    ) -> Result<PoolView, Error> {
        match quote {
            Err(e) => Err(e),
            Ok(swap) => Ok(
                PoolView {
                    records: self.records.update(
                        self.tokens.index_of(token_in),
                        swap.record_in,
                    ).update(self.tokens.index_of(token_out), swap.record_out),
                    ..self
                },
            ),
        }
    }
}

/// What must come in for a swap between two records of a pool is never
/// negative.
pub proof fn lemma_amount_in_nonnegative(rin: Record, rout: Record, swap_fee: int, amount_out: int)
    requires
        rin.balance >= 0,
        rin.scalar >= 1,
        swap_fee < BONE,
    ensures
        amount_in_spec(rin, rout, swap_fee, amount_out) matches Ok(amount_in) ==> amount_in >= 0,
{
    lemma_signs();
}

/// The spot price between two records.
pub fn price_between(rin: &Record, rout: &Record, swap_fee: i128) -> (r: Result<i128, Error>)
    ensures
        crate::c_num::widen(r) == price_spec(*rin, *rout, swap_fee as int),
{
    let balance_in: i128 = upscale(rin.balance, rin.scalar)?;
    let balance_out: i128 = upscale(rout.balance, rout.scalar)?;
    calc_spot_price(balance_in, rin.weight, balance_out, rout.weight, swap_fee)
}

/// Moves the amounts and holds the new price against the trader's limit.
fn settle(
    rin: &Record,
    rout: &Record,
    swap_fee: i128,
    amount_in: i128,
    amount_out: i128,
    max_price: i128,
) -> (r: Result<(i128, Record, Record), Error>)
    ensures
        match r {
            Ok((price, new_in, new_out)) => settle_spec(
                *rin,
                *rout,
                swap_fee as int,
                amount_in as int,
                amount_out as int,
                max_price as int,
            ) == Ok::<(int, Record, Record), Error>((price as int, new_in, new_out)),
            Err(e) => settle_spec(
                *rin,
                *rout,
                swap_fee as int,
                amount_in as int,
                amount_out as int,
                max_price as int,
            ) == Err::<(int, Record, Record), Error>(e),
        },
{
    let balance_in: i128 = c_add(rin.balance, amount_in)?;
    let balance_out: i128 = match rout.balance.checked_sub(amount_out) {
        Some(v) => v,
        None => {
            return Err(Error::InsufficientLiquidity);
        },
    };
    if balance_out < MIN_BALANCE {
        return Err(Error::InsufficientLiquidity);
    }
    let new_in = Record {
        balance: balance_in,
        weight: rin.weight,
        scalar: rin.scalar,
        index: rin.index,
    };
    let new_out = Record {
        balance: balance_out,
        weight: rout.weight,
        scalar: rout.scalar,
        index: rout.index,
    };
    let price: i128 = price_between(&new_in, &new_out, swap_fee)?;
    check_price(price, max_price)?;
    Ok((price, new_in, new_out))
}

/// What goes out for `amount_in`, in the units of the token going out.
pub fn amount_out_for(rin: &Record, rout: &Record, swap_fee: i128, amount_in: i128) -> (r: Result<
    i128,
    Error,
>)
    ensures
        crate::c_num::widen(r) == amount_out_spec(*rin, *rout, swap_fee as int, amount_in as int),
{
    let balance_in: i128 = upscale(rin.balance, rin.scalar)?;
    let balance_out: i128 = upscale(rout.balance, rout.scalar)?;
    let scaled_in: i128 = upscale(amount_in, rin.scalar)?;
    let scaled_out: i128 = calc_out_given_in(
        balance_in,
        rin.weight,
        balance_out,
        rout.weight,
        scaled_in,
        swap_fee,
    )?;
    downscale(scaled_out, rout.scalar, Rounding::Floor)
}

/// What must come in for `amount_out`, in the units of the token coming in.
pub fn amount_in_for(rin: &Record, rout: &Record, swap_fee: i128, amount_out: i128) -> (r: Result<
    i128,
    Error,
>)
    ensures
        crate::c_num::widen(r) == amount_in_spec(*rin, *rout, swap_fee as int, amount_out as int),
{
    let balance_in: i128 = upscale(rin.balance, rin.scalar)?;
    let balance_out: i128 = upscale(rout.balance, rout.scalar)?;
    let scaled_out: i128 = upscale(amount_out, rout.scalar)?;
    let scaled_in: i128 = calc_in_given_out(
        balance_in,
        rin.weight,
        balance_out,
        rout.weight,
        scaled_out,
        swap_fee,
    )?;
    downscale(scaled_in, rin.scalar, Rounding::Ceil)
}

impl Pool {
    /// Whether swaps, joins and exits are open.
    pub fn may_trade(&self) -> (r: Result<(), Error>)
        ensures
            r == self@.may_trade(),
    {
        if !self.finalized || !self.public_swap {
            Err(Error::InvalidPhase)
        } else if self.frozen {
            Err(Error::PoolFrozen)
        } else {
            Ok(())
        }
    }

    /// Puts the records of a swap in place.
    fn commit(&mut self, i: usize, new_in: Record, j: usize, new_out: Record)
        requires
            old(self).wf(),
            i < old(self).records.len(),
            j < old(self).records.len(),
            i != j,
            new_in == (Record { balance: new_in.balance, ..old(self).records[i as int] }),
            new_out == (Record { balance: new_out.balance, ..old(self).records[j as int] }),
            new_in.balance >= MIN_BALANCE,
            new_out.balance >= MIN_BALANCE,
        ensures
            final(self).wf(),
            final(self)@ == (PoolView {
                records: old(self)@.records.update(i as int, new_in).update(j as int, new_out),
                ..old(self)@
            }),
    {
        proof {
            assert(weights_of(self.records@.update(i as int, new_in).update(j as int, new_out))
                =~= weights_of(self.records@));
        }
        self.records.set(i, new_in);
        self.records.set(j, new_out);
    }

    /// Swaps `amount_in` of `token_in` for as much of `token_out` as the
    /// invariant allows. On success the trader owes the pool `amount_in` of
    /// `token_in` and the pool owes the trader `amount_out` of `token_out`.
    ///
    /// Fails, in this order: as `may_trade` says; with `TokenNotBound` where
    /// `token_in` is not bound; with `MaxInRatioExceeded` where `amount_in`
    /// is more than the fraction `MAX_IN_RATIO` of the reserve; with
    /// `TokenNotBound` where `token_out` is not bound; with `OutOfBounds`
    /// where the two tokens are one or `amount_in` is negative; with the
    /// error of the formula; with `SlippageExceeded` where less than
    /// `min_amount_out` would go out; with `ArithmeticOverflow` or
    /// `InsufficientLiquidity` where a reserve would leave its bounds; with
    /// the error of the price formula; with `PriceLimitExceeded` where the
    /// price after the swap is above `max_price`.
    pub fn swap_exact_amount_in(
        &mut self,
        token_in: Address,
        amount_in: i128,
        token_out: Address,
        min_amount_out: i128,
        max_price: i128,
    ) -> (r: Result<Swap, Error>)
        requires
            old(self).wf(),
        ensures
            final(self).wf(),
            transition(
                old(self)@,
                final(self)@,
                r,
                old(self)@.swapped(
                    token_in,
                    token_out,
                    old(self)@.swap_in_quote(
                        token_in,
                        amount_in,
                        token_out,
                        min_amount_out,
                        max_price,
                    ),
                ),
            ),
            r matches Ok(swap) ==> swap.is(
                old(self)@.swap_in_quote(
                    token_in,
                    amount_in,
                    token_out,
                    min_amount_out,
                    max_price,
                )->Ok_0,
            ),
    {
        self.may_trade()?;
        let i: usize = match self.find(token_in) {
            Some(i) => i,
            None => {
                return Err(Error::TokenNotBound);
            },
        };
        let rin: Record = self.records[i];
        check_in_ratio(amount_in, rin.balance)?;
        let j: usize = match self.find(token_out) {
            Some(j) => j,
            None => {
                return Err(Error::TokenNotBound);
            },
        };
        if i == j || amount_in < 0 {
            return Err(Error::OutOfBounds);
        }
        let rout: Record = self.records[j];
        let amount_out: i128 = amount_out_for(&rin, &rout, self.swap_fee, amount_in)?;
        check_min_out(amount_out, min_amount_out)?;
        let (price, new_in, new_out) = settle(
            &rin,
            &rout,
            self.swap_fee,
            amount_in,
            amount_out,
            max_price,
        )?;
        self.commit(i, new_in, j, new_out);
        Ok(Swap { amount_in, amount_out, spot_price_after: price })
    }

    /// Swaps as much of `token_in` as the invariant asks for `amount_out` of
    /// `token_out`. On success the trader owes the pool `amount_in` of
    /// `token_in` and the pool owes the trader `amount_out` of `token_out`.
    ///
    /// Fails, in this order: as `may_trade` says; with `TokenNotBound` where
    /// `token_out` is not bound; with `MaxOutRatioExceeded` where
    /// `amount_out` is more than the fraction `MAX_OUT_RATIO` of the
    /// reserve; with `TokenNotBound` where `token_in` is not bound; with
    /// `OutOfBounds` where the two tokens are one or `amount_out` is
    /// negative; with the error of the formula; with `SlippageExceeded`
    /// where more than `max_amount_in` would come in; with
    /// `ArithmeticOverflow` or `InsufficientLiquidity` where a reserve would
    /// leave its bounds; with the error of the price formula; with
    /// `PriceLimitExceeded` where the price after the swap is above
    /// `max_price`.
    pub fn swap_exact_amount_out(
        &mut self,
        token_in: Address,
        max_amount_in: i128,
        token_out: Address,
        amount_out: i128,
        max_price: i128,
    ) -> (r: Result<Swap, Error>)
        requires
            old(self).wf(),
        ensures
            final(self).wf(),
            transition(
                old(self)@,
                final(self)@,
                r,
                old(self)@.swapped(
                    token_in,
                    token_out,
                    old(self)@.swap_out_quote(
                        token_in,
                        max_amount_in,
                        token_out,
                        amount_out,
                        max_price,
                    ),
                ),
            ),
            r matches Ok(swap) ==> swap.is(
                old(self)@.swap_out_quote(
                    token_in,
                    max_amount_in,
                    token_out,
                    amount_out,
                    max_price,
                )->Ok_0,
            ),
    {
        self.may_trade()?;
        let j: usize = match self.find(token_out) {
            Some(j) => j,
            None => {
                return Err(Error::TokenNotBound);
            },
        };
        let rout: Record = self.records[j];
        check_out_ratio(amount_out, rout.balance)?;
        let i: usize = match self.find(token_in) {
            Some(i) => i,
            None => {
                return Err(Error::TokenNotBound);
            },
        };
        if i == j || amount_out < 0 {
            return Err(Error::OutOfBounds);
        }
        let rin: Record = self.records[i];
        let amount_in: i128 = amount_in_for(&rin, &rout, self.swap_fee, amount_out)?;
        proof {
            crate::c_pool::bounds::lemma_scalars();
            lemma_amount_in_nonnegative(rin, rout, self.swap_fee as int, amount_out as int);
        }
        check_max_in(amount_in, max_amount_in)?;
        let (price, new_in, new_out) = settle(
            &rin,
            &rout,
            self.swap_fee,
            amount_in,
            amount_out,
            max_price,
        )?;
        self.commit(i, new_in, j, new_out);
        Ok(Swap { amount_in, amount_out, spot_price_after: price })
    }

    /// The spot price of `token_out` in units of `token_in`, fee included.
    ///
    /// Fails with `TokenNotBound` exactly when one of the tokens is not
    /// bound, and otherwise as the price formula does.
    pub fn get_spot_price(&self, token_in: Address, token_out: Address) -> (r: Result<i128, Error>)
        requires
            self.wf(),
        ensures
            crate::c_num::widen(r) == self@.spot_price(token_in, token_out),
    {
        let i: usize = match self.find(token_in) {
            Some(i) => i,
            None => {
                return Err(Error::TokenNotBound);
            },
        };
        let j: usize = match self.find(token_out) {
            Some(j) => j,
            None => {
                return Err(Error::TokenNotBound);
            },
        };
        price_between(&self.records[i], &self.records[j], self.swap_fee)
    }
}

} // verus!
