use vstd::prelude::*;
use crate::address::Address;
use crate::c_consts::BONE;
use crate::c_consts::MIN_BALANCE;
use crate::c_math::calc_pool_in_given_single_out;
use crate::c_math::calc_pool_out_given_single_in;
use crate::c_math::calc_single_in_given_pool_out;
use crate::c_math::calc_single_out_given_pool_in;
use crate::c_math::downscale;
use crate::c_math::downscale_spec;
use crate::c_math::pool_in_given_single_out_spec;
use crate::c_math::pool_out_given_single_in_spec;
use crate::c_math::single_in_given_pool_out_spec;
use crate::c_math::single_out_given_pool_in_spec;
use crate::c_math::upscale;
use crate::c_math::upscale_spec;
use crate::c_num::Rounding;
use crate::c_num::fits;
use crate::c_num::lemma_floor_div;
use crate::c_num::lemma_signs;
use crate::c_pool::bounds::check_in_ratio;
use crate::c_pool::bounds::check_max_in;
use crate::c_pool::bounds::check_min_out;
use crate::c_pool::bounds::check_out_ratio;
use crate::c_pool::bounds::lemma_scalars;
use crate::c_pool::bounds::max_in_spec;
use crate::c_pool::bounds::max_out_spec;
use crate::c_pool::error::Error;
use crate::c_pool::lifecycle::transition;
use crate::c_pool::pool::Pool;
use crate::c_pool::pool::PoolView;
use crate::c_pool::pool::record_wf;
use crate::c_pool::pool::weights_of;
use crate::c_pool::storage_types::Record;
use crate::c_pool::sums::lemma_sum_bounds;

verus! {

/// A deposit or a withdrawal of one token: the amount of the token, in its
/// own units, and the pool shares that it earns or costs.
#[derive(Clone, Copy, Debug, PartialEq, Eq, Structural)]
pub struct Single {
    pub amount: i128,
    pub shares: i128,
}

/// A deposit or a withdrawal of one token as mathematical values.
pub struct SingleView {
    pub amount: int,
    pub shares: int,
}

impl Single {
    /// Whether this is what `view` describes.
    pub open spec fn is(self, view: SingleView) -> bool {
        self.amount == view.amount && self.shares == view.shares
    }
}

/// The shares that a deposit of `amount_in` earns, the reserve and the
/// amount taken to the fixed-point scale.
pub open spec fn shares_for_deposit_spec(
    record: Record,
    supply: int,
    total_weight: int,
    swap_fee: int,
    amount_in: int,
) -> Result<int, Error> {
    match upscale_spec(record.balance as int, record.scalar as int) {
        Err(e) => Err(e),
        Ok(balance) => match upscale_spec(amount_in, record.scalar as int) {
            Err(e) => Err(e),
            Ok(scaled_in) => pool_out_given_single_in_spec(
                balance,
                record.weight as int,
                supply,
                total_weight,
                scaled_in,
                swap_fee,
            ),
        },
    }
}

/// What a deposit costs that earns `shares`, in the token's own units,
/// rounded up.
pub open spec fn deposit_for_shares_spec(
    record: Record,
    supply: int,
    total_weight: int,
    swap_fee: int,
    shares: int,
) -> Result<int, Error> {
    match upscale_spec(record.balance as int, record.scalar as int) {
        Err(e) => Err(e),
        Ok(balance) => match single_in_given_pool_out_spec(
            balance,
            record.weight as int,
            supply,
            total_weight,
            shares,
            swap_fee,
        ) {
            Err(e) => Err(e),
            Ok(scaled_in) => downscale_spec(scaled_in, record.scalar as int, Rounding::Ceil),
        },
    }
}

/// What a withdrawal pays for `shares`, in the token's own units, rounded
/// down.
pub open spec fn withdrawal_for_shares_spec(
    record: Record,
    supply: int,
    total_weight: int,
    swap_fee: int,
    shares: int,
) -> Result<int, Error> {
    match upscale_spec(record.balance as int, record.scalar as int) {
        Err(e) => Err(e),
        Ok(balance) => match single_out_given_pool_in_spec(
            balance,
            record.weight as int,
            supply,
            total_weight,
            shares,
            swap_fee,
        ) {
            Err(e) => Err(e),
            Ok(scaled_out) => downscale_spec(scaled_out, record.scalar as int, Rounding::Floor),
        },
    }
}

/// The shares that a withdrawal of `amount_out` costs, the reserve and the
/// amount taken to the fixed-point scale.
pub open spec fn shares_for_withdrawal_spec(
    record: Record,
    supply: int,
    total_weight: int,
    swap_fee: int,
    amount_out: int,
) -> Result<int, Error> {
    match upscale_spec(record.balance as int, record.scalar as int) {
        Err(e) => Err(e),
        Ok(balance) => match upscale_spec(amount_out, record.scalar as int) {
            Err(e) => Err(e),
            Ok(scaled_out) => pool_in_given_single_out_spec(
                balance,
                record.weight as int,
                supply,
                total_weight,
                scaled_out,
                swap_fee,
            ),
        },
    }
}

impl PoolView {
    /// The deposit that `join_swap_extern_amount_in` makes, or why it makes
    /// none.
    pub open spec fn deposit_in_quote(
        self,
        token_in: Address,
        token_amount_in: i128,
        min_pool_amount_out: i128,
    ) -> Result<SingleView, Error> {
        if self.may_trade() is Err {
            Err(self.may_trade()->Err_0)
        } else if !self.is_bound(token_in) {
            Err(Error::TokenNotBound)
        } else if token_amount_in > max_in_spec(self.record(token_in).balance as int) {
            Err(Error::MaxInRatioExceeded)
        } else if token_amount_in < 0 {
            Err(Error::OutOfBounds)
        } else {
            match shares_for_deposit_spec(
                self.record(token_in),
                self.total_shares as int,
                self.total_weight as int,
                self.swap_fee as int,
                token_amount_in as int,
            ) {
                Err(e) => Err(e),
                Ok(shares) => if shares < min_pool_amount_out {
                    Err(Error::SlippageExceeded)
                } else if !fits(self.total_shares + shares) {
                    Err(Error::ArithmeticOverflow)
                } else {
                    Ok(SingleView { amount: token_amount_in as int, shares })
                },
            }
        }
    }

    /// The deposit that `join_swap_pool_amount_out` makes, or why it makes
    /// none.
    pub open spec fn deposit_out_quote(
        self,
        token_in: Address,
        pool_amount_out: i128,
        max_amount_in: i128,
    ) -> Result<SingleView, Error> {
        if self.may_trade() is Err {
            Err(self.may_trade()->Err_0)
        } else if !self.is_bound(token_in) {
            Err(Error::TokenNotBound)
        } else if pool_amount_out < 0 {
            Err(Error::OutOfBounds)
        } else {
            match deposit_for_shares_spec(
                self.record(token_in),
                self.total_shares as int,
                self.total_weight as int,
                self.swap_fee as int,
                pool_amount_out as int,
            ) {
                Err(e) => Err(e),
                Ok(amount) => if amount > max_amount_in {
                    Err(Error::SlippageExceeded)
                } else if amount > max_in_spec(self.record(token_in).balance as int) {
                    Err(Error::MaxInRatioExceeded)
                } else {
                    Ok(SingleView { amount, shares: pool_amount_out as int })
                },
            }
        }
    }

    /// The withdrawal that `exit_swap_pool_amount_in` makes, or why it makes
    /// none.
    pub open spec fn withdrawal_in_quote(
        self,
        token_out: Address,
        pool_amount_in: i128,
        min_amount_out: i128,
        user: Address,
    ) -> Result<SingleView, Error> {
        if self.may_trade() is Err {
            Err(self.may_trade()->Err_0)
        } else if !self.is_bound(token_out) {
            Err(Error::TokenNotBound)
        } else if pool_amount_in < 0 {
            Err(Error::OutOfBounds)
        } else if self.shares_of(user) < pool_amount_in || self.total_shares <= pool_amount_in {
            Err(Error::InsufficientLiquidity)
        } else {
            match withdrawal_for_shares_spec(
                self.record(token_out),
                self.total_shares as int,
                self.total_weight as int,
                self.swap_fee as int,
                pool_amount_in as int,
            ) {
                Err(e) => Err(e),
                Ok(amount) => if amount < min_amount_out {
                    Err(Error::SlippageExceeded)
                } else if amount > max_out_spec(self.record(token_out).balance as int) {
                    Err(Error::MaxOutRatioExceeded)
                } else if self.record(token_out).balance - amount < MIN_BALANCE {
                    Err(Error::InsufficientLiquidity)
                } else {
                    Ok(SingleView { amount, shares: pool_amount_in as int })
                },
            }
        }
    }

    /// The withdrawal that `exit_swap_extern_amount_out` makes, or why it
    /// makes none.
    pub open spec fn withdrawal_out_quote(
        self,
        token_out: Address,
        token_amount_out: i128,
        max_pool_amount_in: i128,
        user: Address,
    ) -> Result<SingleView, Error> {
        if self.may_trade() is Err {
            Err(self.may_trade()->Err_0)
        } else if !self.is_bound(token_out) {
            Err(Error::TokenNotBound)
        } else if token_amount_out > max_out_spec(self.record(token_out).balance as int) {
            Err(Error::MaxOutRatioExceeded)
        } else if token_amount_out < 0 {
            Err(Error::OutOfBounds)
        } else {
            match shares_for_withdrawal_spec(
                self.record(token_out),
                self.total_shares as int,
                self.total_weight as int,
                self.swap_fee as int,
                token_amount_out as int,
            ) {
                Err(e) => Err(e),
                Ok(shares) => if shares > max_pool_amount_in {
                    Err(Error::SlippageExceeded)
                } else if self.shares_of(user) < shares || self.total_shares <= shares
                    || self.record(token_out).balance - token_amount_out < MIN_BALANCE {
                    Err(Error::InsufficientLiquidity)
                } else {
                    Ok(SingleView { amount: token_amount_out as int, shares })
                },
            }
        }
    }

    /// The pool after the reserve of `token` and the shares of `user` have
    /// changed by the given amounts.
    pub open spec fn moved(self, token: Address, amount: int, shares: int, user: Address) -> PoolView {
        let record = self.record(token);
        PoolView {
            records: self.records.update(
                self.tokens.index_of(token),
                Record { balance: (record.balance + amount) as i128, ..record },
            ),
            total_shares: (self.total_shares + shares) as i128,
            shares: if self.shares_of(user) + shares > 0 {
                self.shares.insert(user, self.shares_of(user) + shares)
            } else {
                self.shares.remove(user)
            },
            ..self
        }
    }

    /// The pool after a deposit of one token: the amount is in the reserve,
    /// and the shares are in the hands of `user`.
    pub open spec fn deposited(
        self,
        token_in: Address,
        quote: Result<SingleView, Error>,
        user: Address,
    ) -> Result<PoolView, Error> {
        match quote {
            Err(e) => Err(e),
            Ok(deposit) => if !fits(self.record(token_in).balance + deposit.amount) {
                Err(Error::ArithmeticOverflow)
            } else {
                Ok(self.moved(token_in, deposit.amount, deposit.shares, user))
            },
        }
    }

    /// The pool after a withdrawal of one token: the amount has left the
    /// reserve, and the shares of `user` are burnt.
    pub open spec fn withdrawn(
        self,
        token_out: Address,
        quote: Result<SingleView, Error>,
        user: Address,
    ) -> Result<PoolView, Error> {
        match quote {
            Err(e) => Err(e),
            Ok(withdrawal) => Ok(
                self.moved(token_out, -withdrawal.amount, -withdrawal.shares, user),
            ),
        }
    }
}

/// In a well-formed pool the fee on one token alone leaves something of an
/// amount, and what the formulas of one token give is not negative.
pub proof fn lemma_single_signs(
    record: Record,
    supply: int,
    total_weight: int,
    swap_fee: int,
    amount: int,
)
    requires
        record.balance >= 1,
        record.scalar >= 1,
        0 < record.weight <= total_weight,
        0 <= swap_fee < BONE,
        supply > 0,
    ensures
        deposit_for_shares_spec(record, supply, total_weight, swap_fee, amount) matches Ok(v) ==> v
            >= 0,
        withdrawal_for_shares_spec(record, supply, total_weight, swap_fee, amount) matches Ok(v)
            ==> v >= 0,
        shares_for_deposit_spec(record, supply, total_weight, swap_fee, amount) matches Ok(v) ==> v
            >= 0,
        shares_for_withdrawal_spec(record, supply, total_weight, swap_fee, amount) matches Ok(v)
            ==> v >= 0,
{
    lemma_signs();
    let w = record.weight as int;
    lemma_floor_div(w * BONE, total_weight);
    let share = w * BONE / total_weight;
    assert(0 <= share <= BONE) by (nonlinear_arith)
        requires
            share * total_weight <= w * BONE,
            0 < w <= total_weight,
            share >= 0,
    {
        assert(share * total_weight <= BONE * total_weight);
    }
    let others = BONE - share;
    lemma_floor_div(others * swap_fee, BONE as int);
    let fee = crate::c_num::ceil_div(others * swap_fee, BONE as int);
    assert(0 <= fee < BONE) by (nonlinear_arith)
        requires
            (fee - 1) * BONE < others * swap_fee,
            0 <= others <= BONE,
            0 <= swap_fee < BONE,
            fee >= 0,
    {
        assert(others * swap_fee <= BONE * swap_fee);
    }
}

impl Pool {
    /// Puts a deposit or a withdrawal of one token in place.
    fn move_single(&mut self, i: usize, amount: i128, shares: i128, user: Address)
        requires
            old(self).wf(),
            i < old(self).records.len(),
            fits(old(self).records[i as int].balance + amount),
            old(self).records[i as int].balance + amount >= MIN_BALANCE,
            fits(old(self).total_shares + shares),
            old(self).total_shares + shares > 0,
            old(self)@.shares_of(user) + shares >= 0,
            old(self).finalized,
        ensures
            final(self).wf(),
            final(self)@ == old(self)@.moved(
                old(self)@.tokens[i as int],
                amount as int,
                shares as int,
                user,
            ),
    {
        proof {
            Self::lemma_record_at(self@, i as int);
            self.lemma_shares_of(user);
            self.shares.lemma_balance_bounds(user);
        }
        let ghost before = self.shares;
        let record: Record = self.records[i];
        let updated = Record {
            balance: record.balance + amount,
            weight: record.weight,
            scalar: record.scalar,
            index: record.index,
        };
        proof {
            assert(weights_of(self.records@.update(i as int, updated)) =~= weights_of(
                self.records@,
            ));
        }
        self.records.set(i, updated);
        self.total_shares = self.total_shares + shares;
        if shares >= 0 {
            self.shares.mint(user, shares);
        } else {
            self.shares.burn(user, -shares);
        }
        proof {
            let held = before.balance_of(user) + shares;
            if held > 0 {
                assert(self.shares@ =~= before@.insert(user, held));
            } else {
                assert(self.shares@ =~= before@.remove(user));
            }
            assert forall|k: int| 0 <= k < self.records.len() implies record_wf(
                #[trigger] self.records[k],
                k,
            ) by {
                assert(record_wf(old(self).records[k], k));
            }
        }
    }

    /// The facts about the record at position `i` that the formulas of one
    /// token rest on.
    proof fn lemma_single_ready(&self, i: int)
        requires
            self.wf(),
            self.finalized,
            0 <= i < self.records.len(),
        ensures
            self.records[i].balance >= 1,
            self.records[i].scalar >= 1,
            0 < self.records[i].weight <= self.total_weight,
            0 <= self.swap_fee < BONE,
            self.total_shares > 0,
    {
        assert(record_wf(self.records[i], i));
        lemma_scalars();
        lemma_sum_bounds(weights_of(self.records@), i);
        assert forall|j: int| 0 <= j < self.records.len() implies weights_of(self.records@)[j]
            >= 0 by {
            assert(record_wf(self.records[j], j));
        }
    }

    /// Deposits `token_amount_in` of one token for as many pool shares as
    /// the invariant allows, which go to `user`. On success `user` owes the
    /// pool the amount.
    ///
    /// Fails, in this order: as `may_trade` says; with `TokenNotBound`; with
    /// `MaxInRatioExceeded` where the amount is more than the fraction
    /// `MAX_IN_RATIO` of the reserve; with `OutOfBounds` where the amount is
    /// negative; with the error of the formula; with `SlippageExceeded`
    /// where fewer than `min_pool_amount_out` shares would be earned; with
    /// `ArithmeticOverflow` where the share supply or the reserve would
    /// leave the 128-bit range.
    pub fn join_swap_extern_amount_in(
        &mut self,
        token_in: Address,
        token_amount_in: i128,
        min_pool_amount_out: i128,
        user: Address,
    ) -> (r: Result<Single, Error>)
        requires
            old(self).wf(),
        ensures
            final(self).wf(),
            transition(
                old(self)@,
                final(self)@,
                r,
                old(self)@.deposited(
                    token_in,
                    old(self)@.deposit_in_quote(token_in, token_amount_in, min_pool_amount_out),
                    user,
                ),
            ),
            r matches Ok(deposit) ==> old(self)@.deposit_in_quote(
                token_in,
                token_amount_in,
                min_pool_amount_out,
            ) is Ok && deposit.is(
                old(self)@.deposit_in_quote(token_in, token_amount_in, min_pool_amount_out)->Ok_0,
            ),
    {
        self.may_trade()?;
        let i: usize = match self.find(token_in) {
            Some(i) => i,
            None => {
                return Err(Error::TokenNotBound);
            },
        };
        let record: Record = self.records[i];
        check_in_ratio(token_amount_in, record.balance)?;
        if token_amount_in < 0 {
            return Err(Error::OutOfBounds);
        }
        let balance: i128 = upscale(record.balance, record.scalar)?;
        let scaled_in: i128 = upscale(token_amount_in, record.scalar)?;
        let shares: i128 = calc_pool_out_given_single_in(
            balance,
            record.weight,
            self.total_shares,
            self.total_weight,
            scaled_in,
            self.swap_fee,
        )?;
        check_min_out(shares, min_pool_amount_out)?;
        if self.total_shares.checked_add(shares).is_none() {
            return Err(Error::ArithmeticOverflow);
        }
        if record.balance.checked_add(token_amount_in).is_none() {
            return Err(Error::ArithmeticOverflow);
        }
        proof {
            self.lemma_single_ready(i as int);
            lemma_single_signs(
                record,
                self.total_shares as int,
                self.total_weight as int,
                self.swap_fee as int,
                token_amount_in as int,
            );
        }
        self.move_single(i, token_amount_in, shares, user);
        Ok(Single { amount: token_amount_in, shares })
    }

    /// Deposits as much of one token as the invariant asks for
    /// `pool_amount_out` pool shares, which go to `user`. On success `user`
    /// owes the pool the amount.
    ///
    /// Fails, in this order: as `may_trade` says; with `TokenNotBound`; with
    /// `OutOfBounds` where the number of shares is negative; with the error
    /// of the formula; with `SlippageExceeded` where more than
    /// `max_amount_in` would be owed; with `MaxInRatioExceeded` where the
    /// amount is more than the fraction `MAX_IN_RATIO` of the reserve; with
    /// `ArithmeticOverflow` where the reserve would leave the 128-bit range.
    pub fn join_swap_pool_amount_out(
        &mut self,
        token_in: Address,
        pool_amount_out: i128,
        max_amount_in: i128,
        user: Address,
    ) -> (r: Result<Single, Error>)
        requires
            old(self).wf(),
        ensures
            final(self).wf(),
            transition(
                old(self)@,
                final(self)@,
                r,
                old(self)@.deposited(
                    token_in,
                    old(self)@.deposit_out_quote(token_in, pool_amount_out, max_amount_in),
                    user,
                ),
            ),
            r matches Ok(deposit) ==> old(self)@.deposit_out_quote(
                token_in,
                pool_amount_out,
                max_amount_in,
            ) is Ok && deposit.is(
                old(self)@.deposit_out_quote(token_in, pool_amount_out, max_amount_in)->Ok_0,
            ),
    {
        self.may_trade()?;
        let i: usize = match self.find(token_in) {
            Some(i) => i,
            None => {
                return Err(Error::TokenNotBound);
            },
        };
        if pool_amount_out < 0 {
            return Err(Error::OutOfBounds);
        }
        let record: Record = self.records[i];
        let balance: i128 = upscale(record.balance, record.scalar)?;
        let scaled_in: i128 = calc_single_in_given_pool_out(
            balance,
            record.weight,
            self.total_shares,
            self.total_weight,
            pool_amount_out,
            self.swap_fee,
        )?;
        let amount: i128 = downscale(scaled_in, record.scalar, Rounding::Ceil)?;
        check_max_in(amount, max_amount_in)?;
        check_in_ratio(amount, record.balance)?;
        if record.balance.checked_add(amount).is_none() {
            return Err(Error::ArithmeticOverflow);
        }
        proof {
            self.lemma_single_ready(i as int);
            lemma_single_signs(
                record,
                self.total_shares as int,
                self.total_weight as int,
                self.swap_fee as int,
                pool_amount_out as int,
            );
        }
        self.move_single(i, amount, pool_amount_out, user);
        Ok(Single { amount, shares: pool_amount_out })
    }

    /// Burns `pool_amount_in` pool shares of `user` for as much of one token
    /// as the invariant allows. On success the pool owes `user` the amount.
    ///
    /// Fails, in this order: as `may_trade` says; with `TokenNotBound`; with
    /// `OutOfBounds` where the number of shares is negative; with
    /// `InsufficientLiquidity` where `user` holds fewer shares or the shares
    /// are all there are; with the error of the formula; with
    /// `SlippageExceeded` where less than `min_amount_out` would be paid;
    /// with `MaxOutRatioExceeded` where the amount is more than the fraction
    /// `MAX_OUT_RATIO` of the reserve; with `InsufficientLiquidity` where
    /// the reserve would fall below `MIN_BALANCE`.
    pub fn exit_swap_pool_amount_in(
        &mut self,
        token_out: Address,
        pool_amount_in: i128,
        min_amount_out: i128,
        user: Address,
    ) -> (r: Result<Single, Error>)
        requires
            old(self).wf(),
        ensures
            final(self).wf(),
            transition(
                old(self)@,
                final(self)@,
                r,
                old(self)@.withdrawn(
                    token_out,
                    old(self)@.withdrawal_in_quote(token_out, pool_amount_in, min_amount_out, user),
                    user,
                ),
            ),
            r matches Ok(withdrawal) ==> old(self)@.withdrawal_in_quote(
                token_out,
                pool_amount_in,
                min_amount_out,
                user,
            ) is Ok && withdrawal.is(
                old(self)@.withdrawal_in_quote(
                    token_out,
                    pool_amount_in,
                    min_amount_out,
                    user,
                )->Ok_0,
            ),
    {
        self.may_trade()?;
        let i: usize = match self.find(token_out) {
            Some(i) => i,
            None => {
                return Err(Error::TokenNotBound);
            },
        };
        if pool_amount_in < 0 {
            return Err(Error::OutOfBounds);
        }
        proof {
            self.lemma_shares_of(user);
        }
        if self.shares.balance(user) < pool_amount_in || self.total_shares <= pool_amount_in {
            return Err(Error::InsufficientLiquidity);
        }
        let record: Record = self.records[i];
        let balance: i128 = upscale(record.balance, record.scalar)?;
        let scaled_out: i128 = calc_single_out_given_pool_in(
            balance,
            record.weight,
            self.total_shares,
            self.total_weight,
            pool_amount_in,
            self.swap_fee,
        )?;
        let amount: i128 = downscale(scaled_out, record.scalar, Rounding::Floor)?;
        check_min_out(amount, min_amount_out)?;
        check_out_ratio(amount, record.balance)?;
        proof {
            self.lemma_single_ready(i as int);
            lemma_single_signs(
                record,
                self.total_shares as int,
                self.total_weight as int,
                self.swap_fee as int,
                pool_amount_in as int,
            );
        }
        if record.balance - amount < MIN_BALANCE {
            return Err(Error::InsufficientLiquidity);
        }
        self.move_single(i, -amount, -pool_amount_in, user);
        Ok(Single { amount, shares: pool_amount_in })
    }

    /// Burns as many pool shares of `user` as the invariant asks for
    /// `token_amount_out` of one token. On success the pool owes `user` the
    /// amount.
    ///
    /// Fails, in this order: as `may_trade` says; with `TokenNotBound`; with
    /// `MaxOutRatioExceeded` where the amount is more than the fraction
    /// `MAX_OUT_RATIO` of the reserve; with `OutOfBounds` where the amount
    /// is negative; with the error of the formula; with `SlippageExceeded`
    /// where more than `max_pool_amount_in` shares would be burnt; with
    /// `InsufficientLiquidity` where `user` holds fewer shares, the shares
    /// are all there are, or the reserve would fall below `MIN_BALANCE`.
    pub fn exit_swap_extern_amount_out(
        &mut self,
        token_out: Address,
        token_amount_out: i128,
        max_pool_amount_in: i128,
        user: Address,
    ) -> (r: Result<Single, Error>)
        requires
            old(self).wf(),
        ensures
            final(self).wf(),
            transition(
                old(self)@,
                final(self)@,
                r,
                old(self)@.withdrawn(
                    token_out,
                    old(self)@.withdrawal_out_quote(
                        token_out,
                        token_amount_out,
                        max_pool_amount_in,
                        user,
                    ),
                    user,
                ),
            ),
            r matches Ok(withdrawal) ==> old(self)@.withdrawal_out_quote(
                token_out,
                token_amount_out,
                max_pool_amount_in,
                user,
            ) is Ok && withdrawal.is(
                old(self)@.withdrawal_out_quote(
                    token_out,
                    token_amount_out,
                    max_pool_amount_in,
                    user,
                )->Ok_0,
            ),
    {
        self.may_trade()?;
        let i: usize = match self.find(token_out) {
            Some(i) => i,
            None => {
                return Err(Error::TokenNotBound);
            },
        };
        let record: Record = self.records[i];
        check_out_ratio(token_amount_out, record.balance)?;
        if token_amount_out < 0 {
            return Err(Error::OutOfBounds);
        }
        let balance: i128 = upscale(record.balance, record.scalar)?;
        let scaled_out: i128 = upscale(token_amount_out, record.scalar)?;
        let shares: i128 = calc_pool_in_given_single_out(
            balance,
            record.weight,
            self.total_shares,
            self.total_weight,
            scaled_out,
            self.swap_fee,
        )?;
        check_max_in(shares, max_pool_amount_in)?;
        proof {
            self.lemma_shares_of(user);
            self.lemma_single_ready(i as int);
            lemma_single_signs(
                record,
                self.total_shares as int,
                self.total_weight as int,
                self.swap_fee as int,
                token_amount_out as int,
            );
        }
        if self.shares.balance(user) < shares || self.total_shares <= shares || record.balance
            - token_amount_out < MIN_BALANCE {
            return Err(Error::InsufficientLiquidity);
        }
        self.move_single(i, -token_amount_out, -shares, user);
        Ok(Single { amount: token_amount_out, shares })
    }
}

} // verus!
