use vstd::prelude::*;
use crate::address::Address;
use crate::c_consts::MIN_BALANCE;
use crate::c_num::Rounding;
use crate::c_num::c_mul_div;
use crate::c_num::fits;
use crate::c_num::lemma_signs;
use crate::c_num::mul_div_spec;
use crate::c_pool::bounds::check_max_in;
use crate::c_pool::bounds::check_min_out;
use crate::c_pool::error::Error;
use crate::c_pool::lifecycle::transition;
use crate::c_pool::pool::Pool;
use crate::c_pool::pool::PoolView;
use crate::c_pool::pool::weights_of;
use crate::c_pool::storage_types::Record;

verus! {

/// What part of every reserve a join or an exit moves: `shares` pool shares
/// of a supply of `supply`.
pub struct Portion {
    pub shares: i128,
    pub supply: i128,
}

/// What a join asks of one token: the portion of its reserve, rounded up.
/// `SlippageExceeded` where that is more than `max_in`, `ArithmeticOverflow`
/// where the reserve would leave the 128-bit range.
pub open spec fn join_step(record: Record, portion: Portion, max_in: i128) -> Result<i128, Error> {
    match mul_div_spec(
        record.balance as int,
        portion.shares as int,
        portion.supply as int,
        Rounding::Ceil,
    ) {
        Err(e) => Err(e),
        Ok(amount) => if amount > max_in {
            Err(Error::SlippageExceeded)
        } else if !fits(record.balance + amount) {
            Err(Error::ArithmeticOverflow)
        } else {
            Ok(amount as i128)
        },
    }
}

/// What an exit pays of one token: the portion of its reserve, rounded
/// down. `SlippageExceeded` where that is less than `min_out`,
/// `InsufficientLiquidity` where the reserve would fall below `MIN_BALANCE`.
pub open spec fn exit_step(record: Record, portion: Portion, min_out: i128) -> Result<i128, Error> {
    match mul_div_spec(
        record.balance as int,
        portion.shares as int,
        portion.supply as int,
        Rounding::Floor,
    ) {
        Err(e) => Err(e),
        Ok(amount) => if amount < min_out {
            Err(Error::SlippageExceeded)
        } else if record.balance - amount < MIN_BALANCE {
            Err(Error::InsufficientLiquidity)
        } else {
            Ok(amount as i128)
        },
    }
}

/// The amounts that a join asks of the first `n` tokens, or the error of the
/// first token that refuses.
pub open spec fn join_amounts(records: Seq<Record>, portion: Portion, max_in: Seq<i128>, n: nat) -> Result<
    Seq<i128>,
    Error,
>
    decreases n,
{
    if n == 0 {
        Ok(Seq::empty())
    } else {
        match join_amounts(records, portion, max_in, (n - 1) as nat) {
            Err(e) => Err(e),
            Ok(done) => match join_step(records[n - 1], portion, max_in[n - 1]) {
                Err(e) => Err(e),
                Ok(amount) => Ok(done.push(amount)),
            },
        }
    }
}

/// The amounts that an exit pays of the first `n` tokens, or the error of
/// the first token that refuses.
pub open spec fn exit_amounts(records: Seq<Record>, portion: Portion, min_out: Seq<i128>, n: nat) -> Result<
    Seq<i128>,
    Error,
>
    decreases n,
{
    if n == 0 {
        Ok(Seq::empty())
    } else {
        match exit_amounts(records, portion, min_out, (n - 1) as nat) {
            Err(e) => Err(e),
            Ok(done) => match exit_step(records[n - 1], portion, min_out[n - 1]) {
                Err(e) => Err(e),
                Ok(amount) => Ok(done.push(amount)),
            },
        }
    }
}

/// The records with `amounts[i]` added to the reserve of token `i`.
pub open spec fn credited(records: Seq<Record>, amounts: Seq<i128>) -> Seq<Record> {
    Seq::new(
        records.len(),
        |i: int| Record { balance: (records[i].balance + amounts[i]) as i128, ..records[i] },
    )
}

/// The records with `amounts[i]` taken from the reserve of token `i`.
pub open spec fn debited(records: Seq<Record>, amounts: Seq<i128>) -> Seq<Record> {
    Seq::new(
        records.len(),
        |i: int| Record { balance: (records[i].balance - amounts[i]) as i128, ..records[i] },
    )
}

/// An error among the first `k` tokens of a join is the error of the join.
pub proof fn lemma_join_error(records: Seq<Record>, portion: Portion, max_in: Seq<i128>, k: nat, n: nat)
    requires
        k <= n,
        join_amounts(records, portion, max_in, k) is Err,
    ensures
        join_amounts(records, portion, max_in, n) == join_amounts(records, portion, max_in, k),
    decreases n,
{
    if n > k {
        lemma_join_error(records, portion, max_in, k, (n - 1) as nat);
    }
}

/// An error among the first `k` tokens of an exit is the error of the exit.
pub proof fn lemma_exit_error(records: Seq<Record>, portion: Portion, min_out: Seq<i128>, k: nat, n: nat)
    requires
        k <= n,
        exit_amounts(records, portion, min_out, k) is Err,
    ensures
        exit_amounts(records, portion, min_out, n) == exit_amounts(records, portion, min_out, k),
    decreases n,
{
    if n > k {
        lemma_exit_error(records, portion, min_out, k, (n - 1) as nat);
    }
}

/// The amounts of a join, one for each of the first `n` tokens, each the
/// amount of its step.
pub proof fn lemma_join_amounts(records: Seq<Record>, portion: Portion, max_in: Seq<i128>, n: nat)
    requires
        join_amounts(records, portion, max_in, n) is Ok,
    ensures
        join_amounts(records, portion, max_in, n)->Ok_0.len() == n,
        forall|i: int|
            0 <= i < n ==> join_step(records[i], portion, max_in[i]) == Ok::<i128, Error>(
                #[trigger] join_amounts(records, portion, max_in, n)->Ok_0[i],
            ),
    decreases n,
{
    if n > 0 {
        lemma_join_amounts(records, portion, max_in, (n - 1) as nat);
    }
}

/// The amounts of an exit, one for each of the first `n` tokens, each the
/// amount of its step.
pub proof fn lemma_exit_amounts(records: Seq<Record>, portion: Portion, min_out: Seq<i128>, n: nat)
    requires
        exit_amounts(records, portion, min_out, n) is Ok,
    ensures
        exit_amounts(records, portion, min_out, n)->Ok_0.len() == n,
        forall|i: int|
            0 <= i < n ==> exit_step(records[i], portion, min_out[i]) == Ok::<i128, Error>(
                #[trigger] exit_amounts(records, portion, min_out, n)->Ok_0[i],
            ),
    decreases n,
{
    if n > 0 {
        lemma_exit_amounts(records, portion, min_out, (n - 1) as nat);
    }
}

impl PoolView {
    /// What `join_pool` asks of each token, in the order of the token list,
    /// or why it refuses.
    pub open spec fn join_quote(self, pool_amount_out: i128, max_amounts_in: Seq<i128>) -> Result<
        Seq<i128>,
        Error,
    > {
        if self.may_trade() is Err {
            Err(self.may_trade()->Err_0)
        } else if max_amounts_in.len() != self.tokens.len() || pool_amount_out <= 0 {
            Err(Error::OutOfBounds)
        } else if !fits(self.total_shares + pool_amount_out) {
            Err(Error::ArithmeticOverflow)
        } else {
            join_amounts(
                self.records,
                Portion { shares: pool_amount_out, supply: self.total_shares },
                max_amounts_in,
                self.tokens.len(),
            )
        }
    }

    /// What `exit_pool` pays of each token, in the order of the token list,
    /// or why it refuses.
    pub open spec fn exit_quote(
        self,
        pool_amount_in: i128,
        min_amounts_out: Seq<i128>,
        user: Address,
    ) -> Result<Seq<i128>, Error> {
        if self.may_trade() is Err {
            Err(self.may_trade()->Err_0)
        } else if min_amounts_out.len() != self.tokens.len() || pool_amount_in <= 0 {
            Err(Error::OutOfBounds)
        } else if self.shares_of(user) < pool_amount_in || self.total_shares <= pool_amount_in {
            Err(Error::InsufficientLiquidity)
        } else {
            exit_amounts(
                self.records,
                Portion { shares: pool_amount_in, supply: self.total_shares },
                min_amounts_out,
                self.tokens.len(),
            )
        }
    }

    /// The pool after a join: the amounts are in the reserves, and the new
    /// shares are in the hands of `user`.
    pub open spec fn joined(
        self,
        quote: Result<Seq<i128>, Error>,
        pool_amount_out: i128,
        user: Address,
    ) -> Result<PoolView, Error> {
        match quote {
            Err(e) => Err(e),
            Ok(amounts) => Ok(
                PoolView {
                    records: credited(self.records, amounts),
                    total_shares: (self.total_shares + pool_amount_out) as i128,
                    shares: self.shares.insert(user, self.shares_of(user) + pool_amount_out),
                    ..self
                },
            ),
        }
    }

    /// The pool after an exit: the amounts have left the reserves, and the
    /// shares of `user` are burnt.
    pub open spec fn exited(
        self,
        quote: Result<Seq<i128>, Error>,
        pool_amount_in: i128,
        user: Address,
    ) -> Result<PoolView, Error> {
        match quote {
            Err(e) => Err(e),
            Ok(amounts) => Ok(
                PoolView {
                    records: debited(self.records, amounts),
                    total_shares: (self.total_shares - pool_amount_in) as i128,
                    shares: if self.shares_of(user) == pool_amount_in {
                        self.shares.remove(user)
                    } else {
                        self.shares.insert(user, self.shares_of(user) - pool_amount_in)
                    },
                    ..self
                },
            ),
        }
    }
}

impl Pool {
    /// The shares of a holder in the view are those in the ledger.
    pub proof fn lemma_shares_of(&self, holder: Address)
        requires
            self.shares.wf(),
        ensures
            self@.shares_of(holder) == self.shares.balance_of(holder),
    {
        self.shares.lemma_balance_bounds(holder);
    }

    /// Deposits a share of every reserve for `pool_amount_out` new pool
    /// shares, which go to `user`. On success the result is what `user` owes
    /// the pool of each token, in the order of the token list.
    ///
    /// Fails, in this order: as `may_trade` says; with `OutOfBounds` where
    /// `max_amounts_in` has not one limit for each token or
    /// `pool_amount_out` is not positive; with `ArithmeticOverflow` where
    /// the share supply would leave the 128-bit range; with the error of the
    /// first token that `join_step` refuses.
    pub fn join_pool(&mut self, pool_amount_out: i128, max_amounts_in: &Vec<i128>, user: Address) -> (r:
        Result<Vec<i128>, Error>)
        requires
            old(self).wf(),
        ensures
            final(self).wf(),
            transition(
                old(self)@,
                final(self)@,
                r,
                old(self)@.joined(
                    old(self)@.join_quote(pool_amount_out, max_amounts_in@),
                    pool_amount_out,
                    user,
                ),
            ),
            r matches Ok(amounts) ==> old(self)@.join_quote(pool_amount_out, max_amounts_in@)
                == Ok::<Seq<i128>, Error>(amounts@) && amounts.len() == old(self)@.tokens.len(),
    {
        self.may_trade()?;
        let n: usize = self.token_list.len();
        if max_amounts_in.len() != n || pool_amount_out <= 0 {
            return Err(Error::OutOfBounds);
        }
        let supply: i128 = match self.total_shares.checked_add(pool_amount_out) {
            Some(v) => v,
            None => {
                return Err(Error::ArithmeticOverflow);
            },
        };
        let portion = Portion { shares: pool_amount_out, supply: self.total_shares };
        let mut amounts: Vec<i128> = Vec::new();
        let mut records: Vec<Record> = Vec::new();
        let mut i: usize = 0;
        while i < n
            invariant
                i <= n,
                n == self.records.len(),
                n == max_amounts_in.len(),
                *self == *old(self),
                self.wf(),
                portion.shares > 0,
                portion.supply > 0,
                self@.join_quote(pool_amount_out, max_amounts_in@) == join_amounts(
                    self.records@,
                    portion,
                    max_amounts_in@,
                    n as nat,
                ),
                join_amounts(self.records@, portion, max_amounts_in@, i as nat) == Ok::<
                    Seq<i128>,
                    Error,
                >(amounts@),
                amounts.len() == i,
                records@ == credited(self.records@, amounts@).take(i as int),
                forall|k: int| 0 <= k < i ==> amounts[k] >= 0,
            decreases n - i,
        {
            let record: Record = self.records[i];
            let step: Result<i128, Error> = Self::join_one(&record, &portion, max_amounts_in[i]);
            match step {
                Ok(amount) => {
                    let ghost before = amounts@;
                    amounts.push(amount);
                    records.push(
                        Record {
                            balance: record.balance + amount,
                            weight: record.weight,
                            scalar: record.scalar,
                            index: record.index,
                        },
                    );
                    proof {
                        assert(credited(self.records@, amounts@).take(i as int) =~= credited(
                            self.records@,
                            before,
                        ).take(i as int));
                        assert(records@ =~= credited(self.records@, amounts@).take(i as int + 1));
                    }
                },
                Err(e) => {
                    proof {
                        lemma_join_error(
                            self.records@,
                            portion,
                            max_amounts_in@,
                            (i + 1) as nat,
                            n as nat,
                        );
                    }
                    return Err(e);
                },
            }
            i = i + 1;
        }
        proof {
            assert(records@ =~= credited(self.records@, amounts@));
            assert(weights_of(records@) =~= weights_of(self.records@));
            lemma_join_amounts(self.records@, portion, max_amounts_in@, n as nat);
            assert forall|k: int| 0 <= k < n implies crate::c_pool::pool::record_wf(
                #[trigger] records@[k],
                k,
            ) by {
                assert(crate::c_pool::pool::record_wf(self.records@[k], k));
                assert(amounts[k] >= 0);
                assert(join_step(self.records@[k], portion, max_amounts_in@[k]) == Ok::<
                    i128,
                    Error,
                >(amounts@[k]));
            }
            self.lemma_shares_of(user);
            self.shares.lemma_balance_bounds(user);
        }
        let ghost before = self.shares;
        self.records = records;
        self.total_shares = supply;
        self.shares.mint(user, pool_amount_out);
        proof {
            assert(self.shares@ =~= before@.insert(
                user,
                before.balance_of(user) + pool_amount_out,
            ));
        }
        Ok(amounts)
    }

    /// What a join asks of one token.
    fn join_one(record: &Record, portion: &Portion, max_in: i128) -> (r: Result<i128, Error>)
        requires
            portion.shares > 0,
            portion.supply > 0,
            record.balance >= 0,
        ensures
            r == join_step(*record, *portion, max_in),
            r matches Ok(amount) ==> amount >= 0,
    {
        let amount: i128 = c_mul_div(
            record.balance,
            portion.shares,
            portion.supply,
            Rounding::Ceil,
        )?;
        check_max_in(amount, max_in)?;
        if record.balance.checked_add(amount).is_none() {
            return Err(Error::ArithmeticOverflow);
        }
        proof {
            lemma_signs();
        }
        Ok(amount)
    }

    /// What an exit pays of one token.
    fn exit_one(record: &Record, portion: &Portion, min_out: i128) -> (r: Result<i128, Error>)
        requires
            portion.shares > 0,
            portion.supply > 0,
            record.balance >= 0,
        ensures
            r == exit_step(*record, *portion, min_out),
            r matches Ok(amount) ==> amount >= 0,
    {
        let amount: i128 = c_mul_div(
            record.balance,
            portion.shares,
            portion.supply,
            Rounding::Floor,
        )?;
        check_min_out(amount, min_out)?;
        proof {
            lemma_signs();
        }
        if record.balance - amount < MIN_BALANCE {
            return Err(Error::InsufficientLiquidity);
        }
        Ok(amount)
    }

    /// Burns `pool_amount_in` pool shares of `user` for a share of every
    /// reserve. On success the result is what the pool owes `user` of each
    /// token, in the order of the token list.
    ///
    /// Fails, in this order: as `may_trade` says; with `OutOfBounds` where
    /// `min_amounts_out` has not one limit for each token or
    /// `pool_amount_in` is not positive; with `InsufficientLiquidity` where
    /// `user` holds fewer shares or the shares are all there are; with the
    /// error of the first token that `exit_step` refuses.
    pub fn exit_pool(&mut self, pool_amount_in: i128, min_amounts_out: &Vec<i128>, user: Address) -> (r:
        Result<Vec<i128>, Error>)
        requires
            old(self).wf(),
        ensures
            final(self).wf(),
            transition(
                old(self)@,
                final(self)@,
                r,
                old(self)@.exited(
                    old(self)@.exit_quote(pool_amount_in, min_amounts_out@, user),
                    pool_amount_in,
                    user,
                ),
            ),
            r matches Ok(amounts) ==> old(self)@.exit_quote(pool_amount_in, min_amounts_out@, user)
                == Ok::<Seq<i128>, Error>(amounts@) && amounts.len() == old(self)@.tokens.len(),
    {
        self.may_trade()?;
        let n: usize = self.token_list.len();
        if min_amounts_out.len() != n || pool_amount_in <= 0 {
            return Err(Error::OutOfBounds);
        }
        proof {
            self.lemma_shares_of(user);
        }
        if self.shares.balance(user) < pool_amount_in || self.total_shares <= pool_amount_in {
            return Err(Error::InsufficientLiquidity);
        }
        let portion = Portion { shares: pool_amount_in, supply: self.total_shares };
        let mut amounts: Vec<i128> = Vec::new();
        let mut records: Vec<Record> = Vec::new();
        let mut i: usize = 0;
        while i < n
            invariant
                i <= n,
                n == self.records.len(),
                n == min_amounts_out.len(),
                *self == *old(self),
                self.wf(),
                portion.shares > 0,
                portion.supply > 0,
                self@.exit_quote(pool_amount_in, min_amounts_out@, user) == exit_amounts(
                    self.records@,
                    portion,
                    min_amounts_out@,
                    n as nat,
                ),
                exit_amounts(self.records@, portion, min_amounts_out@, i as nat) == Ok::<
                    Seq<i128>,
                    Error,
                >(amounts@),
                amounts.len() == i,
                records@ == debited(self.records@, amounts@).take(i as int),
            decreases n - i,
        {
            let record: Record = self.records[i];
            let step: Result<i128, Error> = Self::exit_one(&record, &portion, min_amounts_out[i]);
            match step {
                Ok(amount) => {
                    let ghost before = amounts@;
                    amounts.push(amount);
                    records.push(
                        Record {
                            balance: record.balance - amount,
                            weight: record.weight,
                            scalar: record.scalar,
                            index: record.index,
                        },
                    );
                    proof {
                        assert(debited(self.records@, amounts@).take(i as int) =~= debited(
                            self.records@,
                            before,
                        ).take(i as int));
                        assert(records@ =~= debited(self.records@, amounts@).take(i as int + 1));
                    }
                },
                Err(e) => {
                    proof {
                        lemma_exit_error(
                            self.records@,
                            portion,
                            min_amounts_out@,
                            (i + 1) as nat,
                            n as nat,
                        );
                    }
                    return Err(e);
                },
            }
            i = i + 1;
        }
        proof {
            assert(records@ =~= debited(self.records@, amounts@));
            assert(weights_of(records@) =~= weights_of(self.records@));
            lemma_exit_amounts(self.records@, portion, min_amounts_out@, n as nat);
        }
        let ghost before = self.shares;
        self.records = records;
        self.total_shares = self.total_shares - pool_amount_in;
        self.shares.burn(user, pool_amount_in);
        proof {
            if before.balance_of(user) == pool_amount_in {
                assert(self.shares@ =~= before@.remove(user));
            } else {
                assert(self.shares@ =~= before@.insert(
                    user,
                    before.balance_of(user) - pool_amount_in,
                ));
            }
        }
        Ok(amounts)
    }
}

} // verus!
