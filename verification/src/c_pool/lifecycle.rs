use vstd::prelude::*;
use crate::address::Address;
use crate::c_consts::INIT_POOL_SUPPLY;
use crate::c_consts::MAX_BOUND_TOKENS;
use crate::c_consts::MAX_DECIMALS;
use crate::c_consts::MAX_TOTAL_WEIGHT;
use crate::c_consts::MIN_BALANCE;
use crate::c_consts::MIN_BOUND_TOKENS;
use crate::c_pool::bounds::check_balance;
use crate::c_pool::bounds::check_fee;
use crate::c_pool::bounds::check_room;
use crate::c_pool::bounds::check_total_weight;
use crate::c_pool::bounds::check_weight;
use crate::c_pool::bounds::fee_in_bounds;
use crate::c_pool::bounds::scalar_for;
use crate::c_pool::bounds::scalar_spec;
use crate::c_pool::bounds::weight_in_bounds;
use crate::c_pool::error::Error;
use crate::c_pool::pool::Pool;
use crate::c_pool::pool::PoolView;
use crate::c_pool::pool::weights_of;
use crate::c_pool::storage_types::Record;
use crate::c_pool::sums::lemma_sum_bounds;
use crate::c_pool::sums::lemma_sum_push;
use crate::c_pool::sums::lemma_sum_update;

verus! {

impl PoolView {
    /// Whether `caller` may do what is reserved for the controller:
    /// `InvalidPhase` before `init`, `Unauthorized` for anyone else.
    pub open spec fn controller_only(self, caller: Address) -> Result<(), Error> {
        if self.controller is None {
            Err(Error::InvalidPhase)
        } else if self.controller != Some(caller) {
            Err(Error::Unauthorized)
        } else {
            Ok(())
        }
    }

    /// Whether `caller` may change the tokens, the weights or the fee: as
    /// `controller_only`, and `InvalidPhase` once the pool is finalized.
    pub open spec fn may_configure(self, caller: Address) -> Result<(), Error> {
        if self.controller_only(caller) is Err {
            self.controller_only(caller)
        } else if self.finalized {
            Err(Error::InvalidPhase)
        } else {
            Ok(())
        }
    }

    /// The pool after `init`.
    pub open spec fn init_spec(self, factory: Address, controller: Address) -> Result<
        PoolView,
        Error,
    > {
        if self.initialized() {
            Err(Error::InvalidPhase)
        } else {
            Ok(PoolView { factory: Some(factory), controller: Some(controller), ..self })
        }
    }

    /// The pool after `bind`: the token is added at the end of the list with
    /// its record, and its weight is added to the total.
    pub open spec fn bind_spec(
        self,
        token: Address,
        balance: i128,
        weight: i128,
        decimals: u32,
        caller: Address,
    ) -> Result<PoolView, Error> {
        if self.may_configure(caller) is Err {
            Err(self.may_configure(caller)->Err_0)
        } else if self.is_bound(token) {
            Err(Error::TokenAlreadyBound)
        } else if self.tokens.len() >= MAX_BOUND_TOKENS {
            Err(Error::MaxTokensExceeded)
        } else if decimals > MAX_DECIMALS {
            Err(Error::OutOfBounds)
        } else if !weight_in_bounds(weight as int) {
            Err(Error::OutOfBounds)
        } else if balance < MIN_BALANCE {
            Err(Error::InsufficientLiquidity)
        } else if self.total_weight + weight > MAX_TOTAL_WEIGHT {
            Err(Error::OutOfBounds)
        } else {
            Ok(
                PoolView {
                    tokens: self.tokens.push(token),
                    records: self.records.push(
                        Record {
                            balance,
                            weight,
                            scalar: scalar_spec(decimals as int) as i128,
                            index: self.tokens.len() as u32,
                        },
                    ),
                    total_weight: (self.total_weight + weight) as i128,
                    ..self
                },
            )
        }
    }

    /// The pool after `rebind`: the token's record has the new balance and
    /// weight, and the total weight has changed by the difference.
    pub open spec fn rebind_spec(
        self,
        token: Address,
        balance: i128,
        weight: i128,
        caller: Address,
    ) -> Result<PoolView, Error> {
        if self.may_configure(caller) is Err {
            Err(self.may_configure(caller)->Err_0)
        } else if !self.is_bound(token) {
            Err(Error::TokenNotBound)
        } else if !weight_in_bounds(weight as int) {
            Err(Error::OutOfBounds)
        } else if balance < MIN_BALANCE {
            Err(Error::InsufficientLiquidity)
        } else if self.total_weight - self.record(token).weight + weight > MAX_TOTAL_WEIGHT {
            Err(Error::OutOfBounds)
        } else {
            Ok(
                PoolView {
                    records: self.records.update(
                        self.tokens.index_of(token),
                        Record { balance, weight, ..self.record(token) },
                    ),
                    total_weight: (self.total_weight - self.record(token).weight + weight) as i128,
                    ..self
                },
            )
        }
    }

    /// The pool after the first `n` tokens of a bundle are bound, one after
    /// the other.
    pub open spec fn bundle_spec(
        self,
        tokens: Seq<Address>,
        balances: Seq<i128>,
        weights: Seq<i128>,
        decimals: Seq<u32>,
        caller: Address,
        n: nat,
    ) -> Result<PoolView, Error>
        decreases n,
    {
        if n == 0 {
            Ok(self)
        } else {
            match self.bundle_spec(tokens, balances, weights, decimals, caller, (n - 1) as nat) {
                Err(e) => Err(e),
                Ok(pool) => pool.bind_spec(
                    tokens[n - 1],
                    balances[n - 1],
                    weights[n - 1],
                    decimals[n - 1],
                    caller,
                ),
            }
        }
    }

    /// The pool after `bundle_bind`.
    pub open spec fn bundle_bind_spec(
        self,
        tokens: Seq<Address>,
        balances: Seq<i128>,
        weights: Seq<i128>,
        decimals: Seq<u32>,
        caller: Address,
    ) -> Result<PoolView, Error> {
        if self.may_configure(caller) is Err {
            Err(self.may_configure(caller)->Err_0)
        } else if balances.len() != tokens.len() || weights.len() != tokens.len() || decimals.len()
            != tokens.len() {
            Err(Error::OutOfBounds)
        } else {
            self.bundle_spec(tokens, balances, weights, decimals, caller, tokens.len())
        }
    }

    /// The pool after `set_swap_fee`.
    pub open spec fn set_swap_fee_spec(self, fee: i128, caller: Address) -> Result<
        PoolView,
        Error,
    > {
        if self.may_configure(caller) is Err {
            Err(self.may_configure(caller)->Err_0)
        } else if !fee_in_bounds(fee as int) {
            Err(Error::OutOfBounds)
        } else {
            Ok(PoolView { swap_fee: fee, ..self })
        }
    }

    /// The pool after `finalize`: finalized, open to the public, and with
    /// the first shares in the hands of the controller.
    pub open spec fn finalize_spec(self, caller: Address) -> Result<PoolView, Error> {
        if self.may_configure(caller) is Err {
            Err(self.may_configure(caller)->Err_0)
        } else if self.tokens.len() < MIN_BOUND_TOKENS {
            Err(Error::InvalidPhase)
        } else {
            Ok(
                PoolView {
                    finalized: true,
                    public_swap: true,
                    total_shares: INIT_POOL_SUPPLY,
                    shares: self.shares.insert(caller, INIT_POOL_SUPPLY as int),
                    ..self
                },
            )
        }
    }

    /// The pool after `freeze` or `unfreeze`.
    pub open spec fn set_frozen_spec(self, frozen: bool, caller: Address) -> Result<
        PoolView,
        Error,
    > {
        if self.controller_only(caller) is Err {
            Err(self.controller_only(caller)->Err_0)
        } else {
            Ok(PoolView { frozen, ..self })
        }
    }
}

/// What an operation that changes the pool owes: on success the pool is the
/// one that `expected` gives, on failure the error is the one that `expected`
/// gives and the pool is unchanged.
pub open spec fn transition<T>(
    before: PoolView,
    after: PoolView,
    r: Result<T, Error>,
    expected: Result<PoolView, Error>,
) -> bool {
    match r {
        Ok(_) => expected == Ok::<PoolView, Error>(after),
        Err(e) => expected == Err::<PoolView, Error>(e) && after == before,
    }
}

impl Pool {
    /// Whether `caller` may do what is reserved for the controller.
    fn controller_only(&self, caller: Address) -> (r: Result<(), Error>)
        ensures
            r == self@.controller_only(caller),
    {
        match self.controller {
            None => Err(Error::InvalidPhase),
            Some(c) => if c == caller {
                Ok(())
            } else {
                Err(Error::Unauthorized)
            },
        }
    }

    /// Whether `caller` may change the tokens, the weights or the fee.
    fn may_configure(&self, caller: Address) -> (r: Result<(), Error>)
        ensures
            r == self@.may_configure(caller),
    {
        self.controller_only(caller)?;
        if self.finalized {
            Err(Error::InvalidPhase)
        } else {
            Ok(())
        }
    }

    /// Names the factory and the controller of a new pool.
    ///
    /// Fails with `InvalidPhase` exactly when the pool has a controller
    /// already.
    pub fn init(&mut self, factory: Address, controller: Address) -> (r: Result<(), Error>)
        requires
            old(self).wf(),
        ensures
            final(self).wf(),
            transition(old(self)@, final(self)@, r, old(self)@.init_spec(factory, controller)),
    {
        if self.controller.is_some() {
            return Err(Error::InvalidPhase);
        }
        self.factory = Some(factory);
        self.controller = Some(controller);
        Ok(())
    }

    /// Adds `token` to the pool with a reserve of `balance`, in the token's
    /// own units, and the denormalized weight `weight`. `decimals` is the
    /// number of decimal places of the token. On success the result is what
    /// the controller owes the pool: `balance`.
    ///
    /// Fails, in this order, as `may_configure` says; with
    /// `TokenAlreadyBound`; with `MaxTokensExceeded`; with `OutOfBounds`
    /// where the token has more decimal places than the scale or the weight
    /// is out of bounds; with `InsufficientLiquidity` where the balance is
    /// below the minimum; with `OutOfBounds` where the total weight would
    /// pass its maximum.
    pub fn bind(
        &mut self,
        token: Address,
        balance: i128,
        weight: i128,
        decimals: u32,
        caller: Address,
    ) -> (r: Result<i128, Error>)
        requires
            old(self).wf(),
        ensures
            final(self).wf(),
            transition(
                old(self)@,
                final(self)@,
                r,
                old(self)@.bind_spec(token, balance, weight, decimals, caller),
            ),
            r matches Ok(owed) ==> owed == balance,
    {
        self.may_configure(caller)?;
        if self.find(token).is_some() {
            return Err(Error::TokenAlreadyBound);
        }
        check_room(self.token_list.len())?;
        let scalar: i128 = scalar_for(decimals)?;
        check_weight(weight)?;
        check_balance(balance)?;
        check_total_weight(self.total_weight + weight)?;
        let index: u32 = self.token_list.len() as u32;
        let record = Record { balance, weight, scalar, index };
        proof {
            lemma_sum_push(weights_of(self.records@), weight as int);
            assert(weights_of(self.records@.push(record)) =~= weights_of(self.records@).push(
                weight as int,
            ));
        }
        self.token_list.push(token);
        self.records.push(record);
        self.total_weight = self.total_weight + weight;
        Ok(balance)
    }

    /// Gives the bound `token` a new reserve and a new weight. On success the
    /// result is what the controller owes the pool: the new balance less the
    /// old one, negative where the pool owes the controller.
    ///
    /// Fails, in this order, as `may_configure` says; with `TokenNotBound`;
    /// with `OutOfBounds` where the weight is out of bounds; with
    /// `InsufficientLiquidity` where the balance is below the minimum; with
    /// `OutOfBounds` where the total weight would pass its maximum.
    pub fn rebind(&mut self, token: Address, balance: i128, weight: i128, caller: Address) -> (r:
        Result<i128, Error>)
        requires
            old(self).wf(),
        ensures
            final(self).wf(),
            transition(
                old(self)@,
                final(self)@,
                r,
                old(self)@.rebind_spec(token, balance, weight, caller),
            ),
            r matches Ok(owed) ==> owed == balance - old(self)@.record(token).balance,
    {
        self.may_configure(caller)?;
        let i: usize = match self.find(token) {
            Some(i) => i,
            None => {
                return Err(Error::TokenNotBound);
            },
        };
        check_weight(weight)?;
        check_balance(balance)?;
        let old_record: Record = self.records[i];
        proof {
            lemma_sum_bounds(weights_of(self.records@), i as int);
            assert(weights_of(self.records@)[i as int] == old_record.weight);
        }
        let lighter: i128 = self.total_weight - old_record.weight;
        check_total_weight(lighter + weight)?;
        let record = Record { balance, weight, scalar: old_record.scalar, index: old_record.index };
        proof {
            lemma_sum_update(weights_of(self.records@), i as int, weight as int);
            assert(weights_of(self.records@.update(i as int, record)) =~= weights_of(
                self.records@,
            ).update(i as int, weight as int));
        }
        self.records.set(i, record);
        self.total_weight = lighter + weight;
        Ok(balance - old_record.balance)
    }

    /// Sets the swap fee.
    ///
    /// Fails as `may_configure` says, and otherwise with `OutOfBounds`
    /// exactly when the fee is outside `MIN_FEE ..= MAX_FEE`.
    pub fn set_swap_fee(&mut self, fee: i128, caller: Address) -> (r: Result<(), Error>)
        requires
            old(self).wf(),
        ensures
            final(self).wf(),
            transition(old(self)@, final(self)@, r, old(self)@.set_swap_fee_spec(fee, caller)),
    {
        self.may_configure(caller)?;
        check_fee(fee)?;
        self.swap_fee = fee;
        Ok(())
    }

    /// Suspends swaps, joins and exits.
    ///
    /// Fails as `controller_only` says.
    pub fn freeze(&mut self, caller: Address) -> (r: Result<(), Error>)
        requires
            old(self).wf(),
        ensures
            final(self).wf(),
            transition(old(self)@, final(self)@, r, old(self)@.set_frozen_spec(true, caller)),
    {
        self.controller_only(caller)?;
        self.frozen = true;
        Ok(())
    }

    /// Takes swaps, joins and exits up again.
    ///
    /// Fails as `controller_only` says.
    pub fn unfreeze(&mut self, caller: Address) -> (r: Result<(), Error>)
        requires
            old(self).wf(),
        ensures
            final(self).wf(),
            transition(old(self)@, final(self)@, r, old(self)@.set_frozen_spec(false, caller)),
    {
        self.controller_only(caller)?;
        self.frozen = false;
        Ok(())
    }

    /// An error in a bundle stays: once the first `k` tokens cannot be bound,
    /// no longer prefix can.
    pub proof fn lemma_bundle_error(
        view: PoolView,
        tokens: Seq<Address>,
        balances: Seq<i128>,
        weights: Seq<i128>,
        decimals: Seq<u32>,
        caller: Address,
        k: nat,
        n: nat,
    )
        requires
            k <= n,
            view.bundle_spec(tokens, balances, weights, decimals, caller, k) is Err,
        ensures
            view.bundle_spec(tokens, balances, weights, decimals, caller, n) == view.bundle_spec(
                tokens,
                balances,
                weights,
                decimals,
                caller,
                k,
            ),
        decreases n,
    {
        if n > k {
            Self::lemma_bundle_error(
                view,
                tokens,
                balances,
                weights,
                decimals,
                caller,
                k,
                (n - 1) as nat,
            );
        }
    }

    /// Binds the tokens of a bundle, one after the other, or none of them:
    /// `tokens[i]` with the reserve `balances[i]`, the weight `weights[i]`
    /// and `decimals[i]` decimal places.
    ///
    /// Fails as `may_configure` says; with `OutOfBounds` where the four
    /// lists differ in length; and otherwise with the error of the first
    /// token that `bind` refuses.
    pub fn bundle_bind(
        &mut self,
        tokens: &Vec<Address>,
        balances: &Vec<i128>,
        weights: &Vec<i128>,
        decimals: &Vec<u32>,
        caller: Address,
    ) -> (r: Result<(), Error>)
        requires
            old(self).wf(),
        ensures
            final(self).wf(),
            transition(
                old(self)@,
                final(self)@,
                r,
                old(self)@.bundle_bind_spec(tokens@, balances@, weights@, decimals@, caller),
            ),
    {
        self.may_configure(caller)?;
        let n: usize = tokens.len();
        if balances.len() != n || weights.len() != n || decimals.len() != n {
            return Err(Error::OutOfBounds);
        }
        let mut work: Pool = self.snapshot();
        let mut i: usize = 0;
        while i < n
            invariant
                i <= n,
                n == tokens.len(),
                n == balances.len(),
                n == weights.len(),
                n == decimals.len(),
                *self == *old(self),
                self.wf(),
                self@.may_configure(caller) is Ok,
                work.wf(),
                self@.bundle_spec(tokens@, balances@, weights@, decimals@, caller, i as nat) == Ok::<
                    PoolView,
                    Error,
                >(work@),
            decreases n - i,
        {
            match work.bind(tokens[i], balances[i], weights[i], decimals[i], caller) {
                Ok(_) => {},
                Err(e) => {
                    proof {
                        Self::lemma_bundle_error(
                            self@,
                            tokens@,
                            balances@,
                            weights@,
                            decimals@,
                            caller,
                            (i + 1) as nat,
                            n as nat,
                        );
                    }
                    return Err(e);
                },
            }
            i = i + 1;
        }
        *self = work;
        Ok(())
    }

    /// Fixes the tokens and weights for good, opens the pool to the public
    /// and mints `INIT_POOL_SUPPLY` shares to the controller.
    ///
    /// Fails as `may_configure` says, and otherwise with `InvalidPhase`
    /// exactly when fewer than `MIN_BOUND_TOKENS` tokens are bound.
    pub fn finalize(&mut self, caller: Address) -> (r: Result<(), Error>)
        requires
            old(self).wf(),
        ensures
            final(self).wf(),
            transition(old(self)@, final(self)@, r, old(self)@.finalize_spec(caller)),
    {
        self.may_configure(caller)?;
        if self.token_list.len() < MIN_BOUND_TOKENS {
            return Err(Error::InvalidPhase);
        }
        let ghost before = self.shares;
        self.shares.mint(caller, INIT_POOL_SUPPLY);
        self.total_shares = INIT_POOL_SUPPLY;
        self.finalized = true;
        self.public_swap = true;
        proof {
            assert forall|h: Address| before.balance_of(h) == 0 by {
                before.lemma_balance_bounds(h);
            }
            assert(self.shares@ =~= before@.insert(caller, INIT_POOL_SUPPLY as int));
        }
        Ok(())
    }
}

} // verus!
