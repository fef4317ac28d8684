use vstd::prelude::*;
use crate::address::Address;
use crate::address::position;
use crate::c_consts::MAX_BOUND_TOKENS;
use crate::c_consts::MAX_TOTAL_WEIGHT;
use crate::c_consts::MIN_BALANCE;
use crate::c_consts::MIN_BOUND_TOKENS;
use crate::c_consts::MIN_FEE;
use crate::c_num::c_div;
use crate::c_num::div_spec;
use crate::c_num::widen;
use crate::c_pool::bounds::fee_in_bounds;
use crate::c_pool::bounds::valid_scalar;
use crate::c_pool::bounds::weight_in_bounds;
use crate::c_pool::error::Error;
use crate::c_pool::shares::ShareLedger;
use crate::c_pool::storage_types::Record;
use crate::c_pool::sums::sum;

verus! {

/// The state of a pool: what is loaded when an operation starts and stored
/// when it has succeeded.
pub struct Pool {
    /// The factory that deployed the pool.
    pub factory: Option<Address>,
    /// Who may bind tokens, set the fee, finalize and freeze. None before
    /// `init`.
    pub controller: Option<Address>,
    /// The fraction of an amount paid in that a swap keeps.
    pub swap_fee: i128,
    /// The sum of the weights of the bound tokens.
    pub total_weight: i128,
    /// The bound tokens, in the order in which they were bound.
    pub token_list: Vec<Address>,
    /// `records[i]` is the record of `token_list[i]`.
    pub records: Vec<Record>,
    /// The pool shares that are outstanding.
    pub total_shares: i128,
    /// Who holds them.
    pub shares: ShareLedger,
    /// Whether anyone may swap, join and exit.
    pub public_swap: bool,
    /// Whether the tokens and weights are fixed for good.
    pub finalized: bool,
    /// Whether swaps, joins and exits are suspended.
    pub frozen: bool,
}

/// A pool as a mathematical value.
pub struct PoolView {
    pub factory: Option<Address>,
    pub controller: Option<Address>,
    pub swap_fee: i128,
    pub total_weight: i128,
    /// The bound tokens, in the order in which they were bound.
    pub tokens: Seq<Address>,
    /// `records[i]` is the record of `tokens[i]`.
    pub records: Seq<Record>,
    pub total_shares: i128,
    /// The holders of pool shares, each with a positive balance.
    pub shares: Map<Address, int>,
    pub public_swap: bool,
    pub finalized: bool,
    pub frozen: bool,
}

/// The weights of `records`.
pub open spec fn weights_of(records: Seq<Record>) -> Seq<int> {
    Seq::new(records.len(), |i: int| records[i].weight as int)
}

/// Whether `record` can be the record at position `i` of a pool.
pub open spec fn record_wf(record: Record, i: int) -> bool {
    &&& record.index == i
    &&& record.balance >= MIN_BALANCE
    &&& weight_in_bounds(record.weight as int)
    &&& valid_scalar(record.scalar as int)
}

impl PoolView {
    /// Whether `init` has been called.
    pub open spec fn initialized(self) -> bool {
        self.controller is Some
    }

    /// Whether the pool holds `token`.
    pub open spec fn is_bound(self, token: Address) -> bool {
        self.tokens.contains(token)
    }

    /// The record of a bound token.
    pub open spec fn record(self, token: Address) -> Record
        recommends
            self.is_bound(token),
    {
        self.records[self.tokens.index_of(token)]
    }

    /// The shares that `holder` holds.
    pub open spec fn shares_of(self, holder: Address) -> int {
        if self.shares.dom().contains(holder) {
            self.shares[holder]
        } else {
            0
        }
    }

    /// What holds of every pool: the token list and the records correspond
    /// one to one, no token is bound twice, the total weight is the sum of
    /// the weights, and shares exist only once the pool is finalized.
    pub open spec fn wf(self) -> bool {
        &&& self.tokens.len() == self.records.len()
        &&& self.tokens.len() <= MAX_BOUND_TOKENS
        &&& self.tokens.no_duplicates()
        &&& forall|i: int| 0 <= i < self.records.len() ==> record_wf(#[trigger] self.records[i], i)
        &&& self.total_weight == sum(weights_of(self.records))
        &&& self.total_weight <= MAX_TOTAL_WEIGHT
        &&& fee_in_bounds(self.swap_fee as int)
        &&& !self.initialized() ==> self.tokens.len() == 0 && !self.finalized && !self.frozen
            && self.factory is None
        &&& self.finalized ==> self.initialized() && self.tokens.len() >= MIN_BOUND_TOKENS
            && self.total_shares > 0
        &&& !self.finalized ==> self.total_shares == 0 && !self.public_swap
        &&& self.public_swap ==> self.finalized
    }
}

impl View for Pool {
    type V = PoolView;

    open spec fn view(&self) -> PoolView {
        PoolView {
            factory: self.factory,
            controller: self.controller,
            swap_fee: self.swap_fee,
            total_weight: self.total_weight,
            tokens: self.token_list@,
            records: self.records@,
            total_shares: self.total_shares,
            shares: self.shares@,
            public_swap: self.public_swap,
            finalized: self.finalized,
            frozen: self.frozen,
        }
    }
}

/// A vector with the items of `v`.
pub fn copy_of<T: Copy>(v: &Vec<T>) -> (r: Vec<T>)
    ensures
        r@ == v@,
{
    let mut r: Vec<T> = Vec::new();
    let mut i: usize = 0;
    while i < v.len()
        invariant
            i <= v.len(),
            r@ == v@.take(i as int),
        decreases v.len() - i,
    {
        r.push(v[i]);
        proof {
            assert(v@.take(i as int).push(v@[i as int]) =~= v@.take(i as int + 1));
        }
        i = i + 1;
    }
    proof {
        assert(v@.take(v.len() as int) =~= v@);
    }
    r
}

impl Pool {
    /// What holds of every pool that the operations take and leave: its view
    /// is well-formed, and the shares of the holders add up to the total.
    pub open spec fn wf(&self) -> bool {
        &&& self@.wf()
        &&& self.shares.wf()
        &&& self.shares.total() == self.total_shares
    }

    /// In a well-formed pool the token at position `i` has the record at
    /// position `i`.
    pub proof fn lemma_record_at(view: PoolView, i: int)
        requires
            view.wf(),
            0 <= i < view.tokens.len(),
        ensures
            view.is_bound(view.tokens[i]),
            view.tokens.index_of(view.tokens[i]) == i,
            view.record(view.tokens[i]) == view.records[i],
            record_wf(view.records[i], i),
    {
        let t = view.tokens[i];
        assert(view.tokens.contains(t));
        let j = view.tokens.index_of(t);
        assert(view.tokens[j] == t);
        assert(j == i);
    }

    /// A pool on which `init` has not been called.
    pub fn new() -> (pool: Pool)
        ensures
            pool.wf(),
            pool@ == (PoolView {
                factory: None,
                controller: None,
                swap_fee: MIN_FEE,
                total_weight: 0,
                tokens: Seq::empty(),
                records: Seq::empty(),
                total_shares: 0,
                shares: Map::empty(),
                public_swap: false,
                finalized: false,
                frozen: false,
            }),
    {
        let pool = Pool {
            factory: None,
            controller: None,
            swap_fee: MIN_FEE,
            total_weight: 0,
            token_list: Vec::new(),
            records: Vec::new(),
            total_shares: 0,
            shares: ShareLedger::new(),
            public_swap: false,
            finalized: false,
            frozen: false,
        };
        assert(weights_of(pool.records@) =~= Seq::<int>::empty());
        pool
    }

    /// A pool with the same state.
    pub fn snapshot(&self) -> (copy: Pool)
        ensures
            copy@ == self@,
            copy.wf() == self.wf(),
    {
        let copy = Pool {
            factory: self.factory,
            controller: self.controller,
            swap_fee: self.swap_fee,
            total_weight: self.total_weight,
            token_list: copy_of(&self.token_list),
            records: copy_of(&self.records),
            total_shares: self.total_shares,
            shares: ShareLedger {
                holders: copy_of(&self.shares.holders),
                amounts: copy_of(&self.shares.amounts),
            },
            public_swap: self.public_swap,
            finalized: self.finalized,
            frozen: self.frozen,
        };
        proof {
            assert forall|h: Address| copy.shares.balance_of(h) == self.shares.balance_of(h) by {}
            assert(copy.shares@ =~= self.shares@);
        }
        copy
    }

    /// The position of `token` among the bound tokens.
    pub fn find(&self, token: Address) -> (r: Option<usize>)
        requires
            self.wf(),
        ensures
            match r {
                Some(i) => self@.is_bound(token) && i == self@.tokens.index_of(token) && i
                    < self.records.len() && self.records[i as int] == self@.record(token),
                None => !self@.is_bound(token),
            },
    {
        let r = position(&self.token_list, token);
        proof {
            if let Some(i) = r {
                Self::lemma_record_at(self@, i as int);
            }
        }
        r
    }

    /// The controller, once `init` has named one.
    pub fn get_controller(&self) -> (r: Option<Address>)
        ensures
            r == self@.controller,
    {
        self.controller
    }

    /// The factory, once `init` has named one.
    pub fn get_factory(&self) -> (r: Option<Address>)
        ensures
            r == self@.factory,
    {
        self.factory
    }

    /// How many tokens are bound.
    pub fn get_num_tokens(&self) -> (n: usize)
        ensures
            n == self@.tokens.len(),
    {
        self.token_list.len()
    }

    /// The bound tokens, in the order in which they were bound.
    pub fn get_tokens(&self) -> (tokens: Vec<Address>)
        ensures
            tokens@ == self@.tokens,
    {
        copy_of(&self.token_list)
    }

    /// The swap fee.
    pub fn get_swap_fee(&self) -> (fee: i128)
        ensures
            fee == self@.swap_fee,
    {
        self.swap_fee
    }

    /// The sum of the weights of the bound tokens.
    pub fn get_total_denormalized_weight(&self) -> (weight: i128)
        ensures
            weight == self@.total_weight,
    {
        self.total_weight
    }

    /// The pool shares that are outstanding.
    pub fn get_total_supply(&self) -> (supply: i128)
        ensures
            supply == self@.total_shares,
    {
        self.total_shares
    }

    /// The pool shares that `holder` holds.
    pub fn balance(&self, holder: Address) -> (amount: i128)
        requires
            self.wf(),
        ensures
            amount == self@.shares_of(holder),
            0 <= amount <= self@.total_shares,
    {
        proof {
            self.shares.lemma_balance_bounds(holder);
        }
        self.shares.balance(holder)
    }

    /// Whether the pool holds `token`.
    pub fn is_bound(&self, token: Address) -> (b: bool)
        ensures
            b == self@.is_bound(token),
    {
        position(&self.token_list, token).is_some()
    }

    /// Whether the tokens and weights are fixed for good.
    pub fn is_finalized(&self) -> (b: bool)
        ensures
            b == self@.finalized,
    {
        self.finalized
    }

    /// Whether anyone may swap, join and exit.
    pub fn is_public_swap(&self) -> (b: bool)
        ensures
            b == self@.public_swap,
    {
        self.public_swap
    }

    /// Whether swaps, joins and exits are suspended.
    pub fn is_frozen(&self) -> (b: bool)
        ensures
            b == self@.frozen,
    {
        self.frozen
    }

    /// The record of `token`, or `TokenNotBound`.
    pub fn get_record(&self, token: Address) -> (r: Result<Record, Error>)
        requires
            self.wf(),
        ensures
            r == if self@.is_bound(token) {
                Ok::<Record, Error>(self@.record(token))
            } else {
                Err::<Record, Error>(Error::TokenNotBound)
            },
    {
        match self.find(token) {
            Some(i) => Ok(self.records[i]),
            None => Err(Error::TokenNotBound),
        }
    }

    /// The reserve of `token`, in the token's own units, or `TokenNotBound`.
    pub fn get_balance(&self, token: Address) -> (r: Result<i128, Error>)
        requires
            self.wf(),
        ensures
            r == if self@.is_bound(token) {
                Ok::<i128, Error>(self@.record(token).balance)
            } else {
                Err::<i128, Error>(Error::TokenNotBound)
            },
    {
        Ok(self.get_record(token)?.balance)
    }

    /// The denormalized weight of `token`, or `TokenNotBound`.
    pub fn get_denormalized_weight(&self, token: Address) -> (r: Result<i128, Error>)
        requires
            self.wf(),
        ensures
            r == if self@.is_bound(token) {
                Ok::<i128, Error>(self@.record(token).weight)
            } else {
                Err::<i128, Error>(Error::TokenNotBound)
            },
    {
        Ok(self.get_record(token)?.weight)
    }

    /// The weight of `token` as a fraction of the total weight, rounded
    /// toward zero, or `TokenNotBound`.
    pub fn get_normalized_weight(&self, token: Address) -> (r: Result<i128, Error>)
        requires
            self.wf(),
        ensures
            widen(r) == if self@.is_bound(token) {
                div_spec(self@.record(token).weight as int, self@.total_weight as int)
            } else {
                Err::<int, Error>(Error::TokenNotBound)
            },
    {
        let weight: i128 = self.get_record(token)?.weight;
        c_div(weight, self.total_weight)
    }
}

} // verus!
