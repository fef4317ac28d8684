use vstd::prelude::*;
use crate::address::Address;
use crate::c_num::ceil_div;
use crate::c_num::floor_div;
use crate::c_num::lemma_floor_div;
use crate::c_num::lemma_signs;
use crate::c_pool::bounds::lemma_scalars;
use crate::c_pool::error::Error;
use crate::c_pool::liquidity::Portion;
use crate::c_pool::liquidity::exit_step;
use crate::c_pool::liquidity::join_step;
use crate::c_pool::liquidity::lemma_exit_amounts;
use crate::c_pool::liquidity::lemma_join_amounts;
use crate::c_pool::pool::Pool;
use crate::c_pool::pool::PoolView;
use crate::c_pool::pool::record_wf;
use crate::c_pool::pool::weights_of;
use crate::c_pool::storage_types::Record;
use crate::c_pool::swap::SwapView;

verus! {

/// The arithmetic of one token in a join that is followed by an exit with
/// the same number of shares: with a share supply of `t`, `x` new shares and
/// a reserve of `b`, what the exit pays is what the join took or one unit
/// less.
pub proof fn lemma_round_trip(t: int, x: int, b: int)
    requires
        t > 0,
        x > 0,
        b >= 0,
    ensures
        ({
            let amount_in = ceil_div(b * x, t);
            let amount_out = floor_div((b + amount_in) * x, t + x);
            0 <= amount_in - 1 <= amount_out <= amount_in || 0 == amount_out == amount_in
        }),
{
    let ain = ceil_div(b * x, t);
    let grown = b + ain;
    let t2 = t + x;
    let aout = floor_div(grown * x, t2);
    lemma_floor_div(b * x, t);
    lemma_floor_div(grown * x, t2);
    crate::c_num::lemma_signs();
    assert(b * x >= 0);
    assert(ain >= 0);
    assert(grown * x >= 0);
    assert(aout >= 0);
    assert(aout <= ain) by (nonlinear_arith)
        requires
            aout * t2 <= grown * x,
            ain * t >= b * x,
            grown == b + ain,
            t2 == t + x,
            t2 > 0,
    {
        assert(grown * x == b * x + ain * x);
        assert(ain * t2 == ain * t + ain * x);
        assert(aout * t2 <= ain * t2);
    }
    assert(aout >= ain - 1) by (nonlinear_arith)
        requires
            grown * x < (aout + 1) * t2,
            (ain - 1) * t < b * x,
            grown == b + ain,
            t2 == t + x,
            t > 0,
            x > 0,
    {
        assert(grown * x == b * x + ain * x);
        assert((ain - 1) * t2 == (ain - 1) * t + (ain - 1) * x);
        assert((ain - 1) * t2 < (aout + 1) * t2);
    }
}

impl PoolView {
    /// A join that is followed at once by an exit with the same number of
    /// shares gives the user of no token more than the join took, and at
    /// most one unit less. The share supply and the shares of the user are
    /// what they were.
    pub proof fn law_join_exit_round_trip(
        self,
        pool_amount: i128,
        max_amounts_in: Seq<i128>,
        min_amounts_out: Seq<i128>,
        user: Address,
    )
        requires
            self.wf(),
            self.join_quote(pool_amount, max_amounts_in) is Ok,
            self.joined(
                self.join_quote(pool_amount, max_amounts_in),
                pool_amount,
                user,
            )->Ok_0.exit_quote(pool_amount, min_amounts_out, user) is Ok,
        ensures
            ({
                let taken = self.join_quote(pool_amount, max_amounts_in)->Ok_0;
                let joined = self.joined(
                    self.join_quote(pool_amount, max_amounts_in),
                    pool_amount,
                    user,
                )->Ok_0;
                let paid = joined.exit_quote(pool_amount, min_amounts_out, user)->Ok_0;
                let exited = joined.exited(
                    joined.exit_quote(pool_amount, min_amounts_out, user),
                    pool_amount,
                    user,
                )->Ok_0;
                &&& taken.len() == self.tokens.len()
                &&& paid.len() == self.tokens.len()
                &&& forall|i: int|
                    0 <= i < self.tokens.len() ==> 0 <= #[trigger] paid[i] <= taken[i]
                &&& forall|i: int|
                    0 <= i < self.tokens.len() ==> taken[i] - #[trigger] paid[i] <= 1
                &&& exited.total_shares == self.total_shares
                &&& exited.shares_of(user) == self.shares_of(user)
                &&& exited.tokens == self.tokens
            }),
    {
        let n = self.tokens.len();
        let join_portion = Portion { shares: pool_amount, supply: self.total_shares };
        let taken = self.join_quote(pool_amount, max_amounts_in)->Ok_0;
        lemma_join_amounts(self.records, join_portion, max_amounts_in, n);
        let joined = self.joined(
            self.join_quote(pool_amount, max_amounts_in),
            pool_amount,
            user,
        )->Ok_0;
        let exit_portion = Portion { shares: pool_amount, supply: joined.total_shares };
        let paid = joined.exit_quote(pool_amount, min_amounts_out, user)->Ok_0;
        lemma_exit_amounts(joined.records, exit_portion, min_amounts_out, n);
        assert forall|i: int| 0 <= i < n implies 0 <= #[trigger] paid[i] <= taken[i] && taken[i]
            - paid[i] <= 1 by {
            assert(record_wf(self.records[i], i));
            assert(join_step(self.records[i], join_portion, max_amounts_in[i]) == Ok::<
                i128,
                Error,
            >(taken[i]));
            assert(exit_step(joined.records[i], exit_portion, min_amounts_out[i]) == Ok::<
                i128,
                Error,
            >(paid[i]));
            lemma_round_trip(
                self.total_shares as int,
                pool_amount as int,
                self.records[i].balance as int,
            );
            let b = self.records[i].balance as int;
            assert((b + taken[i]) * pool_amount == joined.records[i].balance * pool_amount);
        }
    }

    /// A swap that pays in more than the fraction `MAX_IN_RATIO` of the
    /// reserve is refused with `MaxInRatioExceeded`, whatever the token
    /// going out and the limits are, and leaves the pool as it was.
    pub proof fn law_max_in_ratio(
        self,
        token_in: Address,
        amount_in: i128,
        token_out: Address,
        min_amount_out: i128,
        max_price: i128,
    )
        requires
            self.may_trade() is Ok,
            self.is_bound(token_in),
            amount_in > crate::c_pool::bounds::max_in_spec(self.record(token_in).balance as int),
        ensures
            self.swap_in_quote(token_in, amount_in, token_out, min_amount_out, max_price) == Err::<
                SwapView,
                Error,
            >(Error::MaxInRatioExceeded),
            self.swapped(
                token_in,
                token_out,
                self.swap_in_quote(token_in, amount_in, token_out, min_amount_out, max_price),
            ) == Err::<PoolView, Error>(Error::MaxInRatioExceeded),
    {
    }

    /// A swap that takes out more than the fraction `MAX_OUT_RATIO` of the
    /// reserve is refused with `MaxOutRatioExceeded`, whatever the token
    /// coming in and the limits are, and leaves the pool as it was.
    pub proof fn law_max_out_ratio(
        self,
        token_in: Address,
        max_amount_in: i128,
        token_out: Address,
        amount_out: i128,
        max_price: i128,
    )
        requires
            self.may_trade() is Ok,
            self.is_bound(token_out),
            amount_out > crate::c_pool::bounds::max_out_spec(
                self.record(token_out).balance as int,
            ),
        ensures
            self.swap_out_quote(token_in, max_amount_in, token_out, amount_out, max_price) == Err::<
                SwapView,
                Error,
            >(Error::MaxOutRatioExceeded),
            self.swapped(
                token_in,
                token_out,
                self.swap_out_quote(token_in, max_amount_in, token_out, amount_out, max_price),
            ) == Err::<PoolView, Error>(Error::MaxOutRatioExceeded),
    {
    }

    /// A finalized pool is closed to configuration for good: `bind`,
    /// `rebind`, `bundle_bind`, `set_swap_fee` and `finalize` are refused,
    /// with `InvalidPhase` for the controller and `Unauthorized` for anyone
    /// else.
    pub proof fn law_finalized_is_closed(
        self,
        token: Address,
        balance: i128,
        weight: i128,
        decimals: u32,
        fee: i128,
        tokens: Seq<Address>,
        balances: Seq<i128>,
        weights: Seq<i128>,
        places: Seq<u32>,
        caller: Address,
    )
        requires
            self.wf(),
            self.finalized,
        ensures
            ({
                let refusal = if self.controller == Some(caller) {
                    Error::InvalidPhase
                } else {
                    Error::Unauthorized
                };
                &&& self.bind_spec(token, balance, weight, decimals, caller) == Err::<
                    PoolView,
                    Error,
                >(refusal)
                &&& self.rebind_spec(token, balance, weight, caller) == Err::<PoolView, Error>(
                    refusal,
                )
                &&& self.bundle_bind_spec(tokens, balances, weights, places, caller) == Err::<
                    PoolView,
                    Error,
                >(refusal)
                &&& self.set_swap_fee_spec(fee, caller) == Err::<PoolView, Error>(refusal)
                &&& self.finalize_spec(caller) == Err::<PoolView, Error>(refusal)
            }),
    {
    }

    /// A token keeps its place: `bind` adds the new token behind those that
    /// are bound and leaves their records as they were.
    pub proof fn law_index_is_stable(
        self,
        token: Address,
        balance: i128,
        weight: i128,
        decimals: u32,
        caller: Address,
    )
        requires
            self.wf(),
            self.bind_spec(token, balance, weight, decimals, caller) is Ok,
        ensures
            ({
                let after = self.bind_spec(token, balance, weight, decimals, caller)->Ok_0;
                &&& after.wf()
                &&& after.tokens.len() == self.tokens.len() + 1
                &&& after.tokens.take(self.tokens.len() as int) == self.tokens
                &&& after.records.take(self.tokens.len() as int) == self.records
                &&& after.tokens.last() == token
                &&& after.records.last().index == self.tokens.len()
                &&& forall|t: Address|
                    self.is_bound(t) ==> after.is_bound(t) && after.record(t) == self.record(t)
            }),
    {
        let after = self.bind_spec(token, balance, weight, decimals, caller)->Ok_0;
        let n = self.tokens.len() as int;
        assert(after.tokens.take(n) =~= self.tokens);
        assert(after.records.take(n) =~= self.records);
        lemma_scalars();
        crate::c_pool::sums::lemma_sum_push(weights_of(self.records), weight as int);
        assert(weights_of(after.records) =~= weights_of(self.records).push(weight as int));
        assert(after.tokens.no_duplicates());
        assert forall|k: int| 0 <= k < after.records.len() implies record_wf(
            #[trigger] after.records[k],
            k,
        ) by {
            if k < n {
                assert(record_wf(self.records[k], k));
            }
        }
        assert forall|t: Address| self.is_bound(t) implies after.is_bound(t) && after.record(t)
            == self.record(t) by {
            let i = self.tokens.index_of(t);
            assert(self.tokens[i] == t);
            assert(after.tokens[i] == t);
            Pool::lemma_record_at(after, i);
        }
    }

    /// Whether `after` has the configuration of `self`: the controller, the
    /// fee, the flags of the lifecycle, the tokens at their places, and the
    /// weight, the scalar and the index of every record.
    pub open spec fn same_configuration(self, after: PoolView) -> bool {
        &&& after.factory == self.factory
        &&& after.controller == self.controller
        &&& after.swap_fee == self.swap_fee
        &&& after.total_weight == self.total_weight
        &&& after.public_swap == self.public_swap
        &&& after.finalized == self.finalized
        &&& after.frozen == self.frozen
        &&& after.tokens == self.tokens
        &&& after.records.len() == self.records.len()
        &&& forall|i: int|
            0 <= i < self.records.len() ==> (#[trigger] after.records[i]).weight
                == self.records[i].weight && after.records[i].scalar == self.records[i].scalar
                && after.records[i].index == self.records[i].index
    }

    /// Swaps, joins and exits move reserves and shares and nothing else: a
    /// finalized pool stays finalized, with its tokens, weights and fee.
    pub proof fn law_trading_keeps_configuration(
        self,
        token_in: Address,
        token_out: Address,
        swap: SwapView,
        amounts: Seq<i128>,
        pool_amount: i128,
        amount: int,
        shares: int,
        user: Address,
    )
        requires
            self.wf(),
            self.is_bound(token_in),
            self.is_bound(token_out),
            swap.record_in == (Record {
                balance: swap.record_in.balance,
                ..self.record(token_in)
            }),
            swap.record_out == (Record {
                balance: swap.record_out.balance,
                ..self.record(token_out)
            }),
        ensures
            self.same_configuration(self.swapped(token_in, token_out, Ok(swap))->Ok_0),
            self.same_configuration(self.joined(Ok(amounts), pool_amount, user)->Ok_0),
            self.same_configuration(self.exited(Ok(amounts), pool_amount, user)->Ok_0),
            self.same_configuration(self.moved(token_in, amount, shares, user)),
    {
        let i = self.tokens.index_of(token_in);
        let j = self.tokens.index_of(token_out);
        Pool::lemma_record_at(self, i);
        Pool::lemma_record_at(self, j);
    }
}

} // verus!
