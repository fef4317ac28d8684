use vstd::prelude::*;
use vstd::arithmetic::power::lemma_pow_distributes;
use vstd::arithmetic::power::lemma_pow_positive;
use vstd::arithmetic::power::pow;
use crate::address::Address;
use crate::c_consts::BONE;
use crate::c_math::in_given_out_base;
use crate::c_math::in_given_out_spec;
use crate::c_math::lemma_in_given_out_keeps_invariant;
use crate::c_math::lemma_out_given_in_keeps_invariant;
use crate::c_math::lemma_pow_base;
use crate::c_math::not_below_power;
use crate::c_math::out_given_in_base;
use crate::c_math::out_given_in_spec;
use crate::c_num::ceil_div;
use crate::c_num::floor_div;
use crate::c_num::lemma_exact_div;
use crate::c_num::lemma_floor_div;
use crate::c_num::lemma_powi_holds;
use crate::c_num::powi_spec;
use crate::c_num::lemma_signs;
use crate::c_num::pow_spec;
use crate::c_pool::bounds::lemma_scalars;
use crate::c_pool::pool::record_wf;
use crate::c_pool::pool::weights_of;
use crate::c_pool::pool::Pool;
use crate::c_pool::pool::PoolView;
use crate::c_pool::storage_types::Record;
use crate::c_pool::swap::amount_in_spec;
use crate::c_pool::swap::amount_out_spec;
use crate::c_pool::swap::SwapView;

verus! {

/// The weighted invariant of a pool, raised to the power of its total weight:
/// the product of the reserves, each to the power of its weight.
pub open spec fn invariant_of(records: Seq<Record>) -> int
    decreases records.len(),
{
    if records.len() == 0 {
        1
    } else {
        invariant_of(records.drop_last()) * pow(
            records.last().balance as int,
            records.last().weight as nat,
        )
    }
}

/// The weighted product of two reserves: each to the power of its weight.
pub open spec fn weighted_product(
    balance_in: int,
    weight_in: int,
    balance_out: int,
    weight_out: int,
) -> int {
    pow(balance_in, weight_in as nat) * pow(balance_out, weight_out as nat)
}

/// Of two bases that are not negative the smaller has the smaller power, for
/// an exponent of one at least.
pub proof fn lemma_pow_strict(a: int, b: int, e: nat)
    requires
        0 <= a < b,
        e >= 1,
    ensures
        pow(a, e) < pow(b, e),
    decreases e,
{
    reveal(pow);
    lemma_pow_base(a, b, (e - 1) as nat);
    lemma_pow_positive(b, (e - 1) as nat);
    let pa = pow(a, (e - 1) as nat);
    let pb = pow(b, (e - 1) as nat);
    assert(a * pa < b * pb) by (nonlinear_arith)
        requires
            0 <= a < b,
            0 <= pa <= pb,
            pb > 0,
    ;
}

/// The invariant of reserves that are all positive is positive.
pub proof fn lemma_invariant_positive(records: Seq<Record>)
    requires
        forall|i: int| 0 <= i < records.len() ==> records[i].balance >= 1,
    ensures
        invariant_of(records) > 0,
    decreases records.len(),
{
    if records.len() > 0 {
        lemma_invariant_positive(records.drop_last());
        let last = records.last();
        lemma_pow_positive(last.balance as int, last.weight as nat);
        assert(invariant_of(records.drop_last()) * pow(last.balance as int, last.weight as nat) > 0)
            by (nonlinear_arith)
            requires
                invariant_of(records.drop_last()) > 0,
                pow(last.balance as int, last.weight as nat) > 0,
        ;
    }
}

/// A record that is replaced takes its factor out of the invariant and puts
/// the factor of the new record in.
pub proof fn lemma_invariant_update(records: Seq<Record>, i: int, record: Record)
    requires
        0 <= i < records.len(),
    ensures
        invariant_of(records.update(i, record)) * pow(
            records[i].balance as int,
            records[i].weight as nat,
        ) == invariant_of(records) * pow(record.balance as int, record.weight as nat),
    decreases records.len(),
{
    let old_factor = pow(records[i].balance as int, records[i].weight as nat);
    let new_factor = pow(record.balance as int, record.weight as nat);
    let rest = invariant_of(records.drop_last());
    if i == records.len() - 1 {
        assert(records.update(i, record).drop_last() =~= records.drop_last());
        assert((rest * new_factor) * old_factor == (rest * old_factor) * new_factor)
            by (nonlinear_arith);
    } else {
        lemma_invariant_update(records.drop_last(), i, record);
        assert(records.update(i, record).drop_last() =~= records.drop_last().update(i, record));
        let changed = invariant_of(records.drop_last().update(i, record));
        let last = pow(records.last().balance as int, records.last().weight as nat);
        assert((changed * last) * old_factor == (rest * last) * new_factor) by (nonlinear_arith)
            requires
                changed * old_factor == rest * new_factor,
        ;
    }
}

/// A weighted product of scaled reserves compares as that of the reserves:
/// the scalars cancel.
proof fn lemma_scalars_cancel(
    a: int,
    b: int,
    c: int,
    d: int,
    s: int,
    t: int,
    wi: nat,
    wo: nat,
)
    requires
        a >= 0 && b >= 0 && c >= 0 && d >= 0,
        s >= 1,
        t >= 1,
        pow(a * s, wi) * pow(b * t, wo) >= pow(c * s, wi) * pow(d * t, wo),
    ensures
        pow(a, wi) * pow(b, wo) >= pow(c, wi) * pow(d, wo),
{
    lemma_pow_distributes(a, s, wi);
    lemma_pow_distributes(b, t, wo);
    lemma_pow_distributes(c, s, wi);
    lemma_pow_distributes(d, t, wo);
    lemma_pow_positive(s, wi);
    lemma_pow_positive(t, wo);
    let ps = pow(s, wi);
    let pt = pow(t, wo);
    let pa = pow(a, wi);
    let pb = pow(b, wo);
    let pc = pow(c, wi);
    let pd = pow(d, wo);
    assert(pa * pb >= pc * pd) by (nonlinear_arith)
        requires
            (pa * ps) * (pb * pt) >= (pc * ps) * (pd * pt),
            ps > 0,
            pt > 0,
    {
        assert((pa * ps) * (pb * pt) == (pa * pb) * (ps * pt));
        assert((pc * ps) * (pd * pt) == (pc * pd) * (ps * pt));
        assert(ps * pt > 0);
    }
}

/// Where the weight `numer` is `k` times the weight `denom`, their ratio is
/// `k` units whichever way it is rounded.
pub proof fn lemma_whole_exponent(k: nat, numer: int, denom: int)
    requires
        denom >= 1,
        numer == k * denom,
    ensures
        floor_div(numer * BONE, denom) == k * BONE,
        ceil_div(numer * BONE, denom) == k * BONE,
{
    assert(numer * BONE == (k * BONE) * denom) by (nonlinear_arith)
        requires
            numer == k * denom,
    ;
    lemma_exact_div(k * BONE, denom);
}

/// The power of a whole exponent holds: where the weight `numer` is `k` times
/// the weight `denom`, the power that `pow_spec` gives is not below the
/// exact power.
pub proof fn lemma_whole_power(base: int, k: nat, numer: int, denom: int)
    requires
        k >= 1,
        denom >= 1,
        numer == k * denom,
        base >= 0,
        pow_spec(base, k * BONE) is Ok,
    ensures
        not_below_power(pow_spec(base, k * BONE)->Ok_0, base, numer as nat, denom as nat),
{
    let unit = BONE as int;
    vstd::arithmetic::div_mod::lemma_fundamental_div_mod_converse(k * BONE, unit, k as int, 0);
    assert(powi_spec(base, k) is Ok);
    lemma_powi_holds(base, k);
    let p = powi_spec(base, k)->Ok_0;
    let w = denom as nat;
    let x = p * pow(unit, k);
    let y = pow(base, k) * unit;
    crate::c_num::lemma_pow_nonnegative(base, k);
    assert(y >= 0) by (nonlinear_arith)
        requires
            y == pow(base, k) * unit,
            pow(base, k) >= 0,
            unit > 0,
    ;
    lemma_pow_base(y, x, w);
    lemma_pow_distributes(p, pow(unit, k), w);
    lemma_pow_distributes(pow(base, k), unit, w);
    vstd::arithmetic::power::lemma_pow_multiplies(unit, k, w);
    vstd::arithmetic::power::lemma_pow_multiplies(base, k, w);
    assert(k * w == numer as nat) by (nonlinear_arith)
        requires
            numer == k * denom,
            w == denom,
            denom >= 1,
    ;
}

impl PoolView {
    /// Whether the power that `swap_exact_amount_in` takes for this swap is
    /// not below the exact power of its base.
    pub open spec fn power_holds_in(
        self,
        token_in: Address,
        amount_in: i128,
        token_out: Address,
    ) -> bool {
        let rin = self.record(token_in);
        let rout = self.record(token_out);
        let base = out_given_in_base(
            rin.balance * rin.scalar,
            amount_in * rin.scalar,
            self.swap_fee as int,
        );
        not_below_power(
            pow_spec(base, floor_div(rin.weight * BONE, rout.weight as int))->Ok_0,
            base,
            rin.weight as nat,
            rout.weight as nat,
        )
    }

    /// Whether the power that `swap_exact_amount_out` takes for this swap is
    /// not below the exact power of its base.
    pub open spec fn power_holds_out(
        self,
        token_in: Address,
        token_out: Address,
        amount_out: i128,
    ) -> bool {
        let rin = self.record(token_in);
        let rout = self.record(token_out);
        let base = in_given_out_base(rout.balance * rout.scalar, amount_out * rout.scalar);
        not_below_power(
            pow_spec(base, ceil_div(rout.weight * BONE, rin.weight as int))->Ok_0,
            base,
            rout.weight as nat,
            rin.weight as nat,
        )
    }

    /// A swap leaves a pool well-formed, with the same tokens at the same
    /// places, and with the two records of the swap in place of those of the
    /// two tokens.
    pub proof fn lemma_swapped(self, token_in: Address, token_out: Address, swap: SwapView)
        requires
            self.wf(),
            self.is_bound(token_in),
            self.is_bound(token_out),
            token_in != token_out,
            swap.record_in == (Record {
                balance: swap.record_in.balance,
                ..self.record(token_in)
            }),
            swap.record_out == (Record {
                balance: swap.record_out.balance,
                ..self.record(token_out)
            }),
            swap.record_in.balance >= 1,
            swap.record_out.balance >= 1,
        ensures
            ({
                let after = self.swapped(token_in, token_out, Ok(swap))->Ok_0;
                &&& after.wf()
                &&& after.tokens == self.tokens
                &&& after.record(token_in) == swap.record_in
                &&& after.record(token_out) == swap.record_out
                &&& after.swap_fee == self.swap_fee
                &&& after.may_trade() == self.may_trade()
            }),
    {
        let i = self.tokens.index_of(token_in);
        let j = self.tokens.index_of(token_out);
        let after = self.swapped(token_in, token_out, Ok(swap))->Ok_0;
        Pool::lemma_record_at(self, i);
        Pool::lemma_record_at(self, j);
        assert(weights_of(after.records) =~= weights_of(self.records));
        assert forall|k: int| 0 <= k < after.records.len() implies record_wf(
            #[trigger] after.records[k],
            k,
        ) by {
            assert(record_wf(self.records[k], k));
        }
    }

    /// The facts about the two records of a swap that the laws rest on.
    proof fn lemma_records(self, token_in: Address, token_out: Address)
        requires
            self.wf(),
            self.is_bound(token_in),
            self.is_bound(token_out),
        ensures
            self.record(token_in).balance >= 1,
            self.record(token_out).balance >= 1,
            1 <= self.record(token_in).scalar <= BONE,
            1 <= self.record(token_out).scalar <= BONE,
            self.record(token_in).weight >= 1,
            self.record(token_out).weight >= 1,
            0 < self.swap_fee < BONE,
            self.record(token_in).balance * self.record(token_in).scalar >= 1,
            self.record(token_out).balance * self.record(token_out).scalar >= 1,
    {
        let i = self.tokens.index_of(token_in);
        let j = self.tokens.index_of(token_out);
        Pool::lemma_record_at(self, i);
        Pool::lemma_record_at(self, j);
        assert(self.tokens[i] == token_in && self.tokens[j] == token_out);
        lemma_scalars();
        let rin = self.record(token_in);
        let rout = self.record(token_out);
        assert(rin.balance * rin.scalar >= 1 && rout.balance * rout.scalar >= 1)
            by (nonlinear_arith)
            requires
                rin.balance >= 1 && rin.scalar >= 1 && rout.balance >= 1 && rout.scalar >= 1,
        ;
    }

    /// Wherever the power holds, `swap_exact_amount_in` leaves the weighted
    /// product of the two reserves no smaller than it was. The reserve
    /// coming in has grown by what the trader paid, the reserve going out
    /// has shrunk by what the trader got.
    pub proof fn lemma_swap_in_weighted(
        self,
        token_in: Address,
        amount_in: i128,
        token_out: Address,
        min_amount_out: i128,
        max_price: i128,
    )
        requires
            self.wf(),
            self.swap_in_quote(token_in, amount_in, token_out, min_amount_out, max_price) is Ok,
            self.power_holds_in(token_in, amount_in, token_out),
        ensures
            ({
                let swap = self.swap_in_quote(
                    token_in,
                    amount_in,
                    token_out,
                    min_amount_out,
                    max_price,
                )->Ok_0;
                let rin = self.record(token_in);
                let rout = self.record(token_out);
                &&& swap.amount_in == amount_in
                &&& swap.amount_out >= 0
                &&& swap.record_in == (Record { balance: swap.record_in.balance, ..rin })
                &&& swap.record_out == (Record { balance: swap.record_out.balance, ..rout })
                &&& swap.record_in.balance == rin.balance + swap.amount_in
                &&& swap.record_out.balance == rout.balance - swap.amount_out
                &&& swap.record_out.balance >= 1
                &&& weighted_product(
                    swap.record_in.balance as int,
                    rin.weight as int,
                    swap.record_out.balance as int,
                    rout.weight as int,
                ) >= weighted_product(
                    rin.balance as int,
                    rin.weight as int,
                    rout.balance as int,
                    rout.weight as int,
                )
            }),
    {
        let rin = self.record(token_in);
        let rout = self.record(token_out);
        self.lemma_records(token_in, token_out);
        lemma_signs();
        let fee = self.swap_fee as int;
        let s_in = rin.scalar as int;
        let s_out = rout.scalar as int;
        let b_in = rin.balance as int;
        let b_out = rout.balance as int;
        let a = amount_in as int;
        let wi = rin.weight as nat;
        let wo = rout.weight as nat;
        assert(a * s_in >= 0);
        let scaled_out = out_given_in_spec(
            b_in * s_in,
            rin.weight as int,
            b_out * s_out,
            rout.weight as int,
            a * s_in,
            fee,
        )->Ok_0;
        lemma_out_given_in_keeps_invariant(
            b_in * s_in,
            rin.weight as int,
            b_out * s_out,
            rout.weight as int,
            a * s_in,
            fee,
        );
        let o = floor_div(scaled_out, s_out);
        lemma_floor_div(scaled_out, s_out);
        assert(o == amount_out_spec(rin, rout, fee, a)->Ok_0);
        let left = b_out * s_out - scaled_out;
        assert(b_in * s_in + a * s_in == (b_in + a) * s_in) by (nonlinear_arith);
        assert((b_out - o) * s_out >= left) by (nonlinear_arith)
            requires
                o * s_out <= scaled_out,
                left == b_out * s_out - scaled_out,
        ;
        lemma_pow_base(left, (b_out - o) * s_out, wo);
        lemma_pow_base(0, (b_in + a) * s_in, wi);
        let big_in = pow((b_in + a) * s_in, wi);
        assert(big_in * pow((b_out - o) * s_out, wo) >= pow(b_in * s_in, wi) * pow(
            b_out * s_out,
            wo,
        )) by (nonlinear_arith)
            requires
                big_in * pow(left, wo) >= pow(b_in * s_in, wi) * pow(b_out * s_out, wo),
                pow((b_out - o) * s_out, wo) >= pow(left, wo),
                big_in >= 0,
        {
            assert(big_in * pow((b_out - o) * s_out, wo) >= big_in * pow(left, wo));
        }
        lemma_scalars_cancel(b_in + a, b_out - o, b_in, b_out, s_in, s_out, wi, wo);
    }

    /// Wherever the power holds, `swap_exact_amount_out` leaves the weighted
    /// product of the two reserves no smaller than it was. The reserve
    /// coming in has grown by what the trader paid, the reserve going out
    /// has shrunk by what the trader got.
    pub proof fn lemma_swap_out_weighted(
        self,
        token_in: Address,
        max_amount_in: i128,
        token_out: Address,
        amount_out: i128,
        max_price: i128,
    )
        requires
            self.wf(),
            self.swap_out_quote(token_in, max_amount_in, token_out, amount_out, max_price) is Ok,
            self.power_holds_out(token_in, token_out, amount_out),
        ensures
            ({
                let swap = self.swap_out_quote(
                    token_in,
                    max_amount_in,
                    token_out,
                    amount_out,
                    max_price,
                )->Ok_0;
                let rin = self.record(token_in);
                let rout = self.record(token_out);
                &&& swap.amount_out == amount_out
                &&& swap.amount_in >= 0
                &&& swap.record_in == (Record { balance: swap.record_in.balance, ..rin })
                &&& swap.record_out == (Record { balance: swap.record_out.balance, ..rout })
                &&& swap.record_in.balance == rin.balance + swap.amount_in
                &&& swap.record_out.balance == rout.balance - swap.amount_out
                &&& swap.record_out.balance >= 1
                &&& weighted_product(
                    swap.record_in.balance as int,
                    rin.weight as int,
                    swap.record_out.balance as int,
                    rout.weight as int,
                ) >= weighted_product(
                    rin.balance as int,
                    rin.weight as int,
                    rout.balance as int,
                    rout.weight as int,
                )
            }),
    {
        let rin = self.record(token_in);
        let rout = self.record(token_out);
        self.lemma_records(token_in, token_out);
        lemma_signs();
        let fee = self.swap_fee as int;
        let s_in = rin.scalar as int;
        let s_out = rout.scalar as int;
        let b_in = rin.balance as int;
        let b_out = rout.balance as int;
        let o = amount_out as int;
        let wi = rin.weight as nat;
        let wo = rout.weight as nat;
        let swap = self.swap_out_quote(token_in, max_amount_in, token_out, amount_out, max_price)->Ok_0;
        assert(swap.record_out.balance >= 1);
        assert(o < b_out);
        assert(0 <= o * s_out < b_out * s_out) by (nonlinear_arith)
            requires
                0 <= o < b_out,
                s_out >= 1,
        ;
        let scaled_in = in_given_out_spec(
            b_in * s_in,
            rin.weight as int,
            b_out * s_out,
            rout.weight as int,
            o * s_out,
            fee,
        )->Ok_0;
        lemma_in_given_out_keeps_invariant(
            b_in * s_in,
            rin.weight as int,
            b_out * s_out,
            rout.weight as int,
            o * s_out,
            fee,
        );
        let a = ceil_div(scaled_in, s_in);
        lemma_floor_div(scaled_in, s_in);
        assert(a == amount_in_spec(rin, rout, fee, o)->Ok_0);
        assert(b_out * s_out - o * s_out == (b_out - o) * s_out) by (nonlinear_arith);
        assert((b_in + a) * s_in >= b_in * s_in + scaled_in) by (nonlinear_arith)
            requires
                a * s_in >= scaled_in,
        ;
        lemma_pow_base(b_in * s_in + scaled_in, (b_in + a) * s_in, wi);
        lemma_pow_base(0, (b_out - o) * s_out, wo);
        let small_out = pow((b_out - o) * s_out, wo);
        assert(pow((b_in + a) * s_in, wi) * small_out >= pow(b_in * s_in, wi) * pow(
            b_out * s_out,
            wo,
        )) by (nonlinear_arith)
            requires
                pow(b_in * s_in + scaled_in, wi) * small_out >= pow(b_in * s_in, wi) * pow(
                    b_out * s_out,
                    wo,
                ),
                pow((b_in + a) * s_in, wi) >= pow(b_in * s_in + scaled_in, wi),
                small_out >= 0,
        {
            assert(pow((b_in + a) * s_in, wi) * small_out >= pow(b_in * s_in + scaled_in, wi)
                * small_out);
        }
        lemma_scalars_cancel(b_in + a, b_out - o, b_in, b_out, s_in, s_out, wi, wo);
    }

    /// Where two tokens change their reserves and the weighted product of
    /// the two is no smaller than it was, the weighted invariant of the pool
    /// is no smaller than it was.
    pub proof fn lemma_weighted_to_invariant(
        self,
        token_in: Address,
        token_out: Address,
        swap: SwapView,
    )
        requires
            self.wf(),
            self.is_bound(token_in),
            self.is_bound(token_out),
            token_in != token_out,
            swap.record_in == (Record {
                balance: swap.record_in.balance,
                ..self.record(token_in)
            }),
            swap.record_out == (Record {
                balance: swap.record_out.balance,
                ..self.record(token_out)
            }),
            weighted_product(
                swap.record_in.balance as int,
                self.record(token_in).weight as int,
                swap.record_out.balance as int,
                self.record(token_out).weight as int,
            ) >= weighted_product(
                self.record(token_in).balance as int,
                self.record(token_in).weight as int,
                self.record(token_out).balance as int,
                self.record(token_out).weight as int,
            ),
        ensures
            invariant_of(self.swapped(token_in, token_out, Ok(swap))->Ok_0.records) >= invariant_of(
                self.records,
            ),
    {
        let i = self.tokens.index_of(token_in);
        let j = self.tokens.index_of(token_out);
        Pool::lemma_record_at(self, i);
        Pool::lemma_record_at(self, j);
        assert(self.tokens[i] == token_in && self.tokens[j] == token_out);
        let rin = self.records[i];
        let rout = self.records[j];
        let first = self.records.update(i, swap.record_in);
        let second = first.update(j, swap.record_out);
        lemma_invariant_update(self.records, i, swap.record_in);
        lemma_invariant_update(first, j, swap.record_out);
        assert forall|k: int| 0 <= k < self.records.len() implies self.records[k].balance
            >= 1 by {
            assert(record_wf(self.records[k], k));
        }
        lemma_invariant_positive(self.records);
        let p_in = pow(rin.balance as int, rin.weight as nat);
        let p_out = pow(rout.balance as int, rout.weight as nat);
        let q_in = pow(swap.record_in.balance as int, rin.weight as nat);
        let q_out = pow(swap.record_out.balance as int, rout.weight as nat);
        lemma_pow_positive(rin.balance as int, rin.weight as nat);
        lemma_pow_positive(rout.balance as int, rout.weight as nat);
        let before = invariant_of(self.records);
        let between = invariant_of(first);
        let after = invariant_of(second);
        assert(after >= before) by (nonlinear_arith)
            requires
                between * p_in == before * q_in,
                after * p_out == between * q_out,
                q_in * q_out >= p_in * p_out,
                p_in > 0,
                p_out > 0,
                before > 0,
        {
            assert(after * p_out * p_in == between * q_out * p_in);
            assert(between * p_in * q_out == before * q_in * q_out);
            assert(after * (p_in * p_out) == before * (q_in * q_out));
            assert(before * (q_in * q_out) >= before * (p_in * p_out));
            assert(p_in * p_out > 0);
        }
    }

    /// Where the exponent of the power is whole, the power holds: for
    /// `swap_exact_amount_in` where the weight of the token coming in is `k`
    /// times that of the token going out, for `swap_exact_amount_out` where
    /// the weight of the token going out is `k` times that of the token
    /// coming in.
    pub proof fn lemma_whole_ratio(
        self,
        token_in: Address,
        amount_in: i128,
        token_out: Address,
        amount_out: i128,
        limit: i128,
        max_price: i128,
        k: nat,
    )
        requires
            self.wf(),
            k >= 1,
        ensures
            self.record(token_in).weight == k * self.record(token_out).weight && self.swap_in_quote(
                token_in,
                amount_in,
                token_out,
                limit,
                max_price,
            ) is Ok ==> self.power_holds_in(token_in, amount_in, token_out),
            self.record(token_out).weight == k * self.record(token_in).weight
                && self.swap_out_quote(token_in, limit, token_out, amount_out, max_price) is Ok
                ==> self.power_holds_out(token_in, token_out, amount_out),
    {
        let rin = self.record(token_in);
        let rout = self.record(token_out);
        if rin.weight == k * rout.weight && self.swap_in_quote(
            token_in,
            amount_in,
            token_out,
            limit,
            max_price,
        ) is Ok {
            self.lemma_records(token_in, token_out);
            let base = out_given_in_base(
                rin.balance * rin.scalar,
                amount_in * rin.scalar,
                self.swap_fee as int,
            );
            lemma_whole_exponent(k, rin.weight as int, rout.weight as int);
            lemma_whole_power(base, k, rin.weight as int, rout.weight as int);
        }
        if rout.weight == k * rin.weight && self.swap_out_quote(
            token_in,
            limit,
            token_out,
            amount_out,
            max_price,
        ) is Ok {
            self.lemma_records(token_in, token_out);
            let base = in_given_out_base(rout.balance * rout.scalar, amount_out * rout.scalar);
            lemma_whole_exponent(k, rout.weight as int, rin.weight as int);
            lemma_whole_power(base, k, rout.weight as int, rin.weight as int);
        }
    }

    /// Wherever the power holds, the weighted invariant of the pool, the
    /// product of the reserves each to the power of its weight, is no
    /// smaller after `swap_exact_amount_in` than before it.
    pub proof fn law_swap_in_invariant(
        self,
        token_in: Address,
        amount_in: i128,
        token_out: Address,
        min_amount_out: i128,
        max_price: i128,
    )
        requires
            self.wf(),
            self.swap_in_quote(token_in, amount_in, token_out, min_amount_out, max_price) is Ok,
            self.power_holds_in(token_in, amount_in, token_out),
        ensures
            invariant_of(
                self.swapped(
                    token_in,
                    token_out,
                    self.swap_in_quote(token_in, amount_in, token_out, min_amount_out, max_price),
                )->Ok_0.records,
            ) >= invariant_of(self.records),
    {
        self.lemma_swap_in_weighted(token_in, amount_in, token_out, min_amount_out, max_price);
        let swap = self.swap_in_quote(token_in, amount_in, token_out, min_amount_out, max_price)->Ok_0;
        self.lemma_weighted_to_invariant(token_in, token_out, swap);
    }

    /// Wherever the power holds, the weighted invariant of the pool, the
    /// product of the reserves each to the power of its weight, is no
    /// smaller after `swap_exact_amount_out` than before it.
    pub proof fn law_swap_out_invariant(
        self,
        token_in: Address,
        max_amount_in: i128,
        token_out: Address,
        amount_out: i128,
        max_price: i128,
    )
        requires
            self.wf(),
            self.swap_out_quote(token_in, max_amount_in, token_out, amount_out, max_price) is Ok,
            self.power_holds_out(token_in, token_out, amount_out),
        ensures
            invariant_of(
                self.swapped(
                    token_in,
                    token_out,
                    self.swap_out_quote(token_in, max_amount_in, token_out, amount_out, max_price),
                )->Ok_0.records,
            ) >= invariant_of(self.records),
    {
        self.lemma_swap_out_weighted(token_in, max_amount_in, token_out, amount_out, max_price);
        let swap = self.swap_out_quote(
            token_in,
            max_amount_in,
            token_out,
            amount_out,
            max_price,
        )->Ok_0;
        self.lemma_weighted_to_invariant(token_in, token_out, swap);
    }

    /// Wherever the power holds on the way there and on the way back, a
    /// trader who swaps `amount` of one token in and at once swaps the same
    /// `amount` of it out again pays for the way back at least what the way
    /// there gave.
    pub proof fn law_no_arbitrage(
        self,
        token: Address,
        amount: i128,
        other: Address,
        min_amount_out: i128,
        max_amount_in: i128,
        max_price_there: i128,
        max_price_back: i128,
    )
        requires
            self.wf(),
            self.swap_in_quote(token, amount, other, min_amount_out, max_price_there) is Ok,
            self.power_holds_in(token, amount, other),
            self.swapped(
                token,
                other,
                self.swap_in_quote(token, amount, other, min_amount_out, max_price_there),
            )->Ok_0.swap_out_quote(other, max_amount_in, token, amount, max_price_back) is Ok,
            self.swapped(
                token,
                other,
                self.swap_in_quote(token, amount, other, min_amount_out, max_price_there),
            )->Ok_0.power_holds_out(other, token, amount),
        ensures
            ({
                let there = self.swap_in_quote(
                    token,
                    amount,
                    other,
                    min_amount_out,
                    max_price_there,
                )->Ok_0;
                let between = self.swapped(token, other, Ok(there))->Ok_0;
                let back = between.swap_out_quote(
                    other,
                    max_amount_in,
                    token,
                    amount,
                    max_price_back,
                )->Ok_0;
                back.amount_in >= there.amount_out
            }),
    {
        let there = self.swap_in_quote(token, amount, other, min_amount_out, max_price_there)->Ok_0;
        let between = self.swapped(token, other, Ok(there))->Ok_0;
        self.lemma_swap_in_weighted(token, amount, other, min_amount_out, max_price_there);
        self.lemma_records(token, other);
        self.lemma_swapped(token, other, there);
        between.lemma_swap_out_weighted(other, max_amount_in, token, amount, max_price_back);
        let back = between.swap_out_quote(other, max_amount_in, token, amount, max_price_back)->Ok_0;
        let x = self.record(token).balance as int;
        let y = self.record(other).balance as int;
        let wx = self.record(token).weight as nat;
        let wy = self.record(other).weight as nat;
        let got = there.amount_out;
        let paid = back.amount_in;
        assert(back.record_in.balance == y - got + paid);
        assert(back.record_out.balance == x);
        // x^wx * (y - got + paid)^wy >= (x + amount)^wx * (y - got)^wy >= x^wx * y^wy
        lemma_pow_positive(x, wx);
        assert(pow(y - got + paid, wy) >= pow(y, wy)) by (nonlinear_arith)
            requires
                pow(y - got + paid, wy) * pow(x, wx) >= pow(y - got, wy) * pow(x + amount, wx),
                pow(x + amount, wx) * pow(y - got, wy) >= pow(x, wx) * pow(y, wy),
                pow(x, wx) > 0,
        {
            assert(pow(y - got + paid, wy) * pow(x, wx) >= pow(y, wy) * pow(x, wx));
        }
        if paid < got {
            lemma_pow_strict(y - got + paid, y, wy);
        }
    }

    /// Between two tokens whose weights are in a whole ratio the weighted
    /// invariant of the pool is no smaller after a swap than before it:
    /// after `swap_exact_amount_in` where the weight of the token coming in
    /// is `k` times that of the token going out, after
    /// `swap_exact_amount_out` where the weight of the token going out is
    /// `k` times that of the token coming in. Tokens of one weight are the
    /// case of `k = 1`.
    pub proof fn law_whole_ratio_invariant(
        self,
        token_in: Address,
        amount_in: i128,
        token_out: Address,
        amount_out: i128,
        limit: i128,
        max_price: i128,
        k: nat,
    )
        requires
            self.wf(),
            k >= 1,
        ensures
            self.record(token_in).weight == k * self.record(token_out).weight && self.swap_in_quote(
                token_in,
                amount_in,
                token_out,
                limit,
                max_price,
            ) is Ok ==> invariant_of(
                self.swapped(
                    token_in,
                    token_out,
                    self.swap_in_quote(token_in, amount_in, token_out, limit, max_price),
                )->Ok_0.records,
            ) >= invariant_of(self.records),
            self.record(token_out).weight == k * self.record(token_in).weight
                && self.swap_out_quote(token_in, limit, token_out, amount_out, max_price) is Ok
                ==> invariant_of(
                self.swapped(
                    token_in,
                    token_out,
                    self.swap_out_quote(token_in, limit, token_out, amount_out, max_price),
                )->Ok_0.records,
            ) >= invariant_of(self.records),
    {
        self.lemma_whole_ratio(token_in, amount_in, token_out, amount_out, limit, max_price, k);
        if self.record(token_in).weight == k * self.record(token_out).weight && self.swap_in_quote(
            token_in,
            amount_in,
            token_out,
            limit,
            max_price,
        ) is Ok {
            self.law_swap_in_invariant(token_in, amount_in, token_out, limit, max_price);
        }
        if self.record(token_out).weight == k * self.record(token_in).weight
            && self.swap_out_quote(token_in, limit, token_out, amount_out, max_price) is Ok {
            self.law_swap_out_invariant(token_in, limit, token_out, amount_out, max_price);
        }
    }

    /// Where the weight of a token is `k` times that of another, a trader
    /// who swaps `amount` of the token in for the other and at once swaps
    /// the same `amount` of it out again pays for the way back at least what
    /// the way there gave. Tokens of one weight are the case of `k = 1`.
    pub proof fn law_whole_ratio_no_arbitrage(
        self,
        token: Address,
        amount: i128,
        other: Address,
        min_amount_out: i128,
        max_amount_in: i128,
        max_price_there: i128,
        max_price_back: i128,
        k: nat,
    )
        requires
            self.wf(),
            k >= 1,
            self.record(token).weight == k * self.record(other).weight,
            self.swap_in_quote(token, amount, other, min_amount_out, max_price_there) is Ok,
            self.swapped(
                token,
                other,
                self.swap_in_quote(token, amount, other, min_amount_out, max_price_there),
            )->Ok_0.swap_out_quote(other, max_amount_in, token, amount, max_price_back) is Ok,
        ensures
            ({
                let there = self.swap_in_quote(
                    token,
                    amount,
                    other,
                    min_amount_out,
                    max_price_there,
                )->Ok_0;
                let between = self.swapped(token, other, Ok(there))->Ok_0;
                let back = between.swap_out_quote(
                    other,
                    max_amount_in,
                    token,
                    amount,
                    max_price_back,
                )->Ok_0;
                back.amount_in >= there.amount_out
            }),
    {
        let there = self.swap_in_quote(token, amount, other, min_amount_out, max_price_there)->Ok_0;
        let between = self.swapped(token, other, Ok(there))->Ok_0;
        self.lemma_whole_ratio(token, amount, other, 0, min_amount_out, max_price_there, k);
        self.lemma_swap_in_weighted(token, amount, other, min_amount_out, max_price_there);
        self.lemma_records(token, other);
        self.lemma_swapped(token, other, there);
        between.lemma_whole_ratio(other, 0, token, amount, max_amount_in, max_price_back, k);
        self.law_no_arbitrage(
            token,
            amount,
            other,
            min_amount_out,
            max_amount_in,
            max_price_there,
            max_price_back,
        );
    }
}

} // verus!
