use vstd::prelude::*;
use crate::address::Address;
use crate::c_consts::MAX_BOUND_TOKENS;
use crate::c_consts::MAX_TOTAL_WEIGHT;
use crate::c_consts::MAX_WEIGHT;
use crate::c_consts::MIN_BALANCE;
use crate::c_consts::MIN_BOUND_TOKENS;
use crate::c_consts::MIN_WEIGHT;
use crate::c_pool::bounds::check_fee;
use crate::c_pool::bounds::lemma_scalars;
use crate::c_pool::bounds::scalar_spec;
use crate::c_pool::bounds::valid_scalar;
use crate::c_pool::pool::Pool;
use crate::c_pool::pool::record_wf;
use crate::c_pool::pool::weights_of;
use crate::c_pool::shares::ShareLedger;
use crate::c_pool::shares::amounts_of;
use crate::c_pool::storage_types::Record;
use crate::c_pool::sums::lemma_sum_nonnegative;
use crate::c_pool::sums::sum;

verus! {

/// Whether no address is twice in `list`.
pub fn distinct(list: &Vec<Address>) -> (b: bool)
    ensures
        b == list@.no_duplicates(),
{
    let mut i: usize = 0;
    while i < list.len()
        invariant
            i <= list.len(),
            forall|a: int, b: int| 0 <= a < b < i ==> list[a] != list[b],
        decreases list.len() - i,
    {
        let mut j: usize = 0;
        while j < i
            invariant
                j <= i,
                i < list.len(),
                forall|a: int| 0 <= a < j ==> list[a] != list[i as int],
            decreases i - j,
        {
            if list[j] == list[i] {
                return false;
            }
            j = j + 1;
        }
        i = i + 1;
    }
    true
}

/// Whether `scalar` is a power of ten up to the fixed-point scale.
pub fn is_scalar(scalar: i128) -> (b: bool)
    ensures
        b == valid_scalar(scalar as int),
{
    proof {
        lemma_scalars();
        if valid_scalar(scalar as int) {
            let d = choose|d: int| 0 <= d <= 7 && scalar == #[trigger] scalar_spec(d);
            assert(d == 0 || d == 1 || d == 2 || d == 3 || d == 4 || d == 5 || d == 6 || d == 7);
        }
        assert(scalar == 1 ==> scalar == scalar_spec(7));
        assert(scalar == 10 ==> scalar == scalar_spec(6));
        assert(scalar == 100 ==> scalar == scalar_spec(5));
        assert(scalar == 1_000 ==> scalar == scalar_spec(4));
        assert(scalar == 10_000 ==> scalar == scalar_spec(3));
        assert(scalar == 100_000 ==> scalar == scalar_spec(2));
        assert(scalar == 1_000_000 ==> scalar == scalar_spec(1));
        assert(scalar == 10_000_000 ==> scalar == scalar_spec(0));
    }
    scalar == 1 || scalar == 10 || scalar == 100 || scalar == 1_000 || scalar == 10_000 || scalar
        == 100_000 || scalar == 1_000_000 || scalar == 10_000_000
}

/// Whether `record` can be the record at position `i` of a pool.
pub fn is_record(record: &Record, i: usize) -> (b: bool)
    ensures
        b == record_wf(*record, i as int),
{
    record.index as usize == i && record.balance >= MIN_BALANCE && record.weight >= MIN_WEIGHT
        && record.weight <= MAX_WEIGHT && is_scalar(record.scalar)
}

/// The sum of a prefix of amounts that are not negative is not above the sum
/// of them all.
pub proof fn lemma_sum_prefix(s: Seq<int>, i: int)
    requires
        0 <= i <= s.len(),
        forall|j: int| 0 <= j < s.len() ==> s[j] >= 0,
    ensures
        0 <= sum(s.take(i)) <= sum(s),
    decreases s.len(),
{
    lemma_sum_nonnegative(s.take(i));
    if i < s.len() {
        lemma_sum_prefix(s.drop_last(), i);
        assert(s.drop_last().take(i) =~= s.take(i));
        lemma_sum_nonnegative(s.drop_last());
    } else {
        assert(s.take(i) =~= s);
    }
}

impl ShareLedger {
    /// Whether the ledger is well-formed.
    pub fn is_wf(&self) -> (b: bool)
        ensures
            b == self.wf(),
    {
        if self.holders.len() != self.amounts.len() || !distinct(&self.holders) {
            return false;
        }
        let mut i: usize = 0;
        while i < self.amounts.len()
            invariant
                i <= self.amounts.len(),
                forall|j: int| 0 <= j < i ==> self.amounts[j] >= 0,
            decreases self.amounts.len() - i,
        {
            if self.amounts[i] < 0 {
                return false;
            }
            i = i + 1;
        }
        true
    }

    /// All the shares there are, or nothing where they are more than a
    /// signed 128-bit value holds.
    pub fn supply(&self) -> (r: Option<i128>)
        requires
            self.wf(),
        ensures
            match r {
                Some(total) => total == self.total(),
                None => self.total() > i128::MAX,
            },
    {
        let ghost all = amounts_of(self.amounts@);
        let mut total: i128 = 0;
        let mut i: usize = 0;
        while i < self.amounts.len()
            invariant
                i <= self.amounts.len(),
                self.wf(),
                all == amounts_of(self.amounts@),
                total == sum(all.take(i as int)),
                total >= 0,
            decreases self.amounts.len() - i,
        {
            proof {
                assert(all.take(i as int + 1).drop_last() =~= all.take(i as int));
                lemma_sum_prefix(all, i as int + 1);
            }
            match total.checked_add(self.amounts[i]) {
                Some(v) => {
                    total = v;
                },
                None => {
                    return None;
                },
            }
            i = i + 1;
        }
        proof {
            assert(all.take(i as int) =~= all);
        }
        Some(total)
    }
}

impl Pool {
    /// Whether the pool is well-formed: what a caller who has put the state
    /// together by hand tests before an operation.
    pub fn is_wf(&self) -> (b: bool)
        ensures
            b == self.wf(),
    {
        let n: usize = self.token_list.len();
        if self.records.len() != n || n > MAX_BOUND_TOKENS || !distinct(&self.token_list) {
            return false;
        }
        let mut total: i128 = 0;
        let mut i: usize = 0;
        while i < n
            invariant
                i <= n,
                n == self.records.len(),
                n <= MAX_BOUND_TOKENS,
                forall|k: int| 0 <= k < i ==> record_wf(#[trigger] self.records[k], k),
                total == sum(weights_of(self.records@).take(i as int)),
                0 <= total <= i * MAX_WEIGHT,
            decreases n - i,
        {
            if !is_record(&self.records[i], i) {
                return false;
            }
            proof {
                let all = weights_of(self.records@);
                assert(all.take(i as int + 1).drop_last() =~= all.take(i as int));
            }
            total = total + self.records[i].weight;
            i = i + 1;
        }
        proof {
            let all = weights_of(self.records@);
            assert(all.take(n as int) =~= all);
        }
        if total != self.total_weight || total > MAX_TOTAL_WEIGHT {
            return false;
        }
        if check_fee(self.swap_fee).is_err() {
            return false;
        }
        if self.controller.is_none() && (n != 0 || self.finalized || self.frozen
            || self.factory.is_some()) {
            return false;
        }
        if self.finalized && (self.controller.is_none() || n < MIN_BOUND_TOKENS || self.total_shares
            <= 0) {
            return false;
        }
        if !self.finalized && (self.total_shares != 0 || self.public_swap) {
            return false;
        }
        if !self.shares.is_wf() {
            return false;
        }
        match self.shares.supply() {
            Some(total) => total == self.total_shares,
            None => false,
        }
    }
}

} // verus!
