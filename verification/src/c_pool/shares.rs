use vstd::prelude::*;
use crate::address::Address;
use crate::address::position;
use crate::c_pool::sums::lemma_sum_bounds;
use crate::c_pool::sums::lemma_sum_push;
use crate::c_pool::sums::lemma_sum_update;
use crate::c_pool::sums::sum;

verus! {

/// Who holds how many pool shares. `amounts[i]` is what `holders[i]` holds.
pub struct ShareLedger {
    pub holders: Vec<Address>,
    pub amounts: Vec<i128>,
}

/// The amounts as mathematical integers.
pub open spec fn amounts_of(amounts: Seq<i128>) -> Seq<int> {
    Seq::new(amounts.len(), |i: int| amounts[i] as int)
}

impl View for ShareLedger {
    type V = Map<Address, int>;

    /// The holders with a positive balance, each with its balance.
    open spec fn view(&self) -> Map<Address, int> {
        Map::new(|h: Address| self.balance_of(h) > 0, |h: Address| self.balance_of(h))
    }
}

impl ShareLedger {
    /// No holder is listed twice and no amount is negative.
    pub open spec fn wf(&self) -> bool {
        &&& self.holders.len() == self.amounts.len()
        &&& self.holders@.no_duplicates()
        &&& forall|i: int| 0 <= i < self.amounts.len() ==> self.amounts[i] >= 0
    }

    /// The shares that `holder` holds: zero for one who is not listed.
    pub open spec fn balance_of(&self, holder: Address) -> int {
        if self.holders@.contains(holder) {
            self.amounts[self.holders@.index_of(holder)] as int
        } else {
            0
        }
    }

    /// All the shares there are.
    pub open spec fn total(&self) -> int {
        sum(amounts_of(self.amounts@))
    }

    /// In a well-formed ledger the holder at position `i` holds `amounts[i]`.
    pub proof fn lemma_balance_at(&self, i: int)
        requires
            self.wf(),
            0 <= i < self.holders.len(),
        ensures
            self.balance_of(self.holders[i]) == self.amounts[i],
            self.amounts[i] <= self.total(),
    {
        let h = self.holders[i];
        assert(self.holders@.contains(h));
        let j = self.holders@.index_of(h);
        assert(self.holders@[j] == h);
        assert(j == i);
        lemma_sum_bounds(amounts_of(self.amounts@), i);
    }

    /// No holder has less than nothing or more than there is.
    pub proof fn lemma_balance_bounds(&self, holder: Address)
        requires
            self.wf(),
        ensures
            0 <= self.balance_of(holder) <= self.total(),
    {
        if self.holders@.contains(holder) {
            let i = self.holders@.index_of(holder);
            self.lemma_balance_at(i);
        } else {
            crate::c_pool::sums::lemma_sum_nonnegative(amounts_of(self.amounts@));
        }
    }

    /// A ledger without holders: both lists are empty, so that nobody holds
    /// anything and there are no shares.
    pub fn new() -> (ledger: ShareLedger)
        ensures
            ledger.holders@ == Seq::<Address>::empty(),
            ledger.amounts@ == Seq::<i128>::empty(),
            ledger.wf(),
            ledger.total() == 0,
            forall|h: Address| ledger.balance_of(h) == 0,
            ledger@ == Map::<Address, int>::empty(),
    {
        let ledger = ShareLedger { holders: Vec::new(), amounts: Vec::new() };
        assert(ledger@ =~= Map::<Address, int>::empty());
        ledger
    }

    /// The shares that `holder` holds.
    pub fn balance(&self, holder: Address) -> (amount: i128)
        requires
            self.wf(),
        ensures
            amount == self.balance_of(holder),
            0 <= amount <= self.total(),
    {
        match position(&self.holders, holder) {
            Some(i) => {
                proof {
                    self.lemma_balance_at(i as int);
                }
                self.amounts[i]
            },
            None => {
                proof {
                    crate::c_pool::sums::lemma_sum_nonnegative(amounts_of(self.amounts@));
                }
                0
            },
        }
    }

    /// Credits `amount` new shares to `holder`.
    pub(crate) fn mint(&mut self, holder: Address, amount: i128)
        requires
            old(self).wf(),
            amount >= 0,
            old(self).total() + amount <= i128::MAX,
        ensures
            final(self).wf(),
            final(self).total() == old(self).total() + amount,
            forall|h: Address|
                final(self).balance_of(h) == old(self).balance_of(h) + if h == holder {
                    amount as int
                } else {
                    0
                },
    {
        let ghost before = *self;
        match position(&self.holders, holder) {
            Some(i) => {
                proof {
                    self.lemma_balance_at(i as int);
                    lemma_sum_update(
                        amounts_of(self.amounts@),
                        i as int,
                        self.amounts[i as int] + amount,
                    );
                }
                let updated: i128 = self.amounts[i] + amount;
                self.amounts.set(i, updated);
                proof {
                    assert(amounts_of(self.amounts@) =~= amounts_of(before.amounts@).update(
                        i as int,
                        updated as int,
                    ));
                    assert forall|h: Address|
                        self.balance_of(h) == before.balance_of(h) + if h == holder {
                            amount as int
                        } else {
                            0
                        } by {
                        if self.holders@.contains(h) {
                            let j = self.holders@.index_of(h);
                            assert(self.holders@[j] == h);
                            if h == holder {
                                assert(j == i);
                            }
                        }
                    }
                }
            },
            None => {
                proof {
                    lemma_sum_push(amounts_of(self.amounts@), amount as int);
                }
                self.holders.push(holder);
                self.amounts.push(amount);
                proof {
                    assert(amounts_of(self.amounts@) =~= amounts_of(before.amounts@).push(
                        amount as int,
                    ));
                    let n = before.holders.len() as int;
                    assert(self.holders@[n] == holder);
                    assert forall|h: Address|
                        self.balance_of(h) == before.balance_of(h) + if h == holder {
                            amount as int
                        } else {
                            0
                        } by {
                        if h == holder {
                            assert(self.holders@.contains(h));
                            let j = self.holders@.index_of(h);
                            assert(self.holders@[j] == h);
                            assert(j == n);
                        } else if before.holders@.contains(h) {
                            let k = before.holders@.index_of(h);
                            assert(self.holders@[k] == h);
                            assert(self.holders@.contains(h));
                            let j = self.holders@.index_of(h);
                            assert(self.holders@[j] == h);
                            assert(j == k);
                        } else {
                            if self.holders@.contains(h) {
                                let j = self.holders@.index_of(h);
                                assert(self.holders@[j] == h);
                                assert(before.holders@[j] == h);
                            }
                        }
                    }
                }
            },
        }
    }

    /// Takes `amount` shares from `holder`.
    pub(crate) fn burn(&mut self, holder: Address, amount: i128)
        requires
            old(self).wf(),
            0 <= amount <= old(self).balance_of(holder),
        ensures
            final(self).wf(),
            final(self).total() == old(self).total() - amount,
            forall|h: Address|
                final(self).balance_of(h) == old(self).balance_of(h) - if h == holder {
                    amount as int
                } else {
                    0
                },
    {
        let ghost before = *self;
        match position(&self.holders, holder) {
            Some(i) => {
                proof {
                    self.lemma_balance_at(i as int);
                    lemma_sum_update(
                        amounts_of(self.amounts@),
                        i as int,
                        self.amounts[i as int] - amount,
                    );
                }
                let updated: i128 = self.amounts[i] - amount;
                self.amounts.set(i, updated);
                proof {
                    assert(amounts_of(self.amounts@) =~= amounts_of(before.amounts@).update(
                        i as int,
                        updated as int,
                    ));
                    assert forall|h: Address|
                        self.balance_of(h) == before.balance_of(h) - if h == holder {
                            amount as int
                        } else {
                            0
                        } by {
                        if self.holders@.contains(h) {
                            let j = self.holders@.index_of(h);
                            assert(self.holders@[j] == h);
                            if h == holder {
                                assert(j == i);
                            }
                        }
                    }
                }
            },
            None => {},
        }
    }
}

} // verus!
