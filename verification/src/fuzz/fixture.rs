use vstd::prelude::*;
use crate::address::Address;
use crate::address::AddressKind;
use crate::c_consts::MAX_TOTAL_WEIGHT;
use crate::c_consts::MIN_BALANCE;
use crate::c_pool::bounds::fee_in_bounds;
use crate::c_pool::bounds::weight_in_bounds;
use crate::c_pool::error::Error;
use crate::c_pool::pool::Pool;
use crate::c_pool::pool::PoolView;
use crate::fuzz::PoolToken;

verus! {

/// Ledgers in a day.
pub const ONE_DAY_LEDGERS: u32 = 17280;

/// Seconds between two ledgers.
pub const SECONDS_PER_LEDGER: u64 = 5;

/// What a fixture knows of the ledger it runs on.
#[derive(Clone, Copy, Debug, PartialEq, Eq, Structural)]
pub struct LedgerInfo {
    pub timestamp: u64,
    pub protocol_version: u32,
    pub sequence_number: u32,
    pub base_reserve: u32,
    pub min_temp_entry_ttl: u32,
    pub min_persistent_entry_ttl: u32,
    pub max_entry_ttl: u32,
}

/// A finalized pool of two tokens, with the identities around it.
pub struct TestFixture {
    pub ledger: LedgerInfo,
    /// The controller of the pool.
    pub bombadil: Address,
    /// The second user.
    pub samwise: Address,
    /// The first user.
    pub frodo: Address,
    pub token_1: Address,
    pub token_2: Address,
    pub pool: Pool,
}

/// The ledger that a new fixture starts on.
pub open spec fn first_ledger() -> LedgerInfo {
    LedgerInfo {
        timestamp: 1441065600,
        protocol_version: 20,
        sequence_number: 100,
        base_reserve: 10,
        min_temp_entry_ttl: (30 * ONE_DAY_LEDGERS) as u32,
        min_persistent_entry_ttl: (120 * ONE_DAY_LEDGERS) as u32,
        max_entry_ttl: (365 * ONE_DAY_LEDGERS) as u32,
    }
}

/// The sum `a + b`, or the largest value where the sum is above it.
pub open spec fn saturated(a: int, b: int, max: int) -> int {
    if a + b > max {
        max
    } else {
        a + b
    }
}

/// The ledger `ledgers` ledgers after `ledger`.
pub open spec fn later_ledger(ledger: LedgerInfo, ledgers: u32) -> LedgerInfo {
    LedgerInfo {
        timestamp: saturated(
            ledger.timestamp as int,
            ledgers * SECONDS_PER_LEDGER,
            u64::MAX as int,
        ) as u64,
        protocol_version: 20,
        sequence_number: saturated(ledger.sequence_number as int, ledgers as int, u32::MAX as int)
            as u32,
        base_reserve: 10,
        min_temp_entry_ttl: (50 * ONE_DAY_LEDGERS) as u32,
        min_persistent_entry_ttl: (50 * ONE_DAY_LEDGERS) as u32,
        max_entry_ttl: (365 * ONE_DAY_LEDGERS) as u32,
    }
}

/// The controller of every fixture.
pub open spec fn bombadil_spec() -> Address {
    Address { kind: AddressKind::Account, hi: 0, lo: 1 }
}

/// The first token of every fixture.
pub open spec fn token_1_spec() -> Address {
    Address { kind: AddressKind::Contract, hi: 0, lo: 1 }
}

/// The second token of every fixture.
pub open spec fn token_2_spec() -> Address {
    Address { kind: AddressKind::Contract, hi: 0, lo: 2 }
}

/// The pool that `create` makes: a new pool, initialized by the controller,
/// with the two tokens bound in one bundle, the fee set, and finalized.
pub open spec fn created_pool(
    weight_1: i128,
    weight_2: i128,
    balance_1: i128,
    balance_2: i128,
    swap_fee: i128,
) -> Result<PoolView, Error> {
    let fresh = PoolView {
        factory: None,
        controller: None,
        swap_fee: crate::c_consts::MIN_FEE,
        total_weight: 0,
        tokens: Seq::empty(),
        records: Seq::empty(),
        total_shares: 0,
        shares: Map::empty(),
        public_swap: false,
        finalized: false,
        frozen: false,
    };
    match fresh.init_spec(bombadil_spec(), bombadil_spec()) {
        Err(e) => Err(e),
        Ok(initialized) => match initialized.bundle_bind_spec(
            seq![token_1_spec(), token_2_spec()],
            seq![balance_1, balance_2],
            seq![weight_1, weight_2],
            seq![7u32, 7u32],
            bombadil_spec(),
        ) {
            Err(e) => Err(e),
            Ok(bound) => match bound.set_swap_fee_spec(swap_fee, bombadil_spec()) {
                Err(e) => Err(e),
                Ok(priced) => priced.finalize_spec(bombadil_spec()),
            },
        },
    }
}

/// Whether `create` makes a pool of these weights, reserves and fee.
pub open spec fn creatable(
    weight_1: i128,
    weight_2: i128,
    balance_1: i128,
    balance_2: i128,
    swap_fee: i128,
) -> bool {
    &&& weight_in_bounds(weight_1 as int)
    &&& weight_in_bounds(weight_2 as int)
    &&& weight_1 + weight_2 <= MAX_TOTAL_WEIGHT
    &&& balance_1 >= MIN_BALANCE
    &&& balance_2 >= MIN_BALANCE
    &&& fee_in_bounds(swap_fee as int)
}

/// `create` makes a pool exactly of weights and a fee in their bounds and of
/// reserves that are not below the minimum.
pub proof fn lemma_created(
    weight_1: i128,
    weight_2: i128,
    balance_1: i128,
    balance_2: i128,
    swap_fee: i128,
)
    ensures
        created_pool(weight_1, weight_2, balance_1, balance_2, swap_fee) is Ok <==> creatable(
            weight_1,
            weight_2,
            balance_1,
            balance_2,
            swap_fee,
        ),
        created_pool(weight_1, weight_2, balance_1, balance_2, swap_fee) matches Ok(pool)
            ==> pool.may_trade() is Ok && pool.tokens == seq![token_1_spec(), token_2_spec()]
            && pool.records.len() == 2 && pool.records[0].balance == balance_1
            && pool.records[0].weight == weight_1 && pool.records[1].balance == balance_2
            && pool.records[1].weight == weight_2 && pool.swap_fee == swap_fee,
{
    reveal_with_fuel(PoolView::bundle_spec, 3);
    crate::c_pool::bounds::lemma_scalars();
    let tokens = seq![token_1_spec(), token_2_spec()];
    assert(tokens.len() == 2 && tokens[0] == token_1_spec() && tokens[1] == token_2_spec());
    assert(!Seq::<Address>::empty().contains(token_1_spec()));
    let one = Seq::<Address>::empty().push(token_1_spec());
    assert(!one.contains(token_2_spec())) by {
        if one.contains(token_2_spec()) {
            let i = one.index_of(token_2_spec());
            assert(one[i] == token_2_spec());
        }
    }
    if created_pool(weight_1, weight_2, balance_1, balance_2, swap_fee) is Ok {
        let pool = created_pool(weight_1, weight_2, balance_1, balance_2, swap_fee)->Ok_0;
        assert(pool.tokens =~= seq![token_1_spec(), token_2_spec()]);
    }
}

impl LedgerInfo {
    /// The ledger `ledgers` ledgers after this one: the time and the
    /// sequence number move on and stop at their largest values.
    pub fn later(&self, ledgers: u32) -> (ledger: LedgerInfo)
        ensures
            ledger == later_ledger(*self, ledgers),
    {
        let seconds: u64 = (ledgers as u64) * SECONDS_PER_LEDGER;
        LedgerInfo {
            timestamp: self.timestamp.saturating_add(seconds),
            protocol_version: 20,
            sequence_number: self.sequence_number.saturating_add(ledgers),
            base_reserve: 10,
            min_temp_entry_ttl: 50 * ONE_DAY_LEDGERS,
            min_persistent_entry_ttl: 50 * ONE_DAY_LEDGERS,
            max_entry_ttl: 365 * ONE_DAY_LEDGERS,
        }
    }
}

impl TestFixture {
    /// The address of a token of the pool.
    pub open spec fn token(&self, token: PoolToken) -> Address {
        match token {
            PoolToken::ONE => self.token_1,
            PoolToken::TWO => self.token_2,
        }
    }

    /// The pool is well-formed and holds the two tokens of the fixture.
    pub open spec fn wf(&self) -> bool {
        &&& self.pool.wf()
        &&& self.token_1 != self.token_2
        &&& self.pool@.is_bound(self.token_1)
        &&& self.pool@.is_bound(self.token_2)
    }

    /// Whether the identities and the ledger of the two fixtures are the
    /// same.
    pub open spec fn same_setting(&self, other: TestFixture) -> bool {
        &&& self.ledger == other.ledger
        &&& self.bombadil == other.bombadil
        &&& self.samwise == other.samwise
        &&& self.frodo == other.frodo
        &&& self.token_1 == other.token_1
        &&& self.token_2 == other.token_2
    }

    /// The address of a token of the pool.
    pub fn address_of(&self, token: PoolToken) -> (a: Address)
        ensures
            a == self.token(token),
    {
        match token {
            PoolToken::ONE => self.token_1,
            PoolToken::TWO => self.token_2,
        }
    }

    /// The user with the given index: `frodo` is the first, `samwise` the
    /// second.
    pub fn user(&self, user_index: usize) -> (a: Address)
        requires
            user_index < 2,
        ensures
            a == if user_index == 0 {
                self.frodo
            } else {
                self.samwise
            },
    {
        if user_index == 0 {
            self.frodo
        } else {
            self.samwise
        }
    }

    /// A fixture with a pool of two tokens: the first with the weight
    /// `weight_1` and the reserve `balance_1`, the second with `weight_2` and
    /// `balance_2`, both with seven decimal places.
    ///
    /// Fails with the error of the first step of `created_pool` that fails.
    pub fn create(
        weight_1: i128,
        weight_2: i128,
        balance_1: i128,
        balance_2: i128,
        swap_fee: i128,
    ) -> (r: Result<TestFixture, Error>)
        ensures
            r is Ok <==> creatable(weight_1, weight_2, balance_1, balance_2, swap_fee),
            match r {
                Ok(fixture) => {
                    &&& fixture.wf()
                    &&& created_pool(weight_1, weight_2, balance_1, balance_2, swap_fee) == Ok::<
                        PoolView,
                        Error,
                    >(fixture.pool@)
                    &&& fixture.ledger == first_ledger()
                    &&& fixture.bombadil == bombadil_spec()
                    &&& fixture.token_1 == token_1_spec()
                    &&& fixture.token_2 == token_2_spec()
                },
                Err(e) => created_pool(weight_1, weight_2, balance_1, balance_2, swap_fee) == Err::<
                    PoolView,
                    Error,
                >(e),
            },
    {
        let bombadil = Address::account(0, 1);
        let samwise = Address::account(0, 2);
        let frodo = Address::account(0, 3);
        let token_1 = Address::contract(0, 1);
        let token_2 = Address::contract(0, 2);
        proof {
            lemma_created(weight_1, weight_2, balance_1, balance_2, swap_fee);
        }
        let mut pool = Pool::new();
        pool.init(bombadil, bombadil)?;
        let mut tokens: Vec<Address> = Vec::new();
        tokens.push(token_1);
        tokens.push(token_2);
        let mut balances: Vec<i128> = Vec::new();
        balances.push(balance_1);
        balances.push(balance_2);
        let mut weights: Vec<i128> = Vec::new();
        weights.push(weight_1);
        weights.push(weight_2);
        let mut decimals: Vec<u32> = Vec::new();
        decimals.push(7);
        decimals.push(7);
        proof {
            assert(tokens@ =~= seq![token_1_spec(), token_2_spec()]);
            assert(balances@ =~= seq![balance_1, balance_2]);
            assert(weights@ =~= seq![weight_1, weight_2]);
            assert(decimals@ =~= seq![7u32, 7u32]);
        }
        pool.bundle_bind(&tokens, &balances, &weights, &decimals, bombadil)?;
        pool.set_swap_fee(swap_fee, bombadil)?;
        pool.finalize(bombadil)?;
        proof {
            assert(pool@.tokens[0] == token_1 && pool@.tokens[1] == token_2);
        }
        Ok(
            TestFixture {
                ledger: LedgerInfo {
                    timestamp: 1441065600,
                    protocol_version: 20,
                    sequence_number: 100,
                    base_reserve: 10,
                    min_temp_entry_ttl: 30 * ONE_DAY_LEDGERS,
                    min_persistent_entry_ttl: 120 * ONE_DAY_LEDGERS,
                    max_entry_ttl: 365 * ONE_DAY_LEDGERS,
                },
                bombadil,
                samwise,
                frodo,
                token_1,
                token_2,
                pool,
            },
        )
    }

    /// Moves the ledger `ledgers` ledgers on, five seconds for each.
    pub fn jump(&mut self, ledgers: u32)
        ensures
            final(self).ledger == later_ledger(old(self).ledger, ledgers),
            final(self).pool == old(self).pool,
            final(self).bombadil == old(self).bombadil,
            final(self).samwise == old(self).samwise,
            final(self).frodo == old(self).frodo,
            final(self).token_1 == old(self).token_1,
            final(self).token_2 == old(self).token_2,
    {
        self.ledger = self.ledger.later(ledgers);
    }
}

} // verus!
