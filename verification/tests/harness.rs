use comet::address::Address;
use comet::c_consts::BONE;
use comet::c_pool::error::Error;
use comet::c_pool::swap::Swap;
use comet::fuzz::fixture::LedgerInfo;
use comet::fuzz::fixture::TestFixture;
use comet::fuzz::fixture::ONE_DAY_LEDGERS;
use comet::fuzz::LargeI128;
use comet::fuzz::NatI128;
use comet::fuzz::PoolToken;
use comet::fuzz::SwapExactIn;
use comet::fuzz::SwapExactOut;
use comet::test_token::storage_types::DataKey;

fn fixture() -> TestFixture {
    TestFixture::create(8_000_000, 2_000_000, 50 * BONE, 20 * BONE, 30_000).unwrap()
}

fn calc_invariant(fixture: &TestFixture) -> f64 {
    let token_1_balance = fixture.pool.get_balance(fixture.token_1).unwrap();
    let token_2_balance = fixture.pool.get_balance(fixture.token_2).unwrap();
    let token_1_weight = fixture.pool.get_normalized_weight(fixture.token_1).unwrap();
    let token_2_weight = fixture.pool.get_normalized_weight(fixture.token_2).unwrap();
    let t1_b = token_1_balance as f64 / 1e7;
    let t2_b = token_2_balance as f64 / 1e7;
    let t1_w = token_1_weight as f64 / 1e7;
    let t2_w = token_2_weight as f64 / 1e7;
    t1_b.powf(t1_w) * t2_b.powf(t2_w)
}

#[test]
fn amounts_stay_in_their_ranges() {
    assert_eq!(NatI128::new(0), Some(NatI128(0)));
    assert_eq!(NatI128::new(u32::MAX as i128), Some(NatI128(4_294_967_295)));
    assert_eq!(NatI128::new(u32::MAX as i128 + 1), None);
    assert_eq!(NatI128::new(-1), None);
    assert_eq!(LargeI128::new(100_000_000), Some(LargeI128(100_000_000)));
    assert_eq!(LargeI128::new(99_999_999), None);
    assert_eq!(LargeI128::new(i64::MAX as i128), Some(LargeI128(i64::MAX as i128)));
    assert_eq!(LargeI128::new(i64::MAX as i128 + 1), None);
    assert_eq!(PoolToken::ONE.other(), PoolToken::TWO);
    assert_eq!(PoolToken::TWO.other(), PoolToken::ONE);
}

#[test]
fn create_makes_a_trading_pool_of_two_tokens() {
    let fixture = fixture();
    assert!(fixture.pool.is_wf());
    assert!(fixture.pool.is_finalized());
    assert!(fixture.pool.is_public_swap());
    assert_eq!(fixture.pool.get_controller(), Some(fixture.bombadil));
    assert_eq!(fixture.pool.get_tokens(), vec![fixture.token_1, fixture.token_2]);
    assert_eq!(fixture.pool.get_balance(fixture.token_1), Ok(50 * BONE));
    assert_eq!(fixture.pool.get_balance(fixture.token_2), Ok(20 * BONE));
    assert_eq!(fixture.pool.get_normalized_weight(fixture.token_1), Ok(8_000_000));
    assert_eq!(fixture.pool.get_normalized_weight(fixture.token_2), Ok(2_000_000));
    assert_eq!(fixture.pool.get_swap_fee(), 30_000);
    assert_eq!(fixture.pool.balance(fixture.bombadil), 100 * BONE);
    assert_eq!(fixture.bombadil, Address::account(0, 1));
    assert_eq!(fixture.address_of(PoolToken::ONE), fixture.token_1);
    assert_eq!(fixture.address_of(PoolToken::TWO), fixture.token_2);
    assert_eq!(fixture.user(0), fixture.frodo);
    assert_eq!(fixture.user(1), fixture.samwise);
    assert_eq!(
        fixture.ledger,
        LedgerInfo {
            timestamp: 1441065600,
            protocol_version: 20,
            sequence_number: 100,
            base_reserve: 10,
            min_temp_entry_ttl: 30 * ONE_DAY_LEDGERS,
            min_persistent_entry_ttl: 120 * ONE_DAY_LEDGERS,
            max_entry_ttl: 365 * ONE_DAY_LEDGERS,
        }
    );
    let key = DataKey::Balance(fixture.frodo);
    assert_eq!(key, DataKey::Balance(Address::account(0, 3)));
}

#[test]
fn create_refuses_what_the_pool_refuses() {
    assert_eq!(
        TestFixture::create(0, 2_000_000, 50 * BONE, 20 * BONE, 30_000).err(),
        Some(Error::OutOfBounds)
    );
    assert_eq!(
        TestFixture::create(8_000_000, 600_000_000, 50 * BONE, 20 * BONE, 30_000).err(),
        Some(Error::OutOfBounds)
    );
    assert_eq!(
        TestFixture::create(400_000_000, 400_000_000, 50 * BONE, 20 * BONE, 30_000).err(),
        Some(Error::OutOfBounds)
    );
    assert_eq!(
        TestFixture::create(8_000_000, 2_000_000, 0, 20 * BONE, 30_000).err(),
        Some(Error::InsufficientLiquidity)
    );
    assert_eq!(
        TestFixture::create(8_000_000, 2_000_000, 50 * BONE, -1, 30_000).err(),
        Some(Error::InsufficientLiquidity)
    );
    assert_eq!(
        TestFixture::create(8_000_000, 2_000_000, 50 * BONE, 20 * BONE, 0).err(),
        Some(Error::OutOfBounds)
    );
    assert!(TestFixture::create(8_000_000, 2_000_000, 1, 1, 10).is_ok());
}

#[test]
fn jump_moves_the_ledger_on() {
    let mut fixture = fixture();
    fixture.jump(10);
    assert_eq!(fixture.ledger.timestamp, 1441065650);
    assert_eq!(fixture.ledger.sequence_number, 110);
    assert_eq!(fixture.ledger.protocol_version, 20);
    assert_eq!(fixture.ledger.base_reserve, 10);
    assert_eq!(fixture.ledger.min_temp_entry_ttl, 50 * ONE_DAY_LEDGERS);
    assert_eq!(fixture.ledger.min_persistent_entry_ttl, 50 * ONE_DAY_LEDGERS);
    assert_eq!(fixture.ledger.max_entry_ttl, 365 * ONE_DAY_LEDGERS);
    fixture.jump(u32::MAX);
    assert_eq!(fixture.ledger.timestamp, 1441065650 + 5 * 4_294_967_295);
    assert_eq!(fixture.ledger.sequence_number, u32::MAX);
    fixture.ledger.timestamp = u64::MAX - 4;
    fixture.jump(1);
    assert_eq!(fixture.ledger.timestamp, u64::MAX);
    let start = LedgerInfo {
        timestamp: 7,
        protocol_version: 1,
        sequence_number: 3,
        base_reserve: 0,
        min_temp_entry_ttl: 0,
        min_persistent_entry_ttl: 0,
        max_entry_ttl: 0,
    };
    assert_eq!(
        start.later(2),
        LedgerInfo {
            timestamp: 17,
            protocol_version: 20,
            sequence_number: 5,
            base_reserve: 10,
            min_temp_entry_ttl: 50 * ONE_DAY_LEDGERS,
            min_persistent_entry_ttl: 50 * ONE_DAY_LEDGERS,
            max_entry_ttl: 365 * ONE_DAY_LEDGERS,
        }
    );
    assert_eq!(fixture.pool.get_balance(fixture.token_1), Ok(50 * BONE));
}

#[test]
fn run_swaps_on_the_pool_of_the_fixture() {
    let mut fixture = fixture();
    let there = SwapExactIn { amount: NatI128(10_000_000), min_out: NatI128(0), token_in: PoolToken::ONE };
    assert_eq!(
        there.run(&mut fixture, 0),
        Ok(Swap { amount_in: 10_000_000, amount_out: 15_187_340, spot_price_after: 6_919_639 })
    );
    let back = SwapExactIn { amount: NatI128(10_000_000), min_out: NatI128(0), token_in: PoolToken::TWO };
    assert_eq!(
        back.run(&mut fixture, 1),
        Ok(Swap { amount_in: 10_000_000, amount_out: 6_655_194, spot_price_after: 15_528_034 })
    );
    let out = SwapExactOut {
        amount: NatI128(5_000_000),
        max_in: NatI128(u32::MAX as i128),
        token_out: PoolToken::TWO,
    };
    assert_eq!(
        out.run(&mut fixture, 0),
        Ok(Swap { amount_in: 3_292_492, amount_out: 5_000_000, spot_price_after: 6_692_940 })
    );
    let out = SwapExactOut {
        amount: NatI128(5_000_000),
        max_in: NatI128(u32::MAX as i128),
        token_out: PoolToken::ONE,
    };
    assert_eq!(
        out.run(&mut fixture, 1),
        Ok(Swap { amount_in: 7_704_796, amount_out: 5_000_000, spot_price_after: 15_797_216 })
    );
    let dear = SwapExactOut { amount: NatI128(5_000_000), max_in: NatI128(1), token_out: PoolToken::ONE };
    assert_eq!(dear.run(&mut fixture, 1), Err(Error::SlippageExceeded));
    let much = SwapExactIn {
        amount: NatI128(u32::MAX as i128),
        min_out: NatI128(0),
        token_in: PoolToken::ONE,
    };
    assert_eq!(much.run(&mut fixture, 0), Err(Error::MaxInRatioExceeded));
    assert_eq!(fixture.pool.get_balance(fixture.token_1), Ok(501_637_298));
    assert_eq!(fixture.pool.get_balance(fixture.token_2), Ok(197_517_456));
}

#[test]
fn ten_commands_keep_the_invariant() {
    let mut state: u64 = 99;
    for _ in 0..50 {
        state = state.wrapping_mul(6364136223846793005).wrapping_add(1442695040888963407);
        let balance_1 = LargeI128::new(100_000_000 + (state >> 24) as i128).unwrap();
        state = state.wrapping_mul(6364136223846793005).wrapping_add(1442695040888963407);
        let balance_2 = LargeI128::new(100_000_000 + (state >> 24) as i128).unwrap();
        let mut fixture =
            TestFixture::create(8_000_000, 2_000_000, balance_1.0, balance_2.0, 30_000).unwrap();
        let first_invariant = calc_invariant(&fixture);
        let mut last_invariant = first_invariant;
        for _ in 0..10 {
            state = state.wrapping_mul(6364136223846793005).wrapping_add(1442695040888963407);
            let amount = NatI128::new(((state >> 32) & 0xffff_ffff) as i128).unwrap();
            let limit = NatI128::new(if state & 1 == 0 { 0 } else { u32::MAX as i128 }).unwrap();
            let token = if state & 2 == 0 { PoolToken::ONE } else { PoolToken::TWO };
            let user_index = ((state >> 2) & 1) as usize;
            let result = if state & 8 == 0 {
                SwapExactIn { amount, min_out: limit, token_in: token }.run(&mut fixture, user_index)
            } else {
                SwapExactOut { amount, max_in: limit, token_out: token }.run(&mut fixture, user_index)
            };
            if let Ok(swap) = result {
                assert!(swap.amount_in >= 0);
                assert!(swap.amount_out >= 0);
            }
            let new_invariant = calc_invariant(&fixture);
            let rel_delta = new_invariant * 0.0035;
            assert!(
                last_invariant > new_invariant - rel_delta
                    && last_invariant < new_invariant + rel_delta
            );
            last_invariant = new_invariant;
            assert!(fixture.pool.is_wf());
        }
        let rel_delta = last_invariant * 0.01;
        assert!(first_invariant > last_invariant - rel_delta && first_invariant < last_invariant + rel_delta);
        assert!(last_invariant >= first_invariant * (1.0 - 1e-12));
    }
}
