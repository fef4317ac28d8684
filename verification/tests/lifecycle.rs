use comet::address::Address;
use comet::c_consts::BONE;
use comet::c_consts::INIT_POOL_SUPPLY;
use comet::c_consts::MAX_BOUND_TOKENS;
use comet::c_consts::MAX_FEE;
use comet::c_consts::MAX_TOTAL_WEIGHT;
use comet::c_consts::MAX_WEIGHT;
use comet::c_consts::MIN_FEE;
use comet::c_consts::MIN_WEIGHT;
use comet::c_pool::bounds::scalar_for;
use comet::c_pool::error::Error;
use comet::c_pool::pool::Pool;
use comet::c_pool::storage_types::Record;

fn admin() -> Address {
    Address::account(7, 1)
}

fn stranger() -> Address {
    Address::account(7, 2)
}

fn token(n: u128) -> Address {
    Address::contract(9, n)
}

fn initialized() -> Pool {
    let mut pool = Pool::new();
    assert_eq!(pool.init(admin(), admin()), Ok(()));
    pool
}

fn two_tokens() -> Pool {
    let mut pool = initialized();
    assert_eq!(pool.bind(token(1), 50 * BONE, 8_000_000, 7, admin()), Ok(50 * BONE));
    assert_eq!(pool.bind(token(2), 20 * BONE, 2_000_000, 7, admin()), Ok(20 * BONE));
    pool
}

#[test]
fn a_new_pool_is_empty_and_well_formed() {
    let pool = Pool::new();
    assert!(pool.is_wf());
    assert_eq!(pool.get_controller(), None);
    assert_eq!(pool.get_factory(), None);
    assert_eq!(pool.get_num_tokens(), 0);
    assert_eq!(pool.get_swap_fee(), MIN_FEE);
    assert_eq!(pool.get_total_supply(), 0);
    assert_eq!(pool.get_total_denormalized_weight(), 0);
    assert!(!pool.is_finalized());
    assert!(!pool.is_public_swap());
    assert!(!pool.is_frozen());
}

#[test]
fn init_names_the_controller_once() {
    let mut pool = Pool::new();
    assert_eq!(pool.init(token(0), admin()), Ok(()));
    assert_eq!(pool.get_controller(), Some(admin()));
    assert_eq!(pool.get_factory(), Some(token(0)));
    assert_eq!(pool.init(token(0), stranger()), Err(Error::InvalidPhase));
    assert_eq!(pool.get_controller(), Some(admin()));
    assert!(pool.is_wf());
}

#[test]
fn nothing_is_configured_before_init() {
    let mut pool = Pool::new();
    assert_eq!(pool.bind(token(1), BONE, BONE, 7, admin()), Err(Error::InvalidPhase));
    assert_eq!(pool.rebind(token(1), BONE, BONE, admin()), Err(Error::InvalidPhase));
    assert_eq!(pool.set_swap_fee(MIN_FEE, admin()), Err(Error::InvalidPhase));
    assert_eq!(pool.finalize(admin()), Err(Error::InvalidPhase));
    assert_eq!(pool.freeze(admin()), Err(Error::InvalidPhase));
    assert_eq!(pool.unfreeze(admin()), Err(Error::InvalidPhase));
}

#[test]
fn only_the_controller_configures() {
    let mut pool = two_tokens();
    assert_eq!(pool.bind(token(3), BONE, BONE, 7, stranger()), Err(Error::Unauthorized));
    assert_eq!(pool.rebind(token(1), BONE, BONE, stranger()), Err(Error::Unauthorized));
    assert_eq!(pool.set_swap_fee(MIN_FEE, stranger()), Err(Error::Unauthorized));
    assert_eq!(pool.finalize(stranger()), Err(Error::Unauthorized));
    assert_eq!(pool.freeze(stranger()), Err(Error::Unauthorized));
    assert_eq!(pool.unfreeze(stranger()), Err(Error::Unauthorized));
    assert_eq!(pool.get_num_tokens(), 2);
    assert!(!pool.is_finalized());
    assert!(!pool.is_frozen());
}

#[test]
fn bind_adds_the_token_at_the_end() {
    let pool = two_tokens();
    assert!(pool.is_wf());
    assert_eq!(pool.get_num_tokens(), 2);
    assert_eq!(pool.get_tokens(), vec![token(1), token(2)]);
    assert!(pool.is_bound(token(1)));
    assert!(!pool.is_bound(token(3)));
    assert_eq!(
        pool.get_record(token(1)),
        Ok(Record { balance: 50 * BONE, weight: 8_000_000, scalar: 1, index: 0 })
    );
    assert_eq!(
        pool.get_record(token(2)),
        Ok(Record { balance: 20 * BONE, weight: 2_000_000, scalar: 1, index: 1 })
    );
    assert_eq!(pool.get_record(token(3)), Err(Error::TokenNotBound));
    assert_eq!(pool.get_balance(token(2)), Ok(20 * BONE));
    assert_eq!(pool.get_balance(token(3)), Err(Error::TokenNotBound));
    assert_eq!(pool.get_denormalized_weight(token(1)), Ok(8_000_000));
    assert_eq!(pool.get_total_denormalized_weight(), BONE);
    assert_eq!(pool.get_normalized_weight(token(1)), Ok(8_000_000));
    assert_eq!(pool.get_normalized_weight(token(2)), Ok(2_000_000));
    assert_eq!(pool.get_normalized_weight(token(3)), Err(Error::TokenNotBound));
}

#[test]
fn bind_refuses_what_is_out_of_bounds() {
    let mut pool = two_tokens();
    assert_eq!(pool.bind(token(1), BONE, BONE, 7, admin()), Err(Error::TokenAlreadyBound));
    assert_eq!(pool.bind(token(3), BONE, BONE, 8, admin()), Err(Error::OutOfBounds));
    assert_eq!(pool.bind(token(3), BONE, MIN_WEIGHT - 1, 7, admin()), Err(Error::OutOfBounds));
    assert_eq!(pool.bind(token(3), BONE, MAX_WEIGHT + 1, 7, admin()), Err(Error::OutOfBounds));
    assert_eq!(pool.bind(token(3), 0, BONE, 7, admin()), Err(Error::InsufficientLiquidity));
    assert_eq!(pool.bind(token(3), -5, BONE, 7, admin()), Err(Error::InsufficientLiquidity));
    assert_eq!(
        pool.bind(token(3), BONE, MAX_TOTAL_WEIGHT - BONE + 1, 7, admin()),
        Err(Error::OutOfBounds)
    );
    assert_eq!(pool.get_num_tokens(), 2);
    assert_eq!(pool.bind(token(3), 1, MAX_TOTAL_WEIGHT - BONE, 0, admin()), Ok(1));
    assert_eq!(
        pool.get_record(token(3)),
        Ok(Record { balance: 1, weight: MAX_TOTAL_WEIGHT - BONE, scalar: BONE, index: 2 })
    );
    assert_eq!(pool.get_total_denormalized_weight(), MAX_TOTAL_WEIGHT);
    assert!(pool.is_wf());
}

#[test]
fn bind_stops_at_the_largest_number_of_tokens() {
    let mut pool = initialized();
    for n in 0..MAX_BOUND_TOKENS {
        assert_eq!(pool.bind(token(n as u128), BONE, MIN_WEIGHT, 7, admin()), Ok(BONE));
    }
    assert_eq!(pool.get_num_tokens(), MAX_BOUND_TOKENS);
    assert_eq!(pool.bind(token(100), BONE, MIN_WEIGHT, 7, admin()), Err(Error::MaxTokensExceeded));
    assert_eq!(pool.get_num_tokens(), MAX_BOUND_TOKENS);
    assert!(pool.is_wf());
}

#[test]
fn the_scalar_is_a_power_of_ten() {
    assert_eq!(scalar_for(7), Ok(1));
    assert_eq!(scalar_for(6), Ok(10));
    assert_eq!(scalar_for(5), Ok(100));
    assert_eq!(scalar_for(0), Ok(BONE));
    assert_eq!(scalar_for(8), Err(Error::OutOfBounds));
    assert_eq!(scalar_for(u32::MAX), Err(Error::OutOfBounds));
}

#[test]
fn rebind_changes_reserve_and_weight_in_place() {
    let mut pool = two_tokens();
    assert_eq!(pool.rebind(token(1), 60 * BONE, 5_000_000, admin()), Ok(10 * BONE));
    assert_eq!(
        pool.get_record(token(1)),
        Ok(Record { balance: 60 * BONE, weight: 5_000_000, scalar: 1, index: 0 })
    );
    assert_eq!(pool.get_total_denormalized_weight(), 7_000_000);
    assert_eq!(pool.rebind(token(2), 5 * BONE, 2_000_000, admin()), Ok(-15 * BONE));
    assert_eq!(pool.get_tokens(), vec![token(1), token(2)]);
    assert_eq!(pool.rebind(token(3), BONE, BONE, admin()), Err(Error::TokenNotBound));
    assert_eq!(pool.rebind(token(1), BONE, 0, admin()), Err(Error::OutOfBounds));
    assert_eq!(pool.rebind(token(1), 0, BONE, admin()), Err(Error::InsufficientLiquidity));
    assert_eq!(pool.rebind(token(1), BONE, MAX_WEIGHT, admin()), Err(Error::OutOfBounds));
    assert_eq!(pool.rebind(token(1), BONE, MAX_WEIGHT - 2_000_000, admin()), Ok(BONE - 60 * BONE));
    assert_eq!(pool.get_total_denormalized_weight(), MAX_TOTAL_WEIGHT);
    assert!(pool.is_wf());
}

#[test]
fn bundle_bind_binds_all_or_none() {
    let mut pool = initialized();
    let tokens = vec![token(1), token(2), token(1)];
    let balances = vec![BONE, BONE, BONE];
    let weights = vec![BONE, BONE, BONE];
    let decimals = vec![7, 7, 7];
    assert_eq!(
        pool.bundle_bind(&tokens, &balances, &weights, &decimals, admin()),
        Err(Error::TokenAlreadyBound)
    );
    assert_eq!(pool.get_num_tokens(), 0);
    assert_eq!(pool.get_total_denormalized_weight(), 0);
    let short = vec![BONE, BONE];
    assert_eq!(
        pool.bundle_bind(&tokens, &short, &weights, &decimals, admin()),
        Err(Error::OutOfBounds)
    );
    assert_eq!(
        pool.bundle_bind(&tokens, &balances, &weights, &decimals, stranger()),
        Err(Error::Unauthorized)
    );
    let tokens = vec![token(1), token(2), token(3)];
    let decimals = vec![7, 5, 0];
    assert_eq!(pool.bundle_bind(&tokens, &balances, &weights, &decimals, admin()), Ok(()));
    assert_eq!(pool.get_tokens(), tokens);
    assert_eq!(
        pool.get_record(token(2)),
        Ok(Record { balance: BONE, weight: BONE, scalar: 100, index: 1 })
    );
    assert_eq!(
        pool.get_record(token(3)),
        Ok(Record { balance: BONE, weight: BONE, scalar: BONE, index: 2 })
    );
    assert_eq!(pool.get_total_denormalized_weight(), 3 * BONE);
    assert!(pool.is_wf());
}

#[test]
fn the_fee_stays_in_its_bounds() {
    let mut pool = two_tokens();
    assert_eq!(pool.set_swap_fee(30_000, admin()), Ok(()));
    assert_eq!(pool.get_swap_fee(), 30_000);
    assert_eq!(pool.set_swap_fee(MIN_FEE - 1, admin()), Err(Error::OutOfBounds));
    assert_eq!(pool.set_swap_fee(MAX_FEE + 1, admin()), Err(Error::OutOfBounds));
    assert_eq!(pool.set_swap_fee(0, admin()), Err(Error::OutOfBounds));
    assert_eq!(pool.get_swap_fee(), 30_000);
    assert_eq!(pool.set_swap_fee(MAX_FEE, admin()), Ok(()));
    assert_eq!(pool.set_swap_fee(MIN_FEE, admin()), Ok(()));
}

#[test]
fn finalize_needs_two_tokens_and_mints_the_first_shares() {
    let mut pool = initialized();
    assert_eq!(pool.finalize(admin()), Err(Error::InvalidPhase));
    assert_eq!(pool.bind(token(1), 50 * BONE, 8_000_000, 7, admin()), Ok(50 * BONE));
    assert_eq!(pool.finalize(admin()), Err(Error::InvalidPhase));
    assert_eq!(pool.bind(token(2), 20 * BONE, 2_000_000, 7, admin()), Ok(20 * BONE));
    assert_eq!(pool.get_total_supply(), 0);
    assert_eq!(pool.finalize(admin()), Ok(()));
    assert!(pool.is_finalized());
    assert!(pool.is_public_swap());
    assert_eq!(pool.get_total_supply(), INIT_POOL_SUPPLY);
    assert_eq!(pool.get_total_supply(), 100 * BONE);
    assert_eq!(pool.balance(admin()), INIT_POOL_SUPPLY);
    assert_eq!(pool.balance(stranger()), 0);
    assert!(pool.is_wf());
}

#[test]
fn a_finalized_pool_is_closed_to_configuration() {
    let mut pool = two_tokens();
    assert_eq!(pool.finalize(admin()), Ok(()));
    assert_eq!(pool.finalize(admin()), Err(Error::InvalidPhase));
    assert_eq!(pool.bind(token(3), BONE, BONE, 7, admin()), Err(Error::InvalidPhase));
    assert_eq!(pool.rebind(token(1), BONE, BONE, admin()), Err(Error::InvalidPhase));
    assert_eq!(pool.set_swap_fee(30_000, admin()), Err(Error::InvalidPhase));
    let one = vec![token(3)];
    let amount = vec![BONE];
    let places = vec![7];
    assert_eq!(pool.bundle_bind(&one, &amount, &amount, &places, admin()), Err(Error::InvalidPhase));
    assert_eq!(pool.get_num_tokens(), 2);
    assert_eq!(pool.get_swap_fee(), MIN_FEE);
    assert!(pool.is_finalized());
}

#[test]
fn freeze_and_unfreeze_are_the_controllers() {
    let mut pool = two_tokens();
    assert_eq!(pool.freeze(admin()), Ok(()));
    assert!(pool.is_frozen());
    assert_eq!(pool.unfreeze(admin()), Ok(()));
    assert!(!pool.is_frozen());
    assert_eq!(pool.finalize(admin()), Ok(()));
    assert_eq!(pool.freeze(admin()), Ok(()));
    assert!(pool.is_frozen());
    assert!(pool.is_wf());
}

#[test]
fn a_state_put_together_by_hand_is_tested() {
    let mut pool = two_tokens();
    assert!(pool.is_wf());
    pool.total_weight = pool.total_weight + 1;
    assert!(!pool.is_wf());
    pool.total_weight = pool.total_weight - 1;
    pool.token_list[1] = token(1);
    assert!(!pool.is_wf());
    pool.token_list[1] = token(2);
    pool.records[1].index = 0;
    assert!(!pool.is_wf());
    pool.records[1].index = 1;
    pool.records[0].scalar = 3;
    assert!(!pool.is_wf());
    pool.records[0].scalar = 1000;
    assert!(pool.is_wf());
    pool.records[0].balance = 0;
    assert!(!pool.is_wf());
    pool.records[0].balance = 1;
    pool.public_swap = true;
    assert!(!pool.is_wf());
    pool.public_swap = false;
    pool.total_shares = 5;
    assert!(!pool.is_wf());
    pool.total_shares = 0;
    pool.swap_fee = 0;
    assert!(!pool.is_wf());
    pool.swap_fee = MIN_FEE;
    assert!(pool.is_wf());
    assert_eq!(pool.finalize(admin()), Ok(()));
    pool.total_shares = pool.total_shares + 1;
    assert!(!pool.is_wf());
    pool.total_shares = pool.total_shares - 1;
    pool.shares.amounts[0] = -1;
    assert!(!pool.is_wf());
    pool.shares.amounts[0] = INIT_POOL_SUPPLY;
    pool.shares.holders.push(admin());
    pool.shares.amounts.push(0);
    assert!(!pool.is_wf());
    let copy = two_tokens().snapshot();
    assert!(copy.is_wf());
    assert_eq!(copy.get_tokens(), vec![token(1), token(2)]);
}
