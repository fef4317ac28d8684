use vstd::prelude::*;
use vstd::arithmetic::div_mod::lemma_fundamental_div_mod;
use vstd::arithmetic::div_mod::lemma_fundamental_div_mod_converse;
use vstd::arithmetic::div_mod::lemma_mod_bound;
use crate::c_consts::BONE;
use crate::c_consts::MAX_BOUND_TOKENS;
use crate::c_consts::MAX_DECIMALS;
use crate::c_consts::MAX_FEE;
use crate::c_consts::MAX_IN_RATIO;
use crate::c_consts::MAX_OUT_RATIO;
use crate::c_consts::MAX_TOTAL_WEIGHT;
use crate::c_consts::MAX_WEIGHT;
use crate::c_consts::MIN_BALANCE;
use crate::c_consts::MIN_FEE;
use crate::c_consts::MIN_WEIGHT;
use crate::c_num::floor_div;
use crate::c_num::lemma_floor_div;
use crate::c_pool::error::Error;

verus! {

/// The most that one swap may pay into a reserve of `balance`: the fraction
/// `MAX_IN_RATIO` of it, rounded down.
pub open spec fn max_in_spec(balance: int) -> int {
    floor_div(balance * MAX_IN_RATIO, BONE as int)
}

/// The most that one swap may take out of a reserve of `balance`: the
/// fraction `MAX_OUT_RATIO` of it, rounded down.
pub open spec fn max_out_spec(balance: int) -> int {
    floor_div(balance * MAX_OUT_RATIO, BONE as int)
}

/// Ten to the power `n`.
pub open spec fn pow10(n: nat) -> int
    decreases n,
{
    if n == 0 {
        1
    } else {
        10 * pow10((n - 1) as nat)
    }
}

/// The factor that takes an amount of a token with `decimals` decimal places
/// to the fixed-point scale.
pub open spec fn scalar_spec(decimals: int) -> int
    recommends
        0 <= decimals <= MAX_DECIMALS,
{
    pow10((MAX_DECIMALS - decimals) as nat)
}

/// Whether `scalar` is the factor of some number of decimal places that a
/// token may have.
pub open spec fn valid_scalar(scalar: int) -> bool {
    exists|decimals: int| 0 <= decimals <= MAX_DECIMALS && scalar == #[trigger] scalar_spec(decimals)
}

/// The powers of ten up to the scale.
pub proof fn lemma_scalars()
    ensures
        scalar_spec(7) == 1,
        scalar_spec(6) == 10,
        scalar_spec(5) == 100,
        scalar_spec(4) == 1_000,
        scalar_spec(3) == 10_000,
        scalar_spec(2) == 100_000,
        scalar_spec(1) == 1_000_000,
        scalar_spec(0) == 10_000_000,
        forall|s: int| valid_scalar(s) ==> 1 <= s <= BONE,
{
    reveal_with_fuel(pow10, 9);
}

/// `floor(value * ratio / BONE)` for a ratio of at most one half, computed
/// without overflow.
fn fraction(value: i128, ratio: i128) -> (r: i128)
    requires
        0 <= ratio <= 5_000_000,
    ensures
        r == floor_div(value * ratio, BONE as int),
{
    let q: i128 = match value.checked_div_euclid(BONE) {
        Some(q) => q,
        None => 0,
    };
    let rem: i128 = match value.checked_rem_euclid(BONE) {
        Some(r) => r,
        None => 0,
    };
    proof {
        lemma_fundamental_div_mod(value as int, BONE as int);
        lemma_mod_bound(value as int, BONE as int);
        assert(-17014118346046923173168730371589 <= q <= 17014118346046923173168730371588);
        assert(-85070591730234615865843651857945000000 <= q * ratio
            <= 85070591730234615865843651857940000000) by (nonlinear_arith)
            requires
                -17014118346046923173168730371589 <= q <= 17014118346046923173168730371588,
                0 <= ratio <= 5_000_000,
        ;
        assert(0 <= rem * ratio <= 50_000_000_000_000) by (nonlinear_arith)
            requires
                0 <= rem < 10_000_000,
                0 <= ratio <= 5_000_000,
        ;
    }
    let whole: i128 = q * ratio;
    let part: i128 = (rem * ratio) / BONE;
    proof {
        let t = rem * ratio;
        lemma_fundamental_div_mod(t, BONE as int);
        lemma_mod_bound(t, BONE as int);
        assert(value * ratio == (whole + part) * BONE + t % (BONE as int)) by (nonlinear_arith)
            requires
                value == BONE * q + rem,
                whole == q * ratio,
                t == rem * ratio,
                t == BONE * part + t % (BONE as int),
        ;
        lemma_fundamental_div_mod_converse(
            value * ratio,
            BONE as int,
            whole + part,
            t % (BONE as int),
        );
        lemma_floor_div(value * ratio, BONE as int);
    }
    whole + part
}

/// Refuses a pool that is full.
///
/// `MaxTokensExceeded` exactly when `count` tokens leave no room for one more.
pub fn check_room(count: usize) -> (r: Result<(), Error>)
    ensures
        r == if count >= MAX_BOUND_TOKENS {
            Err::<(), Error>(Error::MaxTokensExceeded)
        } else {
            Ok::<(), Error>(())
        },
{
    if count >= MAX_BOUND_TOKENS {
        Err(Error::MaxTokensExceeded)
    } else {
        Ok(())
    }
}

/// Whether a token may have the denormalized weight `weight`.
pub open spec fn weight_in_bounds(weight: int) -> bool {
    MIN_WEIGHT <= weight <= MAX_WEIGHT
}

/// Refuses a weight outside `MIN_WEIGHT ..= MAX_WEIGHT` with `OutOfBounds`.
pub fn check_weight(weight: i128) -> (r: Result<(), Error>)
    ensures
        r == if weight_in_bounds(weight as int) {
            Ok::<(), Error>(())
        } else {
            Err::<(), Error>(Error::OutOfBounds)
        },
{
    if weight < MIN_WEIGHT || weight > MAX_WEIGHT {
        Err(Error::OutOfBounds)
    } else {
        Ok(())
    }
}

/// Refuses a sum of weights above `MAX_TOTAL_WEIGHT` with `OutOfBounds`.
pub fn check_total_weight(total: i128) -> (r: Result<(), Error>)
    ensures
        r == if total <= MAX_TOTAL_WEIGHT {
            Ok::<(), Error>(())
        } else {
            Err::<(), Error>(Error::OutOfBounds)
        },
{
    if total > MAX_TOTAL_WEIGHT {
        Err(Error::OutOfBounds)
    } else {
        Ok(())
    }
}

/// Refuses a reserve below `MIN_BALANCE` with `InsufficientLiquidity`.
pub fn check_balance(balance: i128) -> (r: Result<(), Error>)
    ensures
        r == if balance >= MIN_BALANCE {
            Ok::<(), Error>(())
        } else {
            Err::<(), Error>(Error::InsufficientLiquidity)
        },
{
    if balance < MIN_BALANCE {
        Err(Error::InsufficientLiquidity)
    } else {
        Ok(())
    }
}

/// Whether `fee` may be a pool's swap fee.
pub open spec fn fee_in_bounds(fee: int) -> bool {
    MIN_FEE <= fee <= MAX_FEE
}

/// Refuses a swap fee outside `MIN_FEE ..= MAX_FEE` with `OutOfBounds`.
pub fn check_fee(fee: i128) -> (r: Result<(), Error>)
    ensures
        r == if fee_in_bounds(fee as int) {
            Ok::<(), Error>(())
        } else {
            Err::<(), Error>(Error::OutOfBounds)
        },
{
    if fee < MIN_FEE || fee > MAX_FEE {
        Err(Error::OutOfBounds)
    } else {
        Ok(())
    }
}

/// The factor that takes an amount of a token with `decimals` decimal places
/// to the fixed-point scale. `OutOfBounds` exactly when the token has more
/// decimal places than the scale.
pub fn scalar_for(decimals: u32) -> (r: Result<i128, Error>)
    ensures
        r == if decimals <= MAX_DECIMALS {
            Ok::<i128, Error>(scalar_spec(decimals as int) as i128)
        } else {
            Err::<i128, Error>(Error::OutOfBounds)
        },
        r matches Ok(s) ==> valid_scalar(s as int) && s == scalar_spec(decimals as int),
{
    if decimals > MAX_DECIMALS {
        return Err(Error::OutOfBounds);
    }
    let mut scalar: i128 = 1;
    let mut d: u32 = MAX_DECIMALS;
    while d > decimals
        invariant
            decimals <= d <= MAX_DECIMALS,
            scalar == scalar_spec(d as int),
            1 <= scalar <= BONE,
        decreases d,
    {
        proof {
            lemma_scalars();
            assert(scalar_spec(d as int - 1) == 10 * scalar_spec(d as int));
        }
        scalar = scalar * 10;
        d = d - 1;
    }
    Ok(scalar)
}

/// Refuses a swap that pays in more than the fraction `MAX_IN_RATIO` of the
/// reserve, with `MaxInRatioExceeded`.
pub fn check_in_ratio(amount_in: i128, balance_in: i128) -> (r: Result<(), Error>)
    ensures
        r == if amount_in > max_in_spec(balance_in as int) {
            Err::<(), Error>(Error::MaxInRatioExceeded)
        } else {
            Ok::<(), Error>(())
        },
{
    if amount_in > fraction(balance_in, MAX_IN_RATIO) {
        Err(Error::MaxInRatioExceeded)
    } else {
        Ok(())
    }
}

/// Refuses a swap that takes out more than the fraction `MAX_OUT_RATIO` of
/// the reserve, with `MaxOutRatioExceeded`.
pub fn check_out_ratio(amount_out: i128, balance_out: i128) -> (r: Result<(), Error>)
    ensures
        r == if amount_out > max_out_spec(balance_out as int) {
            Err::<(), Error>(Error::MaxOutRatioExceeded)
        } else {
            Ok::<(), Error>(())
        },
{
    if amount_out > fraction(balance_out, MAX_OUT_RATIO) {
        Err(Error::MaxOutRatioExceeded)
    } else {
        Ok(())
    }
}

/// Refuses an amount below the least that the caller accepts, with
/// `SlippageExceeded`.
pub fn check_min_out(amount_out: i128, min_amount_out: i128) -> (r: Result<(), Error>)
    ensures
        r == if amount_out < min_amount_out {
            Err::<(), Error>(Error::SlippageExceeded)
        } else {
            Ok::<(), Error>(())
        },
{
    if amount_out < min_amount_out {
        Err(Error::SlippageExceeded)
    } else {
        Ok(())
    }
}

/// Refuses an amount above the most that the caller accepts, with
/// `SlippageExceeded`.
pub fn check_max_in(amount_in: i128, max_amount_in: i128) -> (r: Result<(), Error>)
    ensures
        r == if amount_in > max_amount_in {
            Err::<(), Error>(Error::SlippageExceeded)
        } else {
            Ok::<(), Error>(())
        },
{
    if amount_in > max_amount_in {
        Err(Error::SlippageExceeded)
    } else {
        Ok(())
    }
}

/// Refuses a spot price above the caller's limit, with `PriceLimitExceeded`.
pub fn check_price(spot_price: i128, max_price: i128) -> (r: Result<(), Error>)
    ensures
        r == if spot_price > max_price {
            Err::<(), Error>(Error::PriceLimitExceeded)
        } else {
            Ok::<(), Error>(())
        },
{
    if spot_price > max_price {
        Err(Error::PriceLimitExceeded)
    } else {
        Ok(())
    }
}

} // verus!
