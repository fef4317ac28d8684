use vstd::prelude::*;
use vstd::arithmetic::power::pow;
use crate::c_consts::BONE;
use crate::c_num::Rounding;
use crate::c_num::add_spec;
use crate::c_num::c_add;
use crate::c_num::c_div_ceil;
use crate::c_num::c_div_floor;
use crate::c_num::c_int_div;
use crate::c_num::c_mul_ceil;
use crate::c_num::c_mul_floor;
use crate::c_num::c_pow;
use crate::c_num::c_sub;
use crate::c_num::ceil_div;
use crate::c_num::div_ceil_spec;
use crate::c_num::div_floor_spec;
use crate::c_num::fits;
use crate::c_num::floor_div;
use crate::c_num::int_div_spec;
use crate::c_num::lemma_exact_div;
use crate::c_num::lemma_floor_div;
use crate::c_num::lemma_pow_one;
use crate::c_num::lemma_signs;
use crate::c_num::mul_ceil_spec;
use crate::c_num::mul_floor_spec;
use crate::c_num::pow_spec;
use crate::c_num::sub_spec;
use crate::c_num::widen;
use crate::c_pool::error::Error;

verus! {

/// An amount in a token's own units on the fixed-point scale: `amount * scalar`.
pub open spec fn upscale_spec(amount: int, scalar: int) -> Result<int, Error> {
    if !fits(amount * scalar) {
        Err(Error::ArithmeticOverflow)
    } else {
        Ok(amount * scalar)
    }
}

/// An amount on the fixed-point scale in a token's own units,
/// `amount / scalar`, rounded as `mode` says.
pub open spec fn downscale_spec(amount: int, scalar: int, mode: Rounding) -> Result<int, Error> {
    int_div_spec(amount, scalar, mode)
}

/// Takes an amount in a token's own units to the fixed-point scale.
///
/// Fails with `ArithmeticOverflow` exactly when `amount * scalar` is no
/// signed 128-bit value.
pub fn upscale(amount: i128, scalar: i128) -> (r: Result<i128, Error>)
    ensures
        widen(r) == upscale_spec(amount as int, scalar as int),
{
    match amount.checked_mul(scalar) {
        Some(v) => Ok(v),
        None => Err(Error::ArithmeticOverflow),
    }
}

/// Takes an amount on the fixed-point scale to a token's own units, rounded
/// as `mode` says.
///
/// Fails with `DivisionByZero` exactly when `scalar` is zero, and otherwise
/// with `ArithmeticOverflow` exactly when the quotient is no signed 128-bit
/// value.
pub fn downscale(amount: i128, scalar: i128, mode: Rounding) -> (r: Result<i128, Error>)
    ensures
        widen(r) == downscale_spec(amount as int, scalar as int, mode),
{
    c_int_div(amount, scalar, mode)
}

/// The price of the token going out in units of the token coming in, seen by
/// a trader who pays the fee:
/// `(balance_in / weight_in) / (balance_out / weight_out) / (1 - fee)`.
/// Every step rounds against the trader: the dividend up, the divisor down.
pub open spec fn spot_price_spec(
    balance_in: int,
    weight_in: int,
    balance_out: int,
    weight_out: int,
    swap_fee: int,
) -> Result<int, Error> {
    match div_ceil_spec(balance_in, weight_in) {
        Err(e) => Err(e),
        Ok(numer) => match div_floor_spec(balance_out, weight_out) {
            Err(e) => Err(e),
            Ok(denom) => match div_ceil_spec(numer, denom) {
                Err(e) => Err(e),
                Ok(ratio) => match sub_spec(BONE as int, swap_fee) {
                    Err(e) => Err(e),
                    Ok(keep) => match div_ceil_spec(BONE as int, keep) {
                        Err(e) => Err(e),
                        Ok(scale) => mul_ceil_spec(ratio, scale),
                    },
                },
            },
        },
    }
}

/// What a trader gets for `amount_in`:
/// `balance_out * (1 - (balance_in / (balance_in + amount_in * (1 - fee)))^(weight_in / weight_out))`.
/// Every product and quotient rounds against the trader, and the power is
/// rounded up. Where the power comes out above one unit, the result is
/// `OutOfBounds`.
pub open spec fn out_given_in_spec(
    balance_in: int,
    weight_in: int,
    balance_out: int,
    weight_out: int,
    amount_in: int,
    swap_fee: int,
) -> Result<int, Error> {
    match div_floor_spec(weight_in, weight_out) {
        Err(e) => Err(e),
        Ok(weight_ratio) => match sub_spec(BONE as int, swap_fee) {
            Err(e) => Err(e),
            Ok(keep) => match mul_floor_spec(amount_in, keep) {
                Err(e) => Err(e),
                Ok(adjusted_in) => match add_spec(balance_in, adjusted_in) {
                    Err(e) => Err(e),
                    Ok(grown) => match div_ceil_spec(balance_in, grown) {
                        Err(e) => Err(e),
                        Ok(base) => match pow_spec(base, weight_ratio) {
                            Err(e) => Err(e),
                            Ok(power) => if power > BONE {
                                Err(Error::OutOfBounds)
                            } else {
                                mul_floor_spec(balance_out, BONE - power)
                            },
                        },
                    },
                },
            },
        },
    }
}

/// What a trader pays for `amount_out`:
/// `balance_in * ((balance_out / (balance_out - amount_out))^(weight_out / weight_in) - 1) / (1 - fee)`.
/// Every product and quotient rounds against the trader, and the power is
/// rounded up. Where the power comes out below one unit, the result is
/// `OutOfBounds`.
pub open spec fn in_given_out_spec(
    balance_in: int,
    weight_in: int,
    balance_out: int,
    weight_out: int,
    amount_out: int,
    swap_fee: int,
) -> Result<int, Error> {
    match div_ceil_spec(weight_out, weight_in) {
        Err(e) => Err(e),
        Ok(weight_ratio) => match sub_spec(balance_out, amount_out) {
            Err(e) => Err(e),
            Ok(shrunk) => match div_ceil_spec(balance_out, shrunk) {
                Err(e) => Err(e),
                Ok(base) => match pow_spec(base, weight_ratio) {
                    Err(e) => Err(e),
                    Ok(power) => if power < BONE {
                        Err(Error::OutOfBounds)
                    } else {
                        match mul_ceil_spec(balance_in, power - BONE) {
                            Err(e) => Err(e),
                            Ok(before_fee) => match sub_spec(BONE as int, swap_fee) {
                                Err(e) => Err(e),
                                Ok(keep) => div_ceil_spec(before_fee, keep),
                            },
                        }
                    },
                },
            },
        },
    }
}

/// The spot price of the token going out in units of the token coming in,
/// fee included.
pub fn calc_spot_price(
    balance_in: i128,
    weight_in: i128,
    balance_out: i128,
    weight_out: i128,
    swap_fee: i128,
) -> (r: Result<i128, Error>)
    ensures
        widen(r) == spot_price_spec(
            balance_in as int,
            weight_in as int,
            balance_out as int,
            weight_out as int,
            swap_fee as int,
        ),
{
    let numer: i128 = c_div_ceil(balance_in, weight_in)?;
    let denom: i128 = c_div_floor(balance_out, weight_out)?;
    let ratio: i128 = c_div_ceil(numer, denom)?;
    let keep: i128 = c_sub(BONE, swap_fee)?;
    let scale: i128 = c_div_ceil(BONE, keep)?;
    c_mul_ceil(ratio, scale)
}

/// The amount that goes out for `amount_in` coming in.
pub fn calc_out_given_in(
    balance_in: i128,
    weight_in: i128,
    balance_out: i128,
    weight_out: i128,
    amount_in: i128,
    swap_fee: i128,
) -> (r: Result<i128, Error>)
    ensures
        widen(r) == out_given_in_spec(
            balance_in as int,
            weight_in as int,
            balance_out as int,
            weight_out as int,
            amount_in as int,
            swap_fee as int,
        ),
{
    let weight_ratio: i128 = c_div_floor(weight_in, weight_out)?;
    let keep: i128 = c_sub(BONE, swap_fee)?;
    let adjusted_in: i128 = c_mul_floor(amount_in, keep)?;
    let grown: i128 = c_add(balance_in, adjusted_in)?;
    let base: i128 = c_div_ceil(balance_in, grown)?;
    let power: i128 = c_pow(base, weight_ratio)?;
    if power > BONE {
        return Err(Error::OutOfBounds);
    }
    c_mul_floor(balance_out, BONE - power)
}

/// The amount that must come in for `amount_out` to go out.
pub fn calc_in_given_out(
    balance_in: i128,
    weight_in: i128,
    balance_out: i128,
    weight_out: i128,
    amount_out: i128,
    swap_fee: i128,
) -> (r: Result<i128, Error>)
    ensures
        widen(r) == in_given_out_spec(
            balance_in as int,
            weight_in as int,
            balance_out as int,
            weight_out as int,
            amount_out as int,
            swap_fee as int,
        ),
{
    let weight_ratio: i128 = c_div_ceil(weight_out, weight_in)?;
    let shrunk: i128 = c_sub(balance_out, amount_out)?;
    let base: i128 = c_div_ceil(balance_out, shrunk)?;
    let power: i128 = c_pow(base, weight_ratio)?;
    if power < BONE {
        return Err(Error::OutOfBounds);
    }
    let before_fee: i128 = c_mul_ceil(balance_in, power - BONE)?;
    let keep: i128 = c_sub(BONE, swap_fee)?;
    c_div_ceil(before_fee, keep)
}

/// The part of an amount of one token that a deposit or a withdrawal of that
/// token alone is charged as a fee: the swap fee on the share of the other
/// tokens, `(1 - weight / total_weight) * fee`, rounded up.
pub open spec fn single_fee_spec(weight: int, total_weight: int, swap_fee: int) -> Result<
    int,
    Error,
> {
    match div_floor_spec(weight, total_weight) {
        Err(e) => Err(e),
        Ok(share) => match sub_spec(BONE as int, share) {
            Err(e) => Err(e),
            Ok(others) => mul_ceil_spec(others, swap_fee),
        },
    }
}

/// The pool shares that a deposit of `amount_in` of one token earns:
/// `supply * ((1 + amount_in * (1 - fee') / balance)^(weight / total_weight) - 1)`,
/// with the fee `fee'` of `single_fee_spec`. The power is taken of the
/// inverse of the base, rounded up, and the supply is divided by it, so that
/// every step rounds against the depositor.
pub open spec fn pool_out_given_single_in_spec(
    balance: int,
    weight: int,
    supply: int,
    total_weight: int,
    amount_in: int,
    swap_fee: int,
) -> Result<int, Error> {
    match single_fee_spec(weight, total_weight, swap_fee) {
        Err(e) => Err(e),
        Ok(fee) => match sub_spec(BONE as int, fee) {
            Err(e) => Err(e),
            Ok(keep) => match mul_floor_spec(amount_in, keep) {
                Err(e) => Err(e),
                Ok(credited) => match add_spec(balance, credited) {
                    Err(e) => Err(e),
                    Ok(grown) => match div_ceil_spec(balance, grown) {
                        Err(e) => Err(e),
                        Ok(base) => match div_floor_spec(weight, total_weight) {
                            Err(e) => Err(e),
                            Ok(share) => match pow_spec(base, share) {
                                Err(e) => Err(e),
                                Ok(power) => match div_floor_spec(supply, power) {
                                    Err(e) => Err(e),
                                    Ok(new_supply) => if new_supply < supply {
                                        Err(Error::OutOfBounds)
                                    } else {
                                        sub_spec(new_supply, supply)
                                    },
                                },
                            },
                        },
                    },
                },
            },
        },
    }
}

/// What a deposit of one token costs that earns `pool_amount_out` shares:
/// `balance * ((1 + pool_amount_out / supply)^(total_weight / weight) - 1) / (1 - fee')`.
/// Every product and quotient rounds against the depositor, and the power is
/// rounded up.
pub open spec fn single_in_given_pool_out_spec(
    balance: int,
    weight: int,
    supply: int,
    total_weight: int,
    pool_amount_out: int,
    swap_fee: int,
) -> Result<int, Error> {
    match add_spec(supply, pool_amount_out) {
        Err(e) => Err(e),
        Ok(new_supply) => match div_ceil_spec(new_supply, supply) {
            Err(e) => Err(e),
            Ok(base) => match div_ceil_spec(total_weight, weight) {
                Err(e) => Err(e),
                Ok(exponent) => match pow_spec(base, exponent) {
                    Err(e) => Err(e),
                    Ok(power) => match mul_ceil_spec(power, balance) {
                        Err(e) => Err(e),
                        Ok(grown) => if grown < balance {
                            Err(Error::OutOfBounds)
                        } else {
                            match sub_spec(grown, balance) {
                                Err(e) => Err(e),
                                Ok(added) => match single_fee_spec(weight, total_weight, swap_fee) {
                                    Err(e) => Err(e),
                                    Ok(fee) => match sub_spec(BONE as int, fee) {
                                        Err(e) => Err(e),
                                        Ok(keep) => div_ceil_spec(added, keep),
                                    },
                                },
                            }
                        },
                    },
                },
            },
        },
    }
}

/// What a withdrawal of one token pays for `pool_amount_in` shares:
/// `balance * (1 - (1 - pool_amount_in / supply)^(total_weight / weight)) * (1 - fee')`.
/// Every product and quotient rounds against the one who withdraws, and the
/// power is rounded up.
pub open spec fn single_out_given_pool_in_spec(
    balance: int,
    weight: int,
    supply: int,
    total_weight: int,
    pool_amount_in: int,
    swap_fee: int,
) -> Result<int, Error> {
    match sub_spec(supply, pool_amount_in) {
        Err(e) => Err(e),
        Ok(new_supply) => match div_ceil_spec(new_supply, supply) {
            Err(e) => Err(e),
            Ok(base) => match div_floor_spec(total_weight, weight) {
                Err(e) => Err(e),
                Ok(exponent) => match pow_spec(base, exponent) {
                    Err(e) => Err(e),
                    Ok(power) => match mul_ceil_spec(power, balance) {
                        Err(e) => Err(e),
                        Ok(left) => if left > balance {
                            Err(Error::OutOfBounds)
                        } else {
                            match sub_spec(balance, left) {
                                Err(e) => Err(e),
                                Ok(taken) => match single_fee_spec(weight, total_weight, swap_fee) {
                                    Err(e) => Err(e),
                                    Ok(fee) => match sub_spec(BONE as int, fee) {
                                        Err(e) => Err(e),
                                        Ok(keep) => mul_floor_spec(taken, keep),
                                    },
                                },
                            }
                        },
                    },
                },
            },
        },
    }
}

/// The pool shares that a withdrawal of `amount_out` of one token costs:
/// `supply * (1 - (1 - amount_out / (1 - fee') / balance)^(weight / total_weight))`.
/// The power is taken of the inverse of the base, rounded up, and the supply
/// is divided by it, so that every step rounds against the one who
/// withdraws.
pub open spec fn pool_in_given_single_out_spec(
    balance: int,
    weight: int,
    supply: int,
    total_weight: int,
    amount_out: int,
    swap_fee: int,
) -> Result<int, Error> {
    match single_fee_spec(weight, total_weight, swap_fee) {
        Err(e) => Err(e),
        Ok(fee) => match sub_spec(BONE as int, fee) {
            Err(e) => Err(e),
            Ok(keep) => match div_ceil_spec(amount_out, keep) {
                Err(e) => Err(e),
                Ok(charged) => match sub_spec(balance, charged) {
                    Err(e) => Err(e),
                    Ok(left) => match div_ceil_spec(balance, left) {
                        Err(e) => Err(e),
                        Ok(base) => match div_ceil_spec(weight, total_weight) {
                            Err(e) => Err(e),
                            Ok(share) => match pow_spec(base, share) {
                                Err(e) => Err(e),
                                Ok(power) => match div_floor_spec(supply, power) {
                                    Err(e) => Err(e),
                                    Ok(new_supply) => if new_supply > supply {
                                        Err(Error::OutOfBounds)
                                    } else {
                                        sub_spec(supply, new_supply)
                                    },
                                },
                            },
                        },
                    },
                },
            },
        },
    }
}

/// The fee on a deposit or a withdrawal of one token alone.
pub fn calc_single_fee(weight: i128, total_weight: i128, swap_fee: i128) -> (r: Result<i128, Error>)
    ensures
        widen(r) == single_fee_spec(weight as int, total_weight as int, swap_fee as int),
{
    let share: i128 = c_div_floor(weight, total_weight)?;
    let others: i128 = c_sub(BONE, share)?;
    c_mul_ceil(others, swap_fee)
}

/// The pool shares that a deposit of `amount_in` of one token earns.
pub fn calc_pool_out_given_single_in(
    balance: i128,
    weight: i128,
    supply: i128,
    total_weight: i128,
    amount_in: i128,
    swap_fee: i128,
) -> (r: Result<i128, Error>)
    ensures
        widen(r) == pool_out_given_single_in_spec(
            balance as int,
            weight as int,
            supply as int,
            total_weight as int,
            amount_in as int,
            swap_fee as int,
        ),
{
    let fee: i128 = calc_single_fee(weight, total_weight, swap_fee)?;
    let keep: i128 = c_sub(BONE, fee)?;
    let credited: i128 = c_mul_floor(amount_in, keep)?;
    let grown: i128 = c_add(balance, credited)?;
    let base: i128 = c_div_ceil(balance, grown)?;
    let share: i128 = c_div_floor(weight, total_weight)?;
    let power: i128 = c_pow(base, share)?;
    let new_supply: i128 = c_div_floor(supply, power)?;
    if new_supply < supply {
        return Err(Error::OutOfBounds);
    }
    c_sub(new_supply, supply)
}

/// What a deposit of one token costs that earns `pool_amount_out` shares.
pub fn calc_single_in_given_pool_out(
    balance: i128,
    weight: i128,
    supply: i128,
    total_weight: i128,
    pool_amount_out: i128,
    swap_fee: i128,
) -> (r: Result<i128, Error>)
    ensures
        widen(r) == single_in_given_pool_out_spec(
            balance as int,
            weight as int,
            supply as int,
            total_weight as int,
            pool_amount_out as int,
            swap_fee as int,
        ),
{
    let new_supply: i128 = c_add(supply, pool_amount_out)?;
    let base: i128 = c_div_ceil(new_supply, supply)?;
    let exponent: i128 = c_div_ceil(total_weight, weight)?;
    let power: i128 = c_pow(base, exponent)?;
    let grown: i128 = c_mul_ceil(power, balance)?;
    if grown < balance {
        return Err(Error::OutOfBounds);
    }
    let added: i128 = c_sub(grown, balance)?;
    let fee: i128 = calc_single_fee(weight, total_weight, swap_fee)?;
    let keep: i128 = c_sub(BONE, fee)?;
    c_div_ceil(added, keep)
}

/// What a withdrawal of one token pays for `pool_amount_in` shares.
pub fn calc_single_out_given_pool_in(
    balance: i128,
    weight: i128,
    supply: i128,
    total_weight: i128,
    pool_amount_in: i128,
    swap_fee: i128,
) -> (r: Result<i128, Error>)
    ensures
        widen(r) == single_out_given_pool_in_spec(
            balance as int,
            weight as int,
            supply as int,
            total_weight as int,
            pool_amount_in as int,
            swap_fee as int,
        ),
{
    let new_supply: i128 = c_sub(supply, pool_amount_in)?;
    let base: i128 = c_div_ceil(new_supply, supply)?;
    let exponent: i128 = c_div_floor(total_weight, weight)?;
    let power: i128 = c_pow(base, exponent)?;
    let left: i128 = c_mul_ceil(power, balance)?;
    if left > balance {
        return Err(Error::OutOfBounds);
    }
    let taken: i128 = c_sub(balance, left)?;
    let fee: i128 = calc_single_fee(weight, total_weight, swap_fee)?;
    let keep: i128 = c_sub(BONE, fee)?;
    c_mul_floor(taken, keep)
}

/// The pool shares that a withdrawal of `amount_out` of one token costs.
pub fn calc_pool_in_given_single_out(
    balance: i128,
    weight: i128,
    supply: i128,
    total_weight: i128,
    amount_out: i128,
    swap_fee: i128,
) -> (r: Result<i128, Error>)
    ensures
        widen(r) == pool_in_given_single_out_spec(
            balance as int,
            weight as int,
            supply as int,
            total_weight as int,
            amount_out as int,
            swap_fee as int,
        ),
{
    let fee: i128 = calc_single_fee(weight, total_weight, swap_fee)?;
    let keep: i128 = c_sub(BONE, fee)?;
    let charged: i128 = c_div_ceil(amount_out, keep)?;
    let left: i128 = c_sub(balance, charged)?;
    let base: i128 = c_div_ceil(balance, left)?;
    let share: i128 = c_div_ceil(weight, total_weight)?;
    let power: i128 = c_pow(base, share)?;
    let new_supply: i128 = c_div_floor(supply, power)?;
    if new_supply > supply {
        return Err(Error::OutOfBounds);
    }
    c_sub(supply, new_supply)
}

/// Whether `power`, as a fraction of one unit, is not below `base`, as a
/// fraction of one unit, to the power `numer / denom`:
/// `(power / BONE)^denom >= (base / BONE)^numer`.
pub open spec fn not_below_power(power: int, base: int, numer: nat, denom: nat) -> bool {
    &&& power >= 0
    &&& pow(power, denom) * pow(BONE as int, numer) >= pow(base, numer) * pow(BONE as int, denom)
}

/// The base of the power in `out_given_in_spec`:
/// `balance_in / (balance_in + amount_in * (1 - fee))`.
pub open spec fn out_given_in_base(balance_in: int, amount_in: int, swap_fee: int) -> int {
    ceil_div(
        balance_in * BONE,
        balance_in + floor_div(amount_in * (BONE - swap_fee), BONE as int),
    )
}

/// The base of the power in `in_given_out_spec`:
/// `balance_out / (balance_out - amount_out)`.
pub open spec fn in_given_out_base(balance_out: int, amount_out: int) -> int {
    ceil_div(balance_out * BONE, balance_out - amount_out)
}

/// A larger base has the larger power, and no power of a base that is not
/// negative is negative.
pub proof fn lemma_pow_base(a: int, b: int, e: nat)
    requires
        0 <= a <= b,
    ensures
        0 <= pow(a, e) <= pow(b, e),
    decreases e,
{
    reveal(pow);
    if e > 0 {
        lemma_pow_base(a, b, (e - 1) as nat);
        let pa = pow(a, (e - 1) as nat);
        let pb = pow(b, (e - 1) as nat);
        assert(0 <= a * pa <= b * pb) by (nonlinear_arith)
            requires
                0 <= a <= b,
                0 <= pa <= pb,
        ;
    }
}

/// Three inequalities between products of powers that give a fourth: with
/// `a * b >= c * d`, `f * g >= h * e` and `d * e >= f * b`, all of them
/// between values that are not negative, `a * g >= c * h`.
proof fn lemma_chain(a: int, b: int, c: int, d: int, e: int, f: int, g: int, h: int)
    requires
        a >= 0 && c >= 0 && d >= 0 && f >= 0 && g >= 0 && h >= 0,
        b > 0,
        e > 0,
        a * b >= c * d,
        f * g >= h * e,
        d * e >= f * b,
    ensures
        a * g >= c * h,
{
    let be = b * e;
    assert(be > 0) by (nonlinear_arith)
        requires
            be == b * e,
            b > 0,
            e > 0,
    ;
    assert((a * g) * be == (a * b) * (e * g) && (c * d) * (e * g) == (d * e) * (c * g) && (f * b)
        * (c * g) == (f * g) * (c * b) && (h * e) * (c * b) == (c * h) * be) by (nonlinear_arith)
        requires
            be == b * e,
    ;
    assert(e * g >= 0 && c * g >= 0 && c * b >= 0) by (nonlinear_arith)
        requires
            e > 0 && g >= 0 && c >= 0 && b > 0,
    ;
    assert((a * b) * (e * g) >= (c * d) * (e * g)) by (nonlinear_arith)
        requires
            a * b >= c * d,
            e * g >= 0,
    ;
    assert((d * e) * (c * g) >= (f * b) * (c * g)) by (nonlinear_arith)
        requires
            d * e >= f * b,
            c * g >= 0,
    ;
    assert((f * g) * (c * b) >= (h * e) * (c * b)) by (nonlinear_arith)
        requires
            f * g >= h * e,
            c * b >= 0,
    ;
    assert(a * g >= c * h) by (nonlinear_arith)
        requires
            (a * g) * be >= (c * h) * be,
            be > 0,
    ;
}

/// Wherever the power that a swap used is not below the exact power, what
/// goes out of the swap leaves the weighted product of the two reserves,
/// each to the power of its weight, no smaller than it was.
pub proof fn lemma_out_given_in_keeps_invariant(
    balance_in: int,
    weight_in: int,
    balance_out: int,
    weight_out: int,
    amount_in: int,
    swap_fee: int,
)
    requires
        balance_in > 0,
        balance_out >= 0,
        weight_in > 0,
        weight_out > 0,
        amount_in >= 0,
        0 <= swap_fee < BONE,
        out_given_in_spec(balance_in, weight_in, balance_out, weight_out, amount_in, swap_fee)
            is Ok,
        not_below_power(
            pow_spec(
                out_given_in_base(balance_in, amount_in, swap_fee),
                floor_div(weight_in * BONE, weight_out),
            )->Ok_0,
            out_given_in_base(balance_in, amount_in, swap_fee),
            weight_in as nat,
            weight_out as nat,
        ),
    ensures
        ({
            let amount_out = out_given_in_spec(
                balance_in,
                weight_in,
                balance_out,
                weight_out,
                amount_in,
                swap_fee,
            )->Ok_0;
            &&& 0 <= amount_out <= balance_out
            &&& pow(balance_in + amount_in, weight_in as nat) * pow(
                balance_out - amount_out,
                weight_out as nat,
            ) >= pow(balance_in, weight_in as nat) * pow(balance_out, weight_out as nat)
        }),
{
    let keep = BONE - swap_fee;
    let adjusted = floor_div(amount_in * keep, BONE as int);
    let grown = balance_in + adjusted;
    let base = out_given_in_base(balance_in, amount_in, swap_fee);
    let power = pow_spec(base, floor_div(weight_in * BONE, weight_out))->Ok_0;
    let amount_out = floor_div(balance_out * (BONE - power), BONE as int);
    let left = balance_out - amount_out;
    let wi = weight_in as nat;
    let wo = weight_out as nat;
    lemma_signs();
    lemma_floor_div(amount_in * keep, BONE as int);
    assert(0 <= adjusted <= amount_in) by (nonlinear_arith)
        requires
            adjusted * BONE <= amount_in * keep,
            0 < keep <= BONE,
            amount_in >= 0,
            adjusted >= 0,
    {
        assert(amount_in * keep <= amount_in * BONE);
    }
    lemma_floor_div(balance_in * BONE, grown);
    lemma_floor_div(balance_out * (BONE - power), BONE as int);
    assert(balance_out * (BONE - power) >= 0);
    assert(amount_out <= balance_out) by (nonlinear_arith)
        requires
            amount_out * BONE <= balance_out * (BONE - power),
            power >= 0,
            balance_out >= 0,
    {
        assert(balance_out * (BONE - power) <= balance_out * BONE);
    }
    assert(left * BONE >= balance_out * power) by (nonlinear_arith)
        requires
            left == balance_out - amount_out,
            amount_out * BONE <= balance_out * (BONE - power),
    ;
    assert(balance_out * power >= 0 && balance_in * BONE >= 0);
    // the three inequalities, each raised to its power
    lemma_pow_base(balance_out * power, left * BONE, wo);
    vstd::arithmetic::power::lemma_pow_distributes(left, BONE as int, wo);
    vstd::arithmetic::power::lemma_pow_distributes(balance_out, power, wo);
    lemma_pow_base(balance_in * BONE, base * grown, wi);
    vstd::arithmetic::power::lemma_pow_distributes(base, grown, wi);
    vstd::arithmetic::power::lemma_pow_distributes(balance_in, BONE as int, wi);
    vstd::arithmetic::power::lemma_pow_positive(BONE as int, wo);
    vstd::arithmetic::power::lemma_pow_positive(BONE as int, wi);
    lemma_pow_base(0, left, wo);
    lemma_pow_base(0, balance_out, wo);
    lemma_pow_base(0, power, wo);
    lemma_pow_base(0, base, wi);
    lemma_pow_base(0, balance_in, wi);
    lemma_pow_base(grown, balance_in + amount_in, wi);
    lemma_chain(
        pow(left, wo),
        pow(BONE as int, wo),
        pow(balance_out, wo),
        pow(power, wo),
        pow(BONE as int, wi),
        pow(base, wi),
        pow(grown, wi),
        pow(balance_in, wi),
    );
    assert(pow(balance_in + amount_in, wi) * pow(left, wo) >= pow(balance_in, wi) * pow(
        balance_out,
        wo,
    )) by (nonlinear_arith)
        requires
            pow(left, wo) * pow(grown, wi) >= pow(balance_out, wo) * pow(balance_in, wi),
            pow(balance_in + amount_in, wi) >= pow(grown, wi),
            pow(left, wo) >= 0,
    {
        assert(pow(balance_in + amount_in, wi) * pow(left, wo) >= pow(grown, wi) * pow(left, wo));
    }
}

/// Wherever the power that a swap used is not below the exact power, what
/// comes in for the swap leaves the weighted product of the two reserves,
/// each to the power of its weight, no smaller than it was.
pub proof fn lemma_in_given_out_keeps_invariant(
    balance_in: int,
    weight_in: int,
    balance_out: int,
    weight_out: int,
    amount_out: int,
    swap_fee: int,
)
    requires
        balance_in >= 0,
        balance_out > 0,
        weight_in > 0,
        weight_out > 0,
        0 <= amount_out < balance_out,
        0 <= swap_fee < BONE,
        in_given_out_spec(balance_in, weight_in, balance_out, weight_out, amount_out, swap_fee)
            is Ok,
        not_below_power(
            pow_spec(
                in_given_out_base(balance_out, amount_out),
                ceil_div(weight_out * BONE, weight_in),
            )->Ok_0,
            in_given_out_base(balance_out, amount_out),
            weight_out as nat,
            weight_in as nat,
        ),
    ensures
        ({
            let amount_in = in_given_out_spec(
                balance_in,
                weight_in,
                balance_out,
                weight_out,
                amount_out,
                swap_fee,
            )->Ok_0;
            &&& 0 <= amount_in
            &&& pow(balance_in + amount_in, weight_in as nat) * pow(
                balance_out - amount_out,
                weight_out as nat,
            ) >= pow(balance_in, weight_in as nat) * pow(balance_out, weight_out as nat)
        }),
{
    let keep = BONE - swap_fee;
    let shrunk = balance_out - amount_out;
    let base = in_given_out_base(balance_out, amount_out);
    let power = pow_spec(base, ceil_div(weight_out * BONE, weight_in))->Ok_0;
    let before_fee = ceil_div(balance_in * (power - BONE), BONE as int);
    let amount_in = ceil_div(before_fee * BONE, keep);
    let grown = balance_in + before_fee;
    let wi = weight_in as nat;
    let wo = weight_out as nat;
    lemma_signs();
    lemma_floor_div(balance_out * BONE, shrunk);
    assert(balance_in * (power - BONE) >= 0);
    lemma_floor_div(balance_in * (power - BONE), BONE as int);
    assert(before_fee >= 0);
    assert(before_fee * BONE >= 0);
    lemma_floor_div(before_fee * BONE, keep);
    assert(amount_in >= before_fee) by (nonlinear_arith)
        requires
            amount_in * keep >= before_fee * BONE,
            0 < keep <= BONE,
            before_fee >= 0,
            amount_in >= 0,
    {
        assert(amount_in * BONE >= amount_in * keep);
    }
    // the reserve coming in grows at least in the measure of the power
    assert(grown * BONE >= balance_in * power) by (nonlinear_arith)
        requires
            grown == balance_in + before_fee,
            before_fee * BONE >= balance_in * (power - BONE),
    ;
    assert(balance_in * power >= 0 && balance_out * BONE >= 0 && base >= 0);
    lemma_pow_base(balance_in * power, grown * BONE, wi);
    vstd::arithmetic::power::lemma_pow_distributes(grown, BONE as int, wi);
    vstd::arithmetic::power::lemma_pow_distributes(balance_in, power, wi);
    lemma_pow_base(balance_out * BONE, base * shrunk, wo);
    vstd::arithmetic::power::lemma_pow_distributes(base, shrunk, wo);
    vstd::arithmetic::power::lemma_pow_distributes(balance_out, BONE as int, wo);
    vstd::arithmetic::power::lemma_pow_positive(BONE as int, wo);
    vstd::arithmetic::power::lemma_pow_positive(BONE as int, wi);
    lemma_pow_base(0, grown, wi);
    lemma_pow_base(0, balance_in, wi);
    lemma_pow_base(0, power, wi);
    lemma_pow_base(0, base, wo);
    lemma_pow_base(0, balance_out, wo);
    lemma_pow_base(0, shrunk, wo);
    lemma_pow_base(grown, balance_in + amount_in, wi);
    // grown^wi * BONE^wi >= balance_in^wi * power^wi,
    // base^wo * shrunk^wo >= balance_out^wo * BONE^wo,
    // power^wi * BONE^wo >= base^wo * BONE^wi
    lemma_chain(
        pow(grown, wi),
        pow(BONE as int, wi),
        pow(balance_in, wi),
        pow(power, wi),
        pow(BONE as int, wo),
        pow(base, wo),
        pow(shrunk, wo),
        pow(balance_out, wo),
    );
    assert(pow(balance_in + amount_in, wi) * pow(shrunk, wo) >= pow(balance_in, wi) * pow(
        balance_out,
        wo,
    )) by (nonlinear_arith)
        requires
            pow(grown, wi) * pow(shrunk, wo) >= pow(balance_in, wi) * pow(balance_out, wo),
            pow(balance_in + amount_in, wi) >= pow(grown, wi),
            pow(shrunk, wo) >= 0,
    {
        assert(pow(balance_in + amount_in, wi) * pow(shrunk, wo) >= pow(grown, wi) * pow(
            shrunk,
            wo,
        ));
    }
}

} // verus!
