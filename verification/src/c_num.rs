use vstd::prelude::*;
use vstd::arithmetic::div_mod::lemma_fundamental_div_mod;
use vstd::arithmetic::div_mod::lemma_fundamental_div_mod_converse;
use vstd::arithmetic::div_mod::lemma_mod_bound;
use crate::c_consts::BONE;
use crate::c_consts::CPOW_PRECISION;
use crate::c_consts::MAX_CPOW_BASE;
use crate::c_consts::MAX_CPOW_TERMS;
use crate::c_consts::MIN_CPOW_BASE;
use crate::c_pool::error::Error;

verus! {

/// Whether `v` is a signed 128-bit value.
pub open spec fn fits(v: int) -> bool {
    i128::MIN <= v <= i128::MAX
}

/// The result of an executable fixed-point operation as a mathematical one.
pub open spec fn widen(r: Result<i128, Error>) -> Result<int, Error> {
    match r {
        Ok(v) => Ok(v as int),
        Err(e) => Err(e),
    }
}

/// The absolute value of `v`.
pub open spec fn magnitude(v: int) -> int {
    if v >= 0 {
        v
    } else {
        -v
    }
}

/// Whether `n / d` is zero or positive.
pub open spec fn same_sign(n: int, d: int) -> bool {
    (n >= 0) == (d > 0)
}

/// `n / d` rounded up, for `n >= 0` and `d > 0`.
pub open spec fn ceil_nat(n: int, d: int) -> int
    recommends
        n >= 0,
        d > 0,
{
    (n + d - 1) / d
}

/// `n / d` rounded toward zero, for a non-zero `d`.
pub open spec fn trunc_div(n: int, d: int) -> int
    recommends
        d != 0,
{
    if same_sign(n, d) {
        magnitude(n) / magnitude(d)
    } else {
        -(magnitude(n) / magnitude(d))
    }
}

/// `n / d` rounded toward negative infinity, for a non-zero `d`.
pub open spec fn floor_div(n: int, d: int) -> int
    recommends
        d != 0,
{
    if same_sign(n, d) {
        magnitude(n) / magnitude(d)
    } else {
        -ceil_nat(magnitude(n), magnitude(d))
    }
}

/// `n / d` rounded toward positive infinity, for a non-zero `d`.
pub open spec fn ceil_div(n: int, d: int) -> int
    recommends
        d != 0,
{
    if same_sign(n, d) {
        ceil_nat(magnitude(n), magnitude(d))
    } else {
        -(magnitude(n) / magnitude(d))
    }
}

/// `n / d` rounded to the nearest integer, a tie away from zero, for a
/// non-zero `d`.
pub open spec fn nearest_div(n: int, d: int) -> int
    recommends
        d != 0,
{
    if same_sign(n, d) {
        (2 * magnitude(n) + magnitude(d)) / (2 * magnitude(d))
    } else {
        -((2 * magnitude(n) + magnitude(d)) / (2 * magnitude(d)))
    }
}

/// The fixed-point product `a * b / BONE`, rounded to nearest.
pub open spec fn mul_spec(a: int, b: int) -> Result<int, Error> {
    if !fits(a * b) {
        Err(Error::ArithmeticOverflow)
    } else {
        Ok(nearest_div(a * b, BONE as int))
    }
}

/// The fixed-point product `a * b / BONE`, rounded down.
pub open spec fn mul_floor_spec(a: int, b: int) -> Result<int, Error> {
    if !fits(a * b) {
        Err(Error::ArithmeticOverflow)
    } else {
        Ok(floor_div(a * b, BONE as int))
    }
}

/// The fixed-point product `a * b / BONE`, rounded up.
pub open spec fn mul_ceil_spec(a: int, b: int) -> Result<int, Error> {
    if !fits(a * b) {
        Err(Error::ArithmeticOverflow)
    } else {
        Ok(ceil_div(a * b, BONE as int))
    }
}

/// The fixed-point quotient `a * BONE / b`, rounded toward zero.
pub open spec fn div_spec(a: int, b: int) -> Result<int, Error> {
    if b == 0 {
        Err(Error::DivisionByZero)
    } else if !fits(a * BONE) {
        Err(Error::ArithmeticOverflow)
    } else {
        Ok(trunc_div(a * BONE, b))
    }
}

/// The fixed-point quotient `a * BONE / b`, rounded down.
pub open spec fn div_floor_spec(a: int, b: int) -> Result<int, Error> {
    if b == 0 {
        Err(Error::DivisionByZero)
    } else if !fits(a * BONE) {
        Err(Error::ArithmeticOverflow)
    } else {
        Ok(floor_div(a * BONE, b))
    }
}

/// The fixed-point quotient `a * BONE / b`, rounded up.
pub open spec fn div_ceil_spec(a: int, b: int) -> Result<int, Error> {
    if b == 0 {
        Err(Error::DivisionByZero)
    } else if !fits(a * BONE) {
        Err(Error::ArithmeticOverflow)
    } else {
        Ok(ceil_div(a * BONE, b))
    }
}

/// Rounding up and rounding to nearest, read off the quotient and remainder
/// of the division that rounds down.
pub proof fn lemma_roundings(n: int, d: int)
    requires
        n >= 0,
        d > 0,
    ensures
        0 <= n % d < d,
        n == (n / d) * d + n % d,
        0 <= n / d <= n,
        n % d > 0 || d >= 2 ==> 2 * (n / d) <= n,
        ceil_nat(n, d) == if n % d > 0 { n / d + 1 } else { n / d },
        (2 * n + d) / (2 * d) == if 2 * (n % d) >= d { n / d + 1 } else { n / d },
{
    let q = n / d;
    let r = n % d;
    lemma_fundamental_div_mod(n, d);
    lemma_mod_bound(n, d);
    assert(n == q * d + r) by (nonlinear_arith)
        requires
            n == d * q + r,
    ;
    assert(0 <= q <= n) by (nonlinear_arith)
        requires
            n == q * d + r,
            0 <= r < d,
            n >= 0,
            d > 0,
    ;
    if r > 0 || d >= 2 {
        assert(2 * q <= n) by (nonlinear_arith)
            requires
                n == q * d + r,
                0 <= r < d,
                r > 0 || d >= 2,
                q >= 0,
        ;
    }
    if r > 0 {
        assert(n + d - 1 == (q + 1) * d + (r - 1)) by (nonlinear_arith)
            requires
                n == q * d + r,
        ;
        lemma_fundamental_div_mod_converse(n + d - 1, d, q + 1, r - 1);
    } else {
        assert(n + d - 1 == q * d + (d - 1)) by (nonlinear_arith)
            requires
                n == q * d + r,
                r == 0,
        ;
        lemma_fundamental_div_mod_converse(n + d - 1, d, q, d - 1);
    }
    if 2 * r >= d {
        assert(2 * n + d == (q + 1) * (2 * d) + (2 * r - d)) by (nonlinear_arith)
            requires
                n == q * d + r,
        ;
        lemma_fundamental_div_mod_converse(2 * n + d, 2 * d, q + 1, 2 * r - d);
    } else {
        assert(2 * n + d == q * (2 * d) + (2 * r + d)) by (nonlinear_arith)
            requires
                n == q * d + r,
        ;
        lemma_fundamental_div_mod_converse(2 * n + d, 2 * d, q, 2 * r + d);
    }
}

/// Rounding down is the division of the integers, for a positive divisor.
pub proof fn lemma_floor_div(n: int, d: int)
    requires
        d > 0,
    ensures
        floor_div(n, d) == n / d,
        ceil_div(n, d) == if n % d == 0 { n / d } else { n / d + 1 },
        floor_div(n, d) * d <= n < (floor_div(n, d) + 1) * d,
        (ceil_div(n, d) - 1) * d < n <= ceil_div(n, d) * d,
{
    lemma_fundamental_div_mod(n, d);
    lemma_mod_bound(n, d);
    let q = n / d;
    let r = n % d;
    assert(n == q * d + r && (q + 1) * d == q * d + d && (q - 1) * d == q * d - d)
        by (nonlinear_arith)
        requires
            n == d * q + r,
    ;
    if n >= 0 {
        lemma_roundings(n, d);
    } else {
        let m = -n;
        lemma_roundings(m, d);
        let mq = m / d;
        let mr = m % d;
        if mr > 0 {
            assert(n == (-mq - 1) * d + (d - mr)) by (nonlinear_arith)
                requires
                    -n == mq * d + mr,
            ;
            lemma_fundamental_div_mod_converse(n, d, -mq - 1, d - mr);
        } else {
            assert(n == (-mq) * d + 0) by (nonlinear_arith)
                requires
                    -n == mq * d + mr,
                    mr == 0,
            ;
            lemma_fundamental_div_mod_converse(n, d, -mq, 0);
        }
    }
}

/// Nothing negative comes of what is not negative: not a product, and not a
/// quotient by a positive divisor, however it is rounded.
pub proof fn lemma_signs()
    ensures
        forall|a: int, b: int| a >= 0 && b >= 0 ==> #[trigger] (a * b) >= 0,
        forall|n: int, d: int| n >= 0 && d > 0 ==> #[trigger] floor_div(n, d) >= 0,
        forall|n: int, d: int| n >= 0 && d > 0 ==> #[trigger] ceil_div(n, d) >= 0,
        forall|n: int, d: int| n >= 0 && d > 0 ==> #[trigger] trunc_div(n, d) >= 0,
        forall|n: int, d: int| n >= 0 && d > 0 ==> #[trigger] nearest_div(n, d) >= 0,
{
    assert forall|a: int, b: int| a >= 0 && b >= 0 implies #[trigger] (a * b) >= 0 by {
        assert(a * b >= 0) by (nonlinear_arith)
            requires
                a >= 0,
                b >= 0,
        ;
    }
    assert forall|n: int, d: int| n >= 0 && d > 0 implies #[trigger] floor_div(n, d) >= 0 by {
        lemma_roundings(n, d);
    }
    assert forall|n: int, d: int| n >= 0 && d > 0 implies #[trigger] ceil_div(n, d) >= 0 by {
        lemma_roundings(n, d);
    }
    assert forall|n: int, d: int| n >= 0 && d > 0 implies #[trigger] trunc_div(n, d) >= 0 by {
        lemma_roundings(n, d);
    }
    assert forall|n: int, d: int| n >= 0 && d > 0 implies #[trigger] nearest_div(n, d) >= 0 by {
        lemma_roundings(n, d);
    }
}

/// The absolute value of `v`.
fn abs_of(v: i128) -> (m: u128)
    ensures
        m == magnitude(v as int),
{
    if v >= 0 {
        v as u128
    } else {
        let w: i128 = -(v + 1);
        (w as u128) + 1
    }
}

/// The signed value whose absolute value is `m`.
fn signed(negative: bool, m: u128) -> (v: i128)
    requires
        m <= i128::MAX,
    ensures
        v == if negative { -(m as int) } else { m as int },
{
    let w: i128 = m as i128;
    if negative {
        -w
    } else {
        w
    }
}

/// How a quotient that was rounded toward zero is adjusted.
#[derive(Clone, Copy, Debug, PartialEq, Eq, Structural)]
pub enum Rounding {
    /// Toward zero.
    Truncate,
    /// Toward negative infinity.
    Floor,
    /// Toward positive infinity.
    Ceil,
    /// To the nearest integer, a tie away from zero.
    Nearest,
}

/// `n / d` rounded as `mode` says.
pub open spec fn rounded_div(n: int, d: int, mode: Rounding) -> int
    recommends
        d != 0,
{
    match mode {
        Rounding::Truncate => trunc_div(n, d),
        Rounding::Floor => floor_div(n, d),
        Rounding::Ceil => ceil_div(n, d),
        Rounding::Nearest => nearest_div(n, d),
    }
}

/// Divides `n` by `d` and rounds as `mode` says. The quotient of two signed
/// 128-bit values is one itself unless it is `-i128::MIN`.
fn divide(n: i128, d: i128, mode: Rounding) -> (q: i128)
    requires
        d != 0,
        n > i128::MIN || (d != 1 && d != -1),
    ensures
        q == rounded_div(n as int, d as int, mode),
{
    let nm: u128 = abs_of(n);
    let dm: u128 = abs_of(d);
    let quot: u128 = nm / dm;
    let rem: u128 = nm % dm;
    proof {
        lemma_roundings(nm as int, dm as int);
    }
    let positive: bool = (n >= 0) == (d > 0);
    let away: bool = match mode {
        Rounding::Truncate => false,
        Rounding::Floor => !positive && rem > 0,
        Rounding::Ceil => positive && rem > 0,
        Rounding::Nearest => rem >= dm - rem,
    };
    let m: u128 = if away {
        quot + 1
    } else {
        quot
    };
    signed(!positive, m)
}

/// Fixed-point multiplication, rounded to nearest: `a * b / BONE`.
///
/// Fails with `ArithmeticOverflow` exactly when `a * b` is no signed 128-bit
/// value.
pub fn c_mul(a: i128, b: i128) -> (r: Result<i128, Error>)
    ensures
        widen(r) == mul_spec(a as int, b as int),
{
    scaled_mul(a, b, Rounding::Nearest)
}

/// Fixed-point multiplication, rounded down: `floor(a * b / BONE)`.
///
/// Fails with `ArithmeticOverflow` exactly when `a * b` is no signed 128-bit
/// value.
pub fn c_mul_floor(a: i128, b: i128) -> (r: Result<i128, Error>)
    ensures
        widen(r) == mul_floor_spec(a as int, b as int),
{
    scaled_mul(a, b, Rounding::Floor)
}

/// Fixed-point multiplication, rounded up: `ceil(a * b / BONE)`.
///
/// Fails with `ArithmeticOverflow` exactly when `a * b` is no signed 128-bit
/// value.
pub fn c_mul_ceil(a: i128, b: i128) -> (r: Result<i128, Error>)
    ensures
        widen(r) == mul_ceil_spec(a as int, b as int),
{
    scaled_mul(a, b, Rounding::Ceil)
}

/// Fixed-point division, rounded toward zero: `a * BONE / b`.
///
/// Fails with `DivisionByZero` exactly when `b` is zero, and otherwise with
/// `ArithmeticOverflow` exactly when `a * BONE` is no signed 128-bit value.
pub fn c_div(a: i128, b: i128) -> (r: Result<i128, Error>)
    ensures
        widen(r) == div_spec(a as int, b as int),
{
    scaled_div(a, b, Rounding::Truncate)
}

/// Fixed-point division, rounded down: `floor(a * BONE / b)`.
///
/// Fails with `DivisionByZero` exactly when `b` is zero, and otherwise with
/// `ArithmeticOverflow` exactly when `a * BONE` is no signed 128-bit value.
pub fn c_div_floor(a: i128, b: i128) -> (r: Result<i128, Error>)
    ensures
        widen(r) == div_floor_spec(a as int, b as int),
{
    scaled_div(a, b, Rounding::Floor)
}

/// Fixed-point division, rounded up: `ceil(a * BONE / b)`.
///
/// Fails with `DivisionByZero` exactly when `b` is zero, and otherwise with
/// `ArithmeticOverflow` exactly when `a * BONE` is no signed 128-bit value.
pub fn c_div_ceil(a: i128, b: i128) -> (r: Result<i128, Error>)
    ensures
        widen(r) == div_ceil_spec(a as int, b as int),
{
    scaled_div(a, b, Rounding::Ceil)
}

/// The quotient `n / d` of two integers, rounded as `mode` says.
pub open spec fn int_div_spec(n: int, d: int, mode: Rounding) -> Result<int, Error> {
    if d == 0 {
        Err(Error::DivisionByZero)
    } else if !fits(rounded_div(n, d, mode)) {
        Err(Error::ArithmeticOverflow)
    } else {
        Ok(rounded_div(n, d, mode))
    }
}

/// Division of two integers, rounded as `mode` says.
///
/// Fails with `DivisionByZero` exactly when `d` is zero, and otherwise with
/// `ArithmeticOverflow` exactly when the quotient is no signed 128-bit value.
pub fn c_int_div(n: i128, d: i128, mode: Rounding) -> (r: Result<i128, Error>)
    ensures
        widen(r) == int_div_spec(n as int, d as int, mode),
{
    if d == 0 {
        Err(Error::DivisionByZero)
    } else if d == 1 {
        proof {
            lemma_roundings(magnitude(n as int), 1);
        }
        Ok(n)
    } else if n == i128::MIN && d == -1 {
        proof {
            lemma_roundings(-(n as int), 1);
        }
        Err(Error::ArithmeticOverflow)
    } else {
        Ok(divide(n, d, mode))
    }
}

/// The quotient `a * b / d`, rounded as `mode` says.
pub open spec fn mul_div_spec(a: int, b: int, d: int, mode: Rounding) -> Result<int, Error> {
    if d == 0 {
        Err(Error::DivisionByZero)
    } else if !fits(a * b) {
        Err(Error::ArithmeticOverflow)
    } else {
        int_div_spec(a * b, d, mode)
    }
}

/// The fraction `b / d` of `a`: `a * b / d`, rounded once, as `mode` says.
///
/// Fails with `DivisionByZero` exactly when `d` is zero, and otherwise with
/// `ArithmeticOverflow` exactly when `a * b` or the quotient is no signed
/// 128-bit value.
pub fn c_mul_div(a: i128, b: i128, d: i128, mode: Rounding) -> (r: Result<i128, Error>)
    ensures
        widen(r) == mul_div_spec(a as int, b as int, d as int, mode),
{
    if d == 0 {
        return Err(Error::DivisionByZero);
    }
    match a.checked_mul(b) {
        None => Err(Error::ArithmeticOverflow),
        Some(p) => c_int_div(p, d, mode),
    }
}

/// `a * b / BONE` with the rounding that `mode` names.
fn scaled_mul(a: i128, b: i128, mode: Rounding) -> (r: Result<i128, Error>)
    ensures
        !fits(a * b) ==> r == Err::<i128, Error>(Error::ArithmeticOverflow),
        fits(a * b) ==> widen(r) == Ok::<int, Error>(rounded_div(a * b, BONE as int, mode)),
{
    match a.checked_mul(b) {
        None => Err(Error::ArithmeticOverflow),
        Some(p) => Ok(divide(p, BONE, mode)),
    }
}

/// `a * BONE / b` with the rounding that `mode` names.
fn scaled_div(a: i128, b: i128, mode: Rounding) -> (r: Result<i128, Error>)
    ensures
        b == 0 ==> r == Err::<i128, Error>(Error::DivisionByZero),
        b != 0 && !fits(a * BONE) ==> r == Err::<i128, Error>(Error::ArithmeticOverflow),
        b != 0 && fits(a * BONE) ==> widen(r) == Ok::<int, Error>(
            rounded_div(a * BONE, b as int, mode),
        ),
{
    if b == 0 {
        return Err(Error::DivisionByZero);
    }
    match a.checked_mul(BONE) {
        None => Err(Error::ArithmeticOverflow),
        Some(n) => {
            // no multiple of 10^7 is -2^127
            assert(n > i128::MIN);
            Ok(divide(n, b, mode))
        },
    }
}

/// The sum `a + b`.
pub open spec fn add_spec(a: int, b: int) -> Result<int, Error> {
    if !fits(a + b) {
        Err(Error::ArithmeticOverflow)
    } else {
        Ok(a + b)
    }
}

/// The difference `a - b`.
pub open spec fn sub_spec(a: int, b: int) -> Result<int, Error> {
    if !fits(a - b) {
        Err(Error::ArithmeticOverflow)
    } else {
        Ok(a - b)
    }
}

/// Addition. Fails with `ArithmeticOverflow` exactly when `a + b` is no
/// signed 128-bit value.
pub fn c_add(a: i128, b: i128) -> (r: Result<i128, Error>)
    ensures
        widen(r) == add_spec(a as int, b as int),
{
    match a.checked_add(b) {
        Some(v) => Ok(v),
        None => Err(Error::ArithmeticOverflow),
    }
}

/// Subtraction. Fails with `ArithmeticOverflow` exactly when `a - b` is no
/// signed 128-bit value.
pub fn c_sub(a: i128, b: i128) -> (r: Result<i128, Error>)
    ensures
        widen(r) == sub_spec(a as int, b as int),
{
    match a.checked_sub(b) {
        Some(v) => Ok(v),
        None => Err(Error::ArithmeticOverflow),
    }
}

/// `base` to the whole power `n` by squaring, each product a fixed-point
/// multiplication rounded up: the power `0` is one unit, an even power is the
/// square of the half power, an odd power is `base` times the power below
/// it.
pub open spec fn powi_spec(base: int, n: nat) -> Result<int, Error>
    decreases n,
{
    if n == 0 {
        Ok(BONE as int)
    } else if n % 2 == 0 {
        match powi_spec(base, n / 2) {
            Ok(half) => mul_ceil_spec(half, half),
            Err(e) => Err(e),
        }
    } else {
        match powi_spec(base, (n - 1) as nat) {
            Ok(below) => mul_ceil_spec(below, base),
            Err(e) => Err(e),
        }
    }
}

/// The size of the `k`-th term of the binomial series of `(1 + x)^a`, from
/// the size `term` of the term before it and the size `u` of `x`:
/// `term * |a - (k - 1)| * u / k`, rounded as `mode` says.
pub open spec fn next_term_spec(term: int, a: int, k: int, u: int, mode: Rounding) -> Result<
    int,
    Error,
> {
    let factor = magnitude(a - (k - 1) * BONE);
    if !fits(term * factor) {
        Err(Error::ArithmeticOverflow)
    } else {
        mul_div_spec(term * factor, u, k * BONE * BONE, mode)
    }
}

/// What is left of the series of a base below one unit, `(1 - u)^a`, once
/// the terms before the `k`-th are taken from `sum`, the last of them of the
/// size `term`. Every term after the first is negative, and its size is
/// rounded down, so that no sum is below the exact power. The series ends
/// with the first term smaller than `CPOW_PRECISION`, and after `left` more
/// terms at the latest.
pub open spec fn series_below_spec(u: int, a: int, k: int, term: int, sum: int, left: nat) -> Result<
    int,
    Error,
>
    decreases left,
{
    if left == 0 || term < CPOW_PRECISION {
        Ok(sum)
    } else {
        match next_term_spec(term, a, k, u, Rounding::Floor) {
            Err(e) => Err(e),
            Ok(next) => match sub_spec(sum, next) {
                Err(e) => Err(e),
                Ok(rest) => series_below_spec(u, a, k + 1, next, rest, (left - 1) as nat),
            },
        }
    }
}

/// What is left of the series of a base above one unit, `(1 + u)^a`, once
/// the terms before the `k`-th are summed up in `sum`, the last of them
/// positive. From there the terms come in pairs, a negative one and a
/// positive one. The size of the last term is at most `high` and at least
/// `low`; a negative term counts with its size rounded down, a positive one
/// with its size rounded up, so that no sum is below the exact power. The
/// series ends before the first negative term smaller than `CPOW_PRECISION`,
/// and after `left` more pairs at the latest.
pub open spec fn series_above_spec(
    u: int,
    a: int,
    k: int,
    high: int,
    low: int,
    sum: int,
    left: nat,
) -> Result<int, Error>
    decreases left,
{
    if left == 0 {
        Ok(sum)
    } else {
        match next_term_spec(low, a, k, u, Rounding::Floor) {
            Err(e) => Err(e),
            Ok(taken) => if taken < CPOW_PRECISION {
                Ok(sum)
            } else {
                match next_term_spec(high, a, k, u, Rounding::Ceil) {
                    Err(e) => Err(e),
                    Ok(taken_high) => match next_term_spec(
                        taken_high,
                        a,
                        k + 1,
                        u,
                        Rounding::Ceil,
                    ) {
                        Err(e) => Err(e),
                        Ok(added) => match next_term_spec(taken, a, k + 1, u, Rounding::Floor) {
                            Err(e) => Err(e),
                            Ok(added_low) => match sub_spec(sum, taken) {
                                Err(e) => Err(e),
                                Ok(less) => match add_spec(less, added) {
                                    Err(e) => Err(e),
                                    Ok(more) => series_above_spec(
                                        u,
                                        a,
                                        k + 2,
                                        added,
                                        added_low,
                                        more,
                                        (left - 1) as nat,
                                    ),
                                },
                            },
                        },
                    },
                }
            },
        }
    }
}

/// How many pairs of terms the series of a base above one unit has at most.
pub open spec fn max_pairs() -> nat {
    ((MAX_CPOW_TERMS - 1) / 2) as nat
}

/// `base` to the fractional power `exp`, by the binomial series of
/// `(1 + x)^a` with `x = base - BONE` and `a = exp`, never below the exact
/// power.
pub open spec fn pow_approx_spec(base: int, exp: int) -> Result<int, Error> {
    if base == BONE {
        Ok(BONE as int)
    } else if base < BONE {
        series_below_spec(BONE - base, exp, 1, BONE as int, BONE as int, MAX_CPOW_TERMS as nat)
    } else {
        match next_term_spec(BONE as int, exp, 1, base - BONE, Rounding::Ceil) {
            Err(e) => Err(e),
            Ok(high) => match next_term_spec(BONE as int, exp, 1, base - BONE, Rounding::Floor) {
                Err(e) => Err(e),
                Ok(low) => match add_spec(BONE as int, high) {
                    Err(e) => Err(e),
                    Ok(sum) => series_above_spec(base - BONE, exp, 2, high, low, sum, max_pairs()),
                },
            },
        }
    }
}

/// Whether `c_pow` accepts `base`.
pub open spec fn pow_base_in_range(base: int) -> bool {
    MIN_CPOW_BASE <= base <= MAX_CPOW_BASE
}

/// `base` to the power `exp`: the whole part of `exp` by squaring, the
/// fractional part by the binomial series, and the product of the two,
/// rounded up.
pub open spec fn pow_spec(base: int, exp: int) -> Result<int, Error> {
    if !pow_base_in_range(base) || exp < 0 {
        Err(Error::OutOfBounds)
    } else {
        match powi_spec(base, (exp / BONE as int) as nat) {
            Err(e) => Err(e),
            Ok(whole) => if exp % BONE as int == 0 {
                Ok(whole)
            } else {
                match pow_approx_spec(base, exp % BONE as int) {
                    Err(e) => Err(e),
                    Ok(partial) => mul_ceil_spec(whole, partial),
                }
            },
        }
    }
}

/// `base` to the whole power `n`, by squaring, every product rounded up.
///
/// Fails with `ArithmeticOverflow` exactly when one of the products does.
pub fn c_powi(base: i128, n: u128) -> (r: Result<i128, Error>)
    ensures
        widen(r) == powi_spec(base as int, n as nat),
    decreases n,
{
    if n == 0 {
        Ok(BONE)
    } else if n % 2 == 0 {
        match c_powi(base, n / 2) {
            Ok(half) => c_mul_ceil(half, half),
            Err(e) => Err(e),
        }
    } else {
        match c_powi(base, n - 1) {
            Ok(below) => c_mul_ceil(below, base),
            Err(e) => Err(e),
        }
    }
}

/// The size of the `k`-th term of the series from the size of the term
/// before it.
fn next_term(term: i128, a: i128, k: u32, u: i128, mode: Rounding) -> (r: Result<i128, Error>)
    requires
        0 <= a < BONE,
        1 <= k <= MAX_CPOW_TERMS + 1,
    ensures
        widen(r) == next_term_spec(term as int, a as int, k as int, u as int, mode),
{
    let index: i128 = k as i128;
    let signed_factor: i128 = a - (index - 1) * BONE;
    let factor: i128 = if signed_factor < 0 {
        -signed_factor
    } else {
        signed_factor
    };
    match term.checked_mul(factor) {
        None => Err(Error::ArithmeticOverflow),
        Some(product) => {
            assert(index * BONE * BONE == index * 100_000_000_000_000) by (nonlinear_arith);
            c_mul_div(product, u, index * BONE * BONE, mode)
        },
    }
}

/// `base` to the fractional power `exp`, by the binomial series.
fn c_pow_approx(base: i128, exp: i128) -> (r: Result<i128, Error>)
    requires
        pow_base_in_range(base as int),
        0 <= exp < BONE,
    ensures
        widen(r) == pow_approx_spec(base as int, exp as int),
{
    if base == BONE {
        return Ok(BONE);
    }
    if base < BONE {
        let u: i128 = BONE - base;
        let mut term: i128 = BONE;
        let mut sum: i128 = BONE;
        let mut k: u32 = 1;
        while k <= MAX_CPOW_TERMS && term >= CPOW_PRECISION
            invariant
                1 <= k <= MAX_CPOW_TERMS + 1,
                u == BONE - base,
                0 <= exp < BONE,
                series_below_spec(
                    u as int,
                    exp as int,
                    k as int,
                    term as int,
                    sum as int,
                    (MAX_CPOW_TERMS + 1 - k) as nat,
                ) == pow_approx_spec(base as int, exp as int),
            decreases MAX_CPOW_TERMS + 1 - k,
        {
            let next: i128 = next_term(term, exp, k, u, Rounding::Floor)?;
            sum = c_sub(sum, next)?;
            term = next;
            k = k + 1;
        }
        return Ok(sum);
    }
    let u: i128 = base - BONE;
    let mut high: i128 = next_term(BONE, exp, 1, u, Rounding::Ceil)?;
    let mut low: i128 = next_term(BONE, exp, 1, u, Rounding::Floor)?;
    let mut sum: i128 = c_add(BONE, high)?;
    let mut k: u32 = 2;
    let mut left: u32 = (MAX_CPOW_TERMS - 1) / 2;
    while left > 0
        invariant
            k + 2 * left == MAX_CPOW_TERMS + 1,
            2 <= k,
            u == base - BONE,
            0 <= exp < BONE,
            series_above_spec(
                u as int,
                exp as int,
                k as int,
                high as int,
                low as int,
                sum as int,
                left as nat,
            ) == pow_approx_spec(base as int, exp as int),
        decreases left,
    {
        let taken: i128 = next_term(low, exp, k, u, Rounding::Floor)?;
        if taken < CPOW_PRECISION {
            return Ok(sum);
        }
        let taken_high: i128 = next_term(high, exp, k, u, Rounding::Ceil)?;
        let added: i128 = next_term(taken_high, exp, k + 1, u, Rounding::Ceil)?;
        let added_low: i128 = next_term(taken, exp, k + 1, u, Rounding::Floor)?;
        let less: i128 = c_sub(sum, taken)?;
        sum = c_add(less, added)?;
        high = added;
        low = added_low;
        k = k + 2;
        left = left - 1;
    }
    Ok(sum)
}

/// `base` to the power `exp`, both in fixed point: the whole part of the
/// exponent by squaring, the fractional part by the binomial series, every
/// step rounded up.
///
/// Fails with `OutOfBounds` exactly when `base` is outside
/// `MIN_CPOW_BASE ..= MAX_CPOW_BASE` or `exp` is negative, and otherwise with
/// `ArithmeticOverflow` exactly when a product of `pow_spec` leaves the
/// 128-bit range, which none does for an exponent of up to one unit.
pub fn c_pow(base: i128, exp: i128) -> (r: Result<i128, Error>)
    ensures
        widen(r) == pow_spec(base as int, exp as int),
        pow_base_in_range(base as int) && 0 <= exp <= BONE ==> r is Ok,
        r matches Err(e) ==> e == Error::OutOfBounds || e == Error::ArithmeticOverflow,
{
    proof {
        if pow_base_in_range(base as int) && 0 <= exp <= BONE {
            lemma_pow_fraction(base as int, exp as int);
        }
        if pow_base_in_range(base as int) && 0 <= exp {
            lemma_pow_errors(base as int, exp as int);
        }
    }
    if base < MIN_CPOW_BASE || base > MAX_CPOW_BASE || exp < 0 {
        return Err(Error::OutOfBounds);
    }
    let e: u128 = exp as u128;
    let b: u128 = BONE as u128;
    let whole_exp: u128 = e / b;
    let remain: i128 = (e % b) as i128;
    let whole: i128 = c_powi(base, whole_exp)?;
    if remain == 0 {
        return Ok(whole);
    }
    let partial: i128 = c_pow_approx(base, remain)?;
    c_mul_ceil(whole, partial)
}

/// A multiple divides without a remainder, however the quotient is rounded.
pub proof fn lemma_exact_div(q: int, d: int)
    requires
        d > 0,
    ensures
        floor_div(q * d, d) == q,
        ceil_div(q * d, d) == q,
        trunc_div(q * d, d) == q,
        nearest_div(q * d, d) == q,
{
    let m = magnitude(q);
    assert(magnitude(q * d) == m * d) by (nonlinear_arith)
        requires
            d > 0,
            m == magnitude(q),
    ;
    assert(m * d >= 0) by (nonlinear_arith)
        requires
            m >= 0,
            d > 0,
    ;
    lemma_fundamental_div_mod_converse(m * d, d, m, 0);
    lemma_roundings(m * d, d);
    assert((q * d >= 0) == (q >= 0)) by (nonlinear_arith)
        requires
            d > 0,
    ;
}

/// The power zero of a base is one unit, and the power one of a base is the
/// base.
pub proof fn lemma_pow_one(base: int)
    requires
        pow_base_in_range(base),
    ensures
        pow_spec(base, 0) == Ok::<int, Error>(BONE as int),
        pow_spec(base, BONE as int) == Ok::<int, Error>(base),
{
    reveal_with_fuel(powi_spec, 3);
    assert(BONE * base == base * BONE) by (nonlinear_arith);
    lemma_exact_div(base, BONE as int);
    assert(fits(BONE * base)) by (nonlinear_arith)
        requires
            1 <= base <= 19_999_999,
    ;
}

/// A quotient is no larger than its dividend allows: where the dividend is
/// at most `k` times the divisor, the quotient is at most `k`, however it is
/// rounded.
pub proof fn lemma_div_bound(n: int, d: int, k: int)
    requires
        d > 0,
        k >= 0,
        magnitude(n) <= k * d,
    ensures
        magnitude(floor_div(n, d)) <= k,
        magnitude(ceil_div(n, d)) <= k,
        magnitude(trunc_div(n, d)) <= k,
        magnitude(nearest_div(n, d)) <= k,
{
    let m = magnitude(n);
    lemma_roundings(m, d);
    let q = m / d;
    let r = m % d;
    assert(q <= k && (r > 0 ==> q < k)) by (nonlinear_arith)
        requires
            m == q * d + r,
            0 <= r < d,
            m <= k * d,
            q >= 0,
            k >= 0,
    ;
}

/// No term of the series is larger than the term before it, and none
/// fails: with a term of at most one unit, the next is not negative and at
/// most the term.
pub proof fn lemma_next_term(term: int, a: int, k: int, u: int, mode: Rounding)
    requires
        0 <= term <= BONE,
        0 <= a < BONE,
        1 <= k <= MAX_CPOW_TERMS + 1,
        0 < u < BONE,
    ensures
        next_term_spec(term, a, k, u, mode) matches Ok(next) && 0 <= next <= term,
{
    let factor = magnitude(a - (k - 1) * BONE);
    let divisor = k * BONE * BONE;
    assert(0 <= factor <= k * BONE);
    assert(0 <= term * factor <= term * (k * BONE) && term * (k * BONE) <= 256 * BONE * BONE)
        by (nonlinear_arith)
        requires
            0 <= term <= BONE,
            0 <= factor <= k * BONE,
            1 <= k <= 256,
    ;
    assert(0 <= (term * factor) * u <= term * divisor && term * divisor <= 256 * BONE * BONE
        * BONE) by (nonlinear_arith)
        requires
            0 <= term * factor <= term * (k * BONE),
            0 < u < BONE,
            divisor == k * BONE * BONE,
            0 <= term <= BONE,
            1 <= k <= 256,
    {
        assert((term * factor) * u <= (term * (k * BONE)) * BONE);
        assert((term * (k * BONE)) * BONE == term * (k * BONE * BONE));
    }
    assert(divisor > 0) by (nonlinear_arith)
        requires
            divisor == k * BONE * BONE,
            k >= 1,
    ;
    assert(256 * BONE * BONE * BONE <= i128::MAX);
    lemma_div_bound((term * factor) * u, divisor, term);
    lemma_roundings((term * factor) * u, divisor);
}

/// The series of a base below one unit never fails, and its sum is one unit
/// at most.
pub proof fn lemma_series_below(u: int, a: int, k: int, term: int, sum: int, left: nat)
    requires
        0 < u < BONE,
        0 <= a < BONE,
        1 <= k,
        k + left <= MAX_CPOW_TERMS + 1,
        0 <= term <= BONE,
        (1 - k) * BONE <= sum <= BONE,
    ensures
        series_below_spec(u, a, k, term, sum, left) matches Ok(total) && -(MAX_CPOW_TERMS as int)
            * BONE <= total <= BONE,
    decreases left,
{
    assert((1 - k) * BONE >= -255 * BONE && (1 - (k + 1)) * BONE == (1 - k) * BONE - BONE)
        by (nonlinear_arith)
        requires
            1 <= k <= 256,
    ;
    if left == 0 || term < CPOW_PRECISION {
    } else {
        lemma_next_term(term, a, k, u, Rounding::Floor);
        let next = next_term_spec(term, a, k, u, Rounding::Floor)->Ok_0;
        lemma_series_below(u, a, k + 1, next, sum - next, (left - 1) as nat);
    }
}

/// The series of a base above one unit never fails, and its sum is within
/// `MAX_CPOW_TERMS + 1` units of nothing.
pub proof fn lemma_series_above(
    u: int,
    a: int,
    k: int,
    high: int,
    low: int,
    sum: int,
    left: nat,
)
    requires
        0 < u < BONE,
        0 <= a < BONE,
        2 <= k,
        k + 2 * left <= MAX_CPOW_TERMS + 1,
        0 <= high <= BONE,
        0 <= low <= BONE,
        -k * BONE <= sum <= k * BONE,
    ensures
        series_above_spec(u, a, k, high, low, sum, left) matches Ok(total) && -(MAX_CPOW_TERMS + 1)
            * BONE <= total <= (MAX_CPOW_TERMS + 1) * BONE,
    decreases left,
{
    assert(k * BONE <= 256 * BONE && (k + 2) * BONE == k * BONE + 2 * BONE) by (nonlinear_arith)
        requires
            2 <= k <= 256,
    ;
    if left == 0 {
    } else {
        lemma_next_term(low, a, k, u, Rounding::Floor);
        let taken = next_term_spec(low, a, k, u, Rounding::Floor)->Ok_0;
        if taken >= CPOW_PRECISION {
            lemma_next_term(high, a, k, u, Rounding::Ceil);
            let taken_high = next_term_spec(high, a, k, u, Rounding::Ceil)->Ok_0;
            lemma_next_term(taken_high, a, k + 1, u, Rounding::Ceil);
            let added = next_term_spec(taken_high, a, k + 1, u, Rounding::Ceil)->Ok_0;
            lemma_next_term(taken, a, k + 1, u, Rounding::Floor);
            let added_low = next_term_spec(taken, a, k + 1, u, Rounding::Floor)->Ok_0;
            lemma_series_above(
                u,
                a,
                k + 2,
                added,
                added_low,
                sum - taken + added,
                (left - 1) as nat,
            );
        }
    }
}

/// A power with an exponent of up to one unit never fails. It is within
/// `MAX_CPOW_TERMS + 1` units of nothing, and one unit at most for a base of
/// one unit at most.
pub proof fn lemma_pow_fraction(base: int, exp: int)
    requires
        pow_base_in_range(base),
        0 <= exp <= BONE,
    ensures
        pow_spec(base, exp) matches Ok(power) && magnitude(power) <= (MAX_CPOW_TERMS + 1) * BONE
            && (base <= BONE ==> power <= BONE),
{
    lemma_pow_one(base);
    if 0 < exp < BONE {
        reveal_with_fuel(powi_spec, 2);
        assert(exp / (BONE as int) == 0 && exp % (BONE as int) == exp);
        if base < BONE {
            lemma_series_below(
                BONE - base,
                exp,
                1,
                BONE as int,
                BONE as int,
                MAX_CPOW_TERMS as nat,
            );
        } else if base > BONE {
            let u = base - BONE;
            lemma_next_term(BONE as int, exp, 1, u, Rounding::Ceil);
            lemma_next_term(BONE as int, exp, 1, u, Rounding::Floor);
            let high = next_term_spec(BONE as int, exp, 1, u, Rounding::Ceil)->Ok_0;
            let low = next_term_spec(BONE as int, exp, 1, u, Rounding::Floor)->Ok_0;
            lemma_series_above(u, exp, 2, high, low, BONE + high, max_pairs());
        }
        let partial = pow_approx_spec(base, exp)->Ok_0;
        assert(BONE * partial == partial * BONE) by (nonlinear_arith);
        lemma_exact_div(partial, BONE as int);
        assert(fits(BONE * partial)) by (nonlinear_arith)
            requires
                magnitude(partial) <= 256 * BONE,
        ;
    }
}

/// A whole power fails with `ArithmeticOverflow` or not at all.
pub proof fn lemma_powi_errors(base: int, n: nat)
    ensures
        powi_spec(base, n) matches Err(e) ==> e == Error::ArithmeticOverflow,
    decreases n,
{
    if n == 0 {
    } else if n % 2 == 0 {
        lemma_powi_errors(base, n / 2);
    } else {
        lemma_powi_errors(base, (n - 1) as nat);
    }
}

/// A power of a base in the range fails with `ArithmeticOverflow` or not at
/// all.
pub proof fn lemma_pow_errors(base: int, exp: int)
    requires
        pow_base_in_range(base),
        0 <= exp,
    ensures
        pow_spec(base, exp) matches Err(e) ==> e == Error::ArithmeticOverflow,
{
    let whole = (exp / BONE as int) as nat;
    let remain = exp % BONE as int;
    lemma_powi_errors(base, whole);
    if remain != 0 {
        lemma_pow_fraction(base, remain);
        reveal_with_fuel(powi_spec, 2);
        assert(remain / (BONE as int) == 0 && remain % (BONE as int) == remain);
        let partial = pow_approx_spec(base, remain)->Ok_0;
        assert(pow_spec(base, remain) == mul_ceil_spec(BONE as int, partial));
    }
}

/// A whole power is not below the exact power: with `p` the power `n` of
/// `base`, `p / BONE >= (base / BONE)^n`.
pub proof fn lemma_powi_holds(base: int, n: nat)
    requires
        base >= 0,
        powi_spec(base, n) is Ok,
    ensures
        powi_spec(base, n)->Ok_0 >= 0,
        powi_spec(base, n)->Ok_0 * vstd::arithmetic::power::pow(BONE as int, n)
            >= vstd::arithmetic::power::pow(base, n) * BONE,
    decreases n,
{
    let unit = BONE as int;
    let p = powi_spec(base, n)->Ok_0;
    lemma_signs();
    if n == 0 {
        vstd::arithmetic::power::lemma_pow0(unit);
        vstd::arithmetic::power::lemma_pow0(base);
    } else if n % 2 == 0 {
        let m = (n / 2) as nat;
        lemma_powi_holds(base, m);
        let h = powi_spec(base, m)->Ok_0;
        let um = vstd::arithmetic::power::pow(unit, m);
        let bm = vstd::arithmetic::power::pow(base, m);
        vstd::arithmetic::power::lemma_pow_adds(unit, m, m);
        vstd::arithmetic::power::lemma_pow_adds(base, m, m);
        vstd::arithmetic::power::lemma_pow_positive(unit, m);
        assert(bm >= 0) by {
            lemma_pow_nonnegative(base, m);
        }
        assert(h * h >= 0);
        lemma_floor_div(h * h, unit);
        assert(p * (um * um) >= (bm * bm) * unit) by (nonlinear_arith)
            requires
                p * unit >= h * h,
                h * um >= bm * unit,
                h >= 0,
                um > 0,
                bm >= 0,
                unit > 0,
        {
            assert((h * um) * (h * um) >= (bm * unit) * (bm * unit));
            assert((p * unit) * (um * um) >= (h * h) * (um * um));
            assert((p * (um * um)) * unit >= ((bm * bm) * unit) * unit);
        }
    } else {
        let m = (n - 1) as nat;
        lemma_powi_holds(base, m);
        let z = powi_spec(base, m)->Ok_0;
        let um = vstd::arithmetic::power::pow(unit, m);
        let bm = vstd::arithmetic::power::pow(base, m);
        reveal(vstd::arithmetic::power::pow);
        vstd::arithmetic::power::lemma_pow_positive(unit, m);
        assert(bm >= 0) by {
            lemma_pow_nonnegative(base, m);
        }
        assert(z * base >= 0);
        lemma_floor_div(z * base, unit);
        assert(p * (unit * um) >= (base * bm) * unit) by (nonlinear_arith)
            requires
                p * unit >= z * base,
                z * um >= bm * unit,
                z >= 0,
                base >= 0,
                um > 0,
                bm >= 0,
                unit > 0,
        {
            assert((z * um) * base >= (bm * unit) * base);
            assert((p * unit) * um >= (z * base) * um);
        }
    }
}

/// No power of a base that is not negative is negative.
pub proof fn lemma_pow_nonnegative(base: int, n: nat)
    requires
        base >= 0,
    ensures
        vstd::arithmetic::power::pow(base, n) >= 0,
    decreases n,
{
    reveal(vstd::arithmetic::power::pow);
    if n > 0 {
        lemma_pow_nonnegative(base, (n - 1) as nat);
        assert(base * vstd::arithmetic::power::pow(base, (n - 1) as nat) >= 0) by (nonlinear_arith)
            requires
                base >= 0,
                vstd::arithmetic::power::pow(base, (n - 1) as nat) >= 0,
        ;
    }
}

} // verus!
