//! A weighted liquidity pool: reserves of up to eight tokens, each with a
//! weight, that traders swap between and that holders of pool shares own in
//! proportion.
//!
//! Every amount is a signed 128-bit integer on a fixed-point scale of seven
//! decimal places. An operation takes the state of the pool and either
//! changes it as its contract says or returns an error and leaves it as it
//! was. Moving the tokens that an operation says are owed is left to the
//! caller.

use vstd::prelude::*;

pub mod address;
pub mod c_consts;
pub mod c_math;
pub mod c_num;
pub mod c_pool;
pub mod fuzz;
pub mod test_token;
