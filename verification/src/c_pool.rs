use vstd::prelude::*;

pub mod bounds;
pub mod error;
pub mod laws;
pub mod lifecycle;
pub mod liquidity;
pub mod pool;
pub mod shares;
pub mod single;
pub mod storage_types;
pub mod sums;
pub mod swap;
pub mod validate;
pub mod weighted;
