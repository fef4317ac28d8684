use vstd::prelude::*;

pub mod storage_types;
