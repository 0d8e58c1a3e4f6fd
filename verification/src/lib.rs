//! A small relational storage engine: value and tuple encoding, the system
//! catalog, B+-tree leaf scanning, query filtering decisions and the buffer
//! pool's page replacement.
use vstd::prelude::*;

pub mod catalog;
pub mod error;
pub mod execution;
pub mod planner;
pub mod relation;
pub mod sql;
pub mod storage;

verus! {
} // verus!
