//! The expected state of a Soroban token contract under fuzzing, and the
//! decisions a fuzzing run makes: which inputs to run, how each call to the
//! contract moves the expected state, when the contract and the expected
//! state disagree, and how time is advanced.
use vstd::prelude::*;

pub mod accounts;
pub mod audit;
pub mod bigint;
pub mod commands;
pub mod ledger;
pub mod model;
pub mod run;
pub mod table;

verus! {

/// Ledgers closed in one day, at five seconds per ledger.
pub const DAY_IN_LEDGERS: u32 = 17280;

} // verus!
