//! A small payments ledger: parses transaction records, applies them to
//! per-client accounts (deposit, withdrawal, dispute, resolve, chargeback),
//! and renders a snapshot of all balances.
//!
//! Monetary amounts are fixed-point decimals with four fractional digits,
//! stored as integer counts of 1/10000 units.

pub mod engine;
pub mod parser;
pub mod render;

use vstd::prelude::*;

verus! {

/// Number of fixed-point units in one whole currency unit.
pub const AMOUNT_SCALE: u64 = 10000;

} // verus!
