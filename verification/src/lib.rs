//! A verified core for a continuous transaction load generator over a
//! cell-model chain: a ledger of owned cells, a block synchroniser, an input
//! selector, a transaction builder and a dual-scheme signer.

pub mod accounts;
pub mod builder;
pub mod bytesutil;
pub mod chain_sync;
pub mod engine;
pub mod errors;
pub mod initcfg;
pub mod signer;
pub mod ledger;
pub mod lockgen;
pub mod molecule;
pub mod records;
pub mod selector;

use vstd::prelude::*;

verus! {

/// Number of shannons (the smallest capacity unit) in one byte of capacity.
pub const BYTE_SHANNONS: u64 = 100_000_000;

} // verus!
