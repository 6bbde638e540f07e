//! A pool-based proof-of-capacity miner library.
//!
//! The library covers the mining pipeline: discovering plot files from
//! directory listings, deriving per-round scoop parameters from the pool's
//! generation signature, locating stagger-aligned scoop windows inside plot
//! files, scoring every nonce in a window with Shabal-256, and deciding when
//! a best deadline is worth submitting to the pool.
//!
//! Aggregation is in-worker: each worker owns its folder-local best and
//! submits it directly; the pool sees the best of each folder and keeps the
//! best of those.

pub mod config;
pub mod decimal;
pub mod encoding;
pub mod json;
pub mod long_time;
pub mod miner;
pub mod pool;
pub mod plots;
pub mod shabal;
pub mod strings;

use vstd::prelude::*;

verus! {

/// Size in bytes of one Shabal-256 digest.
pub const HASH_SIZE: u64 = 32;

/// Number of scoops per nonce in a plot file.
pub const HASH_CAP: u64 = 4096;

/// Size in bytes of one scoop: two digests side by side.
pub const SCOOP_SIZE: u64 = 64;

/// Bytes of plot data stored per nonce: `HASH_CAP * SCOOP_SIZE`.
pub const PLOT_SIZE: u64 = 4096 * 64;

} // verus!
