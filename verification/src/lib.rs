//! Core of a serverless-optimized telemetry agent: a field-name dictionary,
//! a compact self-describing binary value codec, bitpacked metric records,
//! CRC32-framed batches with optional zlib compression, bounded buffering
//! with disk-spill bookkeeping, collector scheduling, and cold-start
//! orchestration (preloaders, lazy initialization, freeze/thaw detection).

use vstd::prelude::*;

pub mod buffer;
pub mod cold_start;
pub mod collector_kinds;
pub mod collectors;
pub mod compress;
pub mod crc;
pub mod db_tracker;
pub mod deps;
pub mod dictionary;
pub mod errors;
pub mod fnv;
pub mod frame;
pub mod persistence;
pub mod pool;
pub mod preload;
pub mod processor;
pub mod procfs;
pub mod record;
pub mod scheduler;
pub mod startup;
pub mod transport;
pub mod value;

verus! {

/// Version string of the agent library.
pub fn version() -> (r: &'static str)
    ensures
        r@.len() > 0,
{
    proof {
        reveal_strlit("0.1.0");
    }
    "0.1.0"
}

} // verus!
