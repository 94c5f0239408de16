//! A counting bloom filter over a persistent, memory-mapped counter store,
//! with an in-memory presence bitmap rebuilt from the counters on open.
use vstd::prelude::*;

pub mod bit_array;
pub mod counter_bloom_filter;
pub mod counter_store;
pub mod error;
pub mod laws;
pub mod mmh3;

verus! {

/// Adds two machine words.
pub fn add(left: usize, right: usize) -> (r: usize)
    requires
        left + right <= usize::MAX,
    ensures
        r == left + right,
{
    left + right
}

} // verus!
