//! A points ledger with a daily claim, a weighted spin wheel, and ticket
//! lotteries drawn from a random seed. The contract state and every operation
//! on it live in [`contract`]; the caller's account, the time and the random
//! seed are handed in by whoever hosts it.

use vstd::prelude::*;

pub mod contract;
pub mod error;
pub mod random;
pub mod reward;
pub mod user;
pub mod wheel;

verus! {

/// One day, in milliseconds.
pub const ONE_DAY: u64 = 86400000;

/// Converts a span of milliseconds to whole seconds, truncating.
pub fn milli_to_seconds(ms: u64) -> (r: u64)
    ensures
        r == ms / 1000,
{
    ms / 1000
}

} // verus!
