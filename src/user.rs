use vstd::prelude::*;

use crate::milli_to_seconds;
use crate::ONE_DAY;

verus! {

/// The record of one registered account.
#[derive(Clone, Copy, Debug, PartialEq, Eq, Structural)]
pub struct User {
    /// The balance, in points.
    pub points: u64,
    /// When the daily points were last claimed, in ms since the epoch; 0 if never.
    pub last_daily_claim: u64,
    /// When the free spin was last used, in ms since the epoch; 0 if never.
    pub last_free_spinwheel: u64,
}

/// Whether a cooldown that started at `last` still runs at `now`.
pub open spec fn cooldown_active(last: u64, now: u64) -> bool {
    (now as int) - (last as int) < ONE_DAY as int
}

/// The whole seconds left of a cooldown that started at `last`, seen at `now`.
pub open spec fn cooldown_remaining(last: u64, now: u64) -> int {
    (last as int + ONE_DAY as int - now as int) / 1000
}

impl User {
    /// The zeroed record.
    pub open spec fn new_spec() -> User {
        User { points: 0, last_daily_claim: 0, last_free_spinwheel: 0 }
    }

    /// The record of a newly registered account: every field zero.
    pub fn new() -> (u: User)
        ensures
            u == (User { points: 0, last_daily_claim: 0, last_free_spinwheel: 0 }),
    {
        User { points: 0, last_daily_claim: 0, last_free_spinwheel: 0 }
    }
}

/// Checks a one-day cooldown that started at `last`: `Err` with the seconds left
/// while it runs at `now`, `Ok` once a day has passed.
pub fn check_cooldown(last: u64, now: u64) -> (r: Result<(), u64>)
    ensures
        r is Err <==> cooldown_active(last, now),
        r matches Err(s) ==> s as int == cooldown_remaining(last, now),
{
    if now >= last {
        let delta_ms = now - last;
        if delta_ms < ONE_DAY {
            Err(milli_to_seconds(ONE_DAY - delta_ms))
        } else {
            Ok(())
        }
    } else {
        let behind = last - now;
        proof {
            vstd::arithmetic::div_mod::lemma_hoist_over_denominator(behind as int, 86400, 1000);
        }
        Err(milli_to_seconds(behind) + ONE_DAY / 1000)
    }
}

/// Adds `amount` to a balance, refusing a sum above `u64::MAX`.
pub fn credit(points: u64, amount: u64) -> (r: Option<u64>)
    ensures
        r is Some <==> points as int + amount as int <= u64::MAX,
        r matches Some(p) ==> p == points + amount,
{
    points.checked_add(amount)
}

/// Takes `amount` from a balance, refusing a debit above the balance.
pub fn debit(points: u64, amount: u64) -> (r: Option<u64>)
    ensures
        r is Some <==> amount <= points,
        r matches Some(p) ==> p == points - amount,
{
    if amount > points {
        None
    } else {
        Some(points - amount)
    }
}

} // verus!
