use vstd::prelude::*;

verus! {

/// Number of seconds in one UTC calendar day.
pub const SECS_PER_DAY: i64 = 86400;

/// The first and last calendar days that a Unix timestamp held in an `i64`
/// can fall on.
pub const MIN_DAY: i64 = -106751991167301;
pub const MAX_DAY: i64 = 106751991167300;

/// The UTC calendar day (days since 1970-01-01) that holds an instant given
/// as a Unix timestamp: the time of day is discarded, rounding towards the past.
pub open spec fn day_of(timestamp: int) -> int {
    timestamp / (SECS_PER_DAY as int)
}

/// Projects a Unix timestamp onto its UTC calendar day.
pub fn calendar_day(timestamp: i64) -> (day: i64)
    ensures
        day == day_of(timestamp as int),
        MIN_DAY <= day <= MAX_DAY,
{
    if timestamp >= 0 {
        let d: u64 = (timestamp as u64) / (SECS_PER_DAY as u64);
        proof {
            vstd::arithmetic::div_mod::lemma_fundamental_div_mod(timestamp as int, SECS_PER_DAY as int);
            vstd::arithmetic::div_mod::lemma_mod_bound(timestamp as int, SECS_PER_DAY as int);
        }
        d as i64
    } else {
        // timestamp == -(m + 1) for a non-negative m
        let m: u64 = (-(timestamp + 1)) as u64;
        let q: u64 = m / (SECS_PER_DAY as u64);
        let r: u64 = m % (SECS_PER_DAY as u64);
        proof {
            vstd::arithmetic::div_mod::lemma_fundamental_div_mod(m as int, SECS_PER_DAY as int);
            vstd::arithmetic::div_mod::lemma_fundamental_div_mod_converse(
                timestamp as int,
                SECS_PER_DAY as int,
                -(q as int) - 1,
                (SECS_PER_DAY as int) - 1 - (r as int),
            );
        }
        -(q as i64) - 1
    }
}

/// Seconds from an instant to the next UTC midnight strictly after it.
pub fn secs_until_next_midnight(now: i64) -> (secs: u64)
    ensures
        secs as int == (day_of(now as int) + 1) * (SECS_PER_DAY as int) - now,
        1 <= secs <= SECS_PER_DAY,
{
    let day = calendar_day(now);
    proof {
        vstd::arithmetic::div_mod::lemma_fundamental_div_mod(now as int, SECS_PER_DAY as int);
    }
    let next: i128 = (day as i128 + 1) * (SECS_PER_DAY as i128);
    (next - now as i128) as u64
}

} // verus!
