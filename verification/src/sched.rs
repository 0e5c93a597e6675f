//! Scheduling day-boundary arithmetic, and the local timezone offset.
//!
//! Day numbers count whole days since the epoch in local time, shifted by
//! the rollover hour.  All arithmetic is done in 128 bits and clamped, so
//! any inputs from the wire are accepted.  Only the machine's current
//! timezone offset comes from outside, through one trusted call; everything
//! that depends on it states only what holds for every offset.

use vstd::prelude::*;
use crate::proto::SchedTimingTodayOut;

verus! {

/// Whole days since the epoch of a local timestamp, counting day changes
/// at the rollover hour.
pub open spec fn day_number(secs: int, mins_west: int, rollover: int) -> int {
    (secs - mins_west * 60 - rollover * 3600) / 86400
}

pub open spec fn clamp_u32(x: int) -> u32 {
    if x < 0 {
        0u32
    } else if x > u32::MAX {
        u32::MAX
    } else {
        x as u32
    }
}

pub open spec fn clamp_i64(x: int) -> i64 {
    if x < i64::MIN {
        i64::MIN
    } else if x > i64::MAX {
        i64::MAX
    } else {
        x as i64
    }
}

pub open spec fn days_elapsed_spec(
    created: int,
    now: int,
    created_west: int,
    now_west: int,
    rollover: int,
) -> u32 {
    clamp_u32(day_number(now, now_west, rollover) - day_number(created, created_west, rollover))
}

pub open spec fn next_day_at_spec(now: int, now_west: int, rollover: int) -> i64 {
    clamp_i64((day_number(now, now_west, rollover) + 1) * 86400 + now_west * 60 + rollover * 3600)
}

/// Floor division by a positive constant, in 128 bits.
fn div_floor_86400(n: i128) -> (r: i128)
    requires
        -0x7000_0000_0000_0000_0000 <= n <= 0x7000_0000_0000_0000_0000,
    ensures
        r == n as int / 86400,
        n >= 0 ==> 0 <= r <= n,
        n < 0 ==> n <= r <= 0,
{
    if n >= 0 {
        let q: i128 = ((n as u128) / 86400) as i128;
        proof {
            assert(q == n as int / 86400);
            assert(q <= n) by (nonlinear_arith)
                requires
                    q == n as int / 86400,
                    n >= 0,
            ;
        }
        q
    } else {
        let m: u128 = (-n) as u128;
        let q: i128 = ((m + 86399) / 86400) as i128;
        proof {
            assert(q == ((m as int) + 86399) / 86400);
            assert(-q == n as int / 86400 && q <= m) by (nonlinear_arith)
                requires
                    q == ((m as int) + 86399) / 86400,
                    m == -(n as int),
                    n < 0,
            ;
        }
        -q
    }
}

/// Computes the day boundary for explicit offsets; used directly when the
/// request names both offsets, and with the machine offset otherwise.
pub fn sched_timing_compute(
    created_secs: i64,
    now_secs: i64,
    created_west: i32,
    now_west: i32,
    rollover: u8,
) -> (r: SchedTimingTodayOut)
    ensures
        r.days_elapsed == days_elapsed_spec(
            created_secs as int,
            now_secs as int,
            created_west as int,
            now_west as int,
            (rollover % 24) as int,
        ),
        r.next_day_at == next_day_at_spec(
            now_secs as int,
            now_west as int,
            (rollover % 24) as int,
        ),
{
    let roll: i128 = (rollover % 24) as i128;
    let dn_now: i128 = div_floor_86400(
        now_secs as i128 - (now_west as i128) * 60 - roll * 3600,
    );
    let dn_created: i128 = div_floor_86400(
        created_secs as i128 - (created_west as i128) * 60 - roll * 3600,
    );
    let de: i128 = dn_now - dn_created;
    let days_elapsed: u32 = if de < 0 {
        0
    } else if de > u32::MAX as i128 {
        u32::MAX
    } else {
        de as u32
    };
    let nd: i128 = (dn_now + 1) * 86400 + (now_west as i128) * 60 + roll * 3600;
    let next_day_at: i64 = if nd < i64::MIN as i128 {
        i64::MIN
    } else if nd > i64::MAX as i128 {
        i64::MAX
    } else {
        nd as i64
    };
    proof {
        assert(dn_now == day_number(now_secs as int, now_west as int, roll as int));
        assert(dn_created == day_number(created_secs as int, created_west as int, roll as int));
    }
    SchedTimingTodayOut { days_elapsed, next_day_at }
}

/// Relies on chrono's `TimeZone::timestamp_opt` on `Local` and
/// `FixedOffset::local_minus_utc`: the signed seconds east of UTC at the
/// given moment.  `FixedOffset` keeps its value strictly between -86400
/// and 86400 (its constructors refuse anything else); nothing more is
/// assumed, since the result depends on the machine's timezone database.
/// Caveat: with a corrupt timezone database on disk chrono's local-time
/// lookup can panic inside this call; that risk lies with the outside
/// crate and is not covered by the no-panic guarantee of the verified
/// functions.
#[verifier::external_body]
fn local_utc_offset_secs(stamp: i64) -> (r: Option<i32>)
    ensures
        r matches Some(v) ==> -86400 < v < 86400,
{
    match chrono::TimeZone::timestamp_opt(&chrono::Local, stamp, 0) {
        chrono::LocalResult::Single(dt) => Some(chrono::Offset::fix(dt.offset()).local_minus_utc()),
        chrono::LocalResult::Ambiguous(dt, _) => Some(
            chrono::Offset::fix(dt.offset()).local_minus_utc(),
        ),
        chrono::LocalResult::None => None,
    }
}

/// Minutes west of UTC at the given moment, from the machine's timezone;
/// zero when the timezone cannot say.  Bounded, but otherwise dependent on
/// the environment.
pub fn local_minutes_west_for_stamp(stamp: i64) -> (r: i32)
    ensures
        -1440 <= r <= 1440,
{
    match local_utc_offset_secs(stamp) {
        None => 0,
        Some(east) => -(east / 60),
    }
}

} // verus!
