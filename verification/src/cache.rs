//! Cache-expiry arithmetic: how many seconds remain until the next daily
//! cache-reset boundary (a fixed UTC time of day), as a pure function of a
//! unix timestamp.

use vstd::prelude::*;
use crate::decimal::{spec_decimal, usize_to_string};

verus! {

/// Relies on chrono::Utc::now (the system clock). Nothing is promised of
/// the value it returns; callers state what holds of every outcome.
#[verifier::external_body]
fn now_unix_seconds() -> i64 {
    chrono::Utc::now().timestamp()
}

/// Seconds already elapsed in the UTC day that contains `now_ts`
/// (the mathematical remainder, always in `[0, 86400)`).
pub open spec fn spec_day_position(now_ts: int) -> int {
    now_ts % 86400
}

/// Seconds from `now_ts` until the next moment whose UTC time of day is
/// `h:m:00`. A `now_ts` already on the boundary rolls to the next day,
/// so the result is always in `(0, 86400]`.
pub open spec fn spec_seconds_until_reset(now_ts: int, h: int, m: int) -> int {
    let day_pos = spec_day_position(now_ts);
    let target = h * 3600 + m * 60;
    if day_pos >= target {
        86400 - day_pos + target
    } else {
        target - day_pos
    }
}

/// Pure core of the cache-reset countdown: seconds from the given unix
/// timestamp to the next daily boundary at `target_hour_utc:target_minute_utc`
/// UTC.
pub fn seconds_until_reset_from(now_ts: i64, target_hour_utc: u32, target_minute_utc: u32) -> (r: u64)
    requires
        target_hour_utc < 24,
        target_minute_utc < 60,
    ensures
        r == spec_seconds_until_reset(now_ts as int, target_hour_utc as int, target_minute_utc as int),
        0 < r <= 86400,
{
    let day_pos: i64 = if now_ts >= 0 {
        now_ts % 86400
    } else {
        let k: i64 = -(now_ts + 1);
        let rem: i64 = k % 86400;
        proof {
            lemma_negative_day_position(now_ts as int);
        }
        86399 - rem
    };
    let target: i64 = (target_hour_utc as i64) * 3600 + (target_minute_utc as i64) * 60;
    if day_pos >= target {
        (86400 - day_pos + target) as u64
    } else {
        (target - day_pos) as u64
    }
}

/// Seconds until the next daily boundary at the given UTC time of day,
/// measured from the clock now: whatever the clock read, the result is the
/// countdown from that reading, and it is always in `(0, 86400]`.
pub fn seconds_until_cache_reset(target_hour_utc: u32, target_minute_utc: u32) -> (r: u64)
    requires
        target_hour_utc < 24,
        target_minute_utc < 60,
    ensures
        exists|now_ts: int| r == spec_seconds_until_reset(
            now_ts, target_hour_utc as int, target_minute_utc as int),
        0 < r <= 86400,
{
    let now = now_unix_seconds();
    let r = seconds_until_reset_from(now, target_hour_utc, target_minute_utc);
    proof {
        assert(r == spec_seconds_until_reset(
            now as int, target_hour_utc as int, target_minute_utc as int));
    }
    r
}

/// The cache-control header text: a shared-cache lifetime that counts down
/// to the next 06:00 UTC boundary, with a 60-second
/// stale-while-revalidate window.
pub open spec fn spec_cache_control(ttl: int) -> Seq<char> {
    "public, max-age=0, s-maxage="@ + spec_decimal(ttl as nat) + ", stale-while-revalidate=60"@
}

/// Render the cache-control header for the next 06:00 UTC reset.
pub fn cache_control_header_value() -> (r: String)
    ensures
        exists|ttl: int| 0 < ttl <= 86400 && r@ == #[trigger] spec_cache_control(ttl),
{
    let ttl = seconds_until_cache_reset(6, 0);
    let mut s = String::from_str("public, max-age=0, s-maxage=");
    let digits = usize_to_string(ttl as usize);
    s.append(digits.as_str());
    s.append(", stale-while-revalidate=60");
    proof {
        assert(s@ =~= spec_cache_control(ttl as int));
    }
    s
}

/// For a negative timestamp the day position can be recovered from the
/// remainder of `-(now_ts + 1)`, which is non-negative.
proof fn lemma_negative_day_position(now_ts: int)
    requires
        now_ts < 0,
    ensures
        spec_day_position(now_ts) == 86399 - ((-(now_ts + 1)) % 86400),
{
    let k = -(now_ts + 1);
    assert(k >= 0);
    assert(now_ts == -k - 1);
    let q = k / 86400;
    let r = k % 86400;
    vstd::arithmetic::div_mod::lemma_fundamental_div_mod(k, 86400);
    vstd::arithmetic::div_mod::lemma_mod_bound(k, 86400);
    assert(k == 86400 * q + r);
    assert(now_ts == 86400 * (-q - 1) + (86399 - r));
    assert(0 <= 86399 - r < 86400);
    vstd::arithmetic::div_mod::lemma_fundamental_div_mod_converse_mod(
        now_ts, 86400, -q - 1, 86399 - r);
}

} // verus!
