//! Calendar conversion of Unix time and the SNTP reply format.

use vstd::prelude::*;
use crate::rtc::DateTime;

verus! {

/// Seconds between the NTP epoch (1900-01-01) and the Unix epoch (1970-01-01).
pub const NTP_UNIX_DELTA: u64 = 2_208_988_800;

/// Length of an SNTP packet.
pub const SNTP_PACKET_LEN: usize = 48;

/// Gregorian leap year.
pub open spec fn is_leap_year(y: int) -> bool {
    y % 4 == 0 && (y % 100 != 0 || y % 400 == 0)
}

/// Number of days in month `m` (1..=12) of year `y`.
pub open spec fn days_in_month(y: int, m: int) -> int {
    if m == 2 {
        if is_leap_year(y) { 29 } else { 28 }
    } else if m == 4 || m == 6 || m == 9 || m == 11 {
        30
    } else {
        31
    }
}

/// Number of days in the months of year `y` before month `m`.
pub open spec fn days_before_month(y: int, m: int) -> int {
    let leap: int = if is_leap_year(y) { 1 } else { 0 };
    if m <= 1 { 0 }
    else if m == 2 { 31 }
    else if m == 3 { 59 + leap }
    else if m == 4 { 90 + leap }
    else if m == 5 { 120 + leap }
    else if m == 6 { 151 + leap }
    else if m == 7 { 181 + leap }
    else if m == 8 { 212 + leap }
    else if m == 9 { 243 + leap }
    else if m == 10 { 273 + leap }
    else if m == 11 { 304 + leap }
    else { 334 + leap }
}

/// Number of leap years among the years `1..=y` (for `y >= 0`).
pub open spec fn leap_years_through(y: int) -> int {
    y / 4 - y / 100 + y / 400
}

/// Days from 1970-01-01 to the date `y-m-d`.
pub open spec fn days_since_epoch(y: int, m: int, d: int) -> int {
    365 * (y - 1970) + (leap_years_through(y - 1) - leap_years_through(1969))
        + days_before_month(y, m) + d - 1
}

/// `dt` is the UTC calendar time `unix` seconds after the Unix epoch: the
/// time of day matches, and the date lies `unix / 86400` days after
/// 1970-01-01 with the year kept modulo `2^16`.
pub open spec fn is_utc_time_of(dt: DateTime, unix: u64) -> bool {
    &&& dt.hour == (unix % 86_400) / 3600
    &&& dt.minute == (unix % 3600) / 60
    &&& dt.second == unix % 60
    &&& 1 <= dt.month <= 12
    &&& exists|y: int| {
        &&& y >= 1970
        &&& #[trigger] (y % 0x1_0000) == dt.year as int
        &&& 1 <= dt.day <= days_in_month(y, dt.month as int)
        &&& days_since_epoch(y, dt.month as int, dt.day as int) == unix / 86_400
    }
}

/// Days of the March-based years `0..y` of a 400-year era.
spec fn era_days(y: int) -> int {
    365 * y + y / 4 - y / 100 + y / 400
}

/// The year-of-era estimate of the conversion.
spec fn year_of_era(doe: int) -> int {
    (doe - doe / 1460 + doe / 36_524 - doe / 146_096) / 365
}

proof fn lemma_era_days_step(y: int)
    requires
        0 <= y,
    ensures
        era_days(y + 1) - era_days(y) == 365 + (if is_leap_year(y + 1) { 1int } else { 0int }),
{
}

proof fn lemma_year_of_era_exact(y: int, k: int)
    requires
        0 <= y < 400,
        0 <= k < era_days(y + 1) - era_days(y),
    ensures
        year_of_era(era_days(y) + k) == y,
{
    let p = y / 4;
    let s = y % 4;
    let c = y / 100;
    let w = y % 100;
    let doe = era_days(y) + k;
    assert(y / 400 == 0);
    assert(p == 25 * c + w / 4);
    assert(era_days(y) == 365 * y + p - c);
    lemma_era_days_step(y);
    assert(k == 365 ==> s == 3 && (w != 99 || y == 399));
    let t = p + 365 * s - c + k;
    assert(doe == 1460 * p + t);
    assert(0 <= t < 2920);
    let da: int = if t >= 1460 { 1 } else { 0 };
    assert(doe / 1460 == p + da);
    let r = 365 * w + w / 4 + k;
    assert(doe == 36_524 * c + r);
    assert(0 <= r <= 36_524);
    let db: int = if r == 36_524 { 1 } else { 0 };
    assert(r == 36_524 ==> w == 99 && k == 365);
    assert(doe / 36_524 == c + db);
    let de: int = if doe == 146_096 { 1 } else { 0 };
    assert(doe <= 146_096);
    assert(doe / 146_096 == de);
    assert(db == de);
    assert(k == 365 ==> da == 1);
    assert(da == 1 ==> k >= 1);
    assert(doe - doe / 1460 + doe / 36_524 - doe / 146_096 == 365 * y + k - da);
}

proof fn lemma_find_year(doe: int, n: int) -> (y: int)
    requires
        0 <= doe < era_days(n),
        0 < n <= 400,
    ensures
        0 <= y < n,
        era_days(y) <= doe < era_days(y + 1),
    decreases n,
{
    lemma_era_days_step(n - 1);
    if era_days(n - 1) <= doe {
        n - 1
    } else {
        lemma_find_year(doe, n - 1)
    }
}

/// Within an era, the year estimate locates the day exactly.
proof fn lemma_day_of_era(doe: int)
    requires
        0 <= doe < 146_097,
    ensures
        0 <= year_of_era(doe) < 400,
        era_days(year_of_era(doe)) <= doe < era_days(year_of_era(doe) + 1),
{
    assert(era_days(400) == 146_097);
    let y = lemma_find_year(doe, 400);
    lemma_year_of_era_exact(y, doe - era_days(y));
}

/// Start (day of a March-based year) of March-based month `mp`.
spec fn month_start(mp: int) -> int {
    (153 * mp + 2) / 5
}

proof fn lemma_month_of_year(doy: int)
    requires
        0 <= doy <= 365,
    ensures
        0 <= (5 * doy + 2) / 153 <= 11,
        month_start((5 * doy + 2) / 153) <= doy < month_start((5 * doy + 2) / 153 + 1),
{
}

/// Convert Unix seconds to a UTC calendar date and time.
pub fn datetime_from_unix(unix: u64) -> (dt: DateTime)
    ensures
        is_utc_time_of(dt, unix),
{
    let days = (unix / 86_400) as i64;
    let secs = unix % 86_400;
    let hour = (secs / 3600) as u8;
    let minute = ((secs % 3600) / 60) as u8;
    let second = (secs % 60) as u8;
    assert((unix % 86_400) % 3600 == unix % 3600);
    assert((unix % 86_400) % 60 == unix % 60);

    let z: i64 = days + 719_468;
    let era: i64 = (if z >= 0 { z } else { z - 146_096 }) / 146_097;
    let doe: i64 = z - era * 146_097;
    let yoe: i64 = (doe - doe / 1460 + doe / 36_524 - doe / 146_096) / 365;
    proof {
        lemma_day_of_era(doe as int);
    }
    let y: i64 = yoe + era * 400;
    let doy: i64 = doe - (365 * yoe + yoe / 4 - yoe / 100);
    proof {
        lemma_era_days_step(yoe as int);
        assert(era_days(yoe as int) == 365 * yoe + yoe / 4 - yoe / 100);
        lemma_month_of_year(doy as int);
    }
    let mp: i64 = (5 * doy + 2) / 153;
    let day_i: i64 = doy - (153 * mp + 2) / 5 + 1;
    let month_i: i64 = if mp < 10 { mp + 3 } else { mp - 9 };
    let day = day_i as u8;
    let month = month_i as u8;
    let leap_adjust: i64 = if month <= 2 { 1 } else { 0 };
    let year_full: i64 = y + leap_adjust;
    let year = year_full as u16;
    proof {
        let yy = year_full as int;
        assert((year_full as u16) == year_full % 0x1_0000) by (bit_vector)
            requires
                year_full >= 0,
        ;
        lemma_calendar(days as int, era as int, yoe as int, doy as int, mp as int, day_i as int, yy);
    }
    DateTime { year, month, day, hour, minute, second }
}

proof fn lemma_calendar(days: int, era: int, yoe: int, doy: int, mp: int, d: int, year: int)
    requires
        days >= 0,
        era >= 0,
        days + 719_468 == era * 146_097 + era_days(yoe) + doy,
        0 <= yoe < 400,
        0 <= doy < era_days(yoe + 1) - era_days(yoe),
        0 <= mp <= 11,
        month_start(mp) <= doy < month_start(mp + 1),
        d == doy - month_start(mp) + 1,
        year == yoe + era * 400 + (if mp >= 10 { 1int } else { 0int }),
    ensures
        year >= 1970,
        1 <= d <= days_in_month(year, if mp < 10 { mp + 3 } else { mp - 9 }),
        days_since_epoch(year, if mp < 10 { mp + 3 } else { mp - 9 }, d) == days,
{
    let y = yoe + era * 400;
    let m = if mp < 10 { mp + 3 } else { mp - 9 };
    lemma_era_days_step(yoe);
    assert(era_days(y) == era * 146_097 + era_days(yoe));
    assert(days == era_days(y) + doy - 719_468);
    assert(is_leap_year(y + 1) == is_leap_year(yoe + 1));
    assert(leap_years_through(y) == y / 4 - y / 100 + y / 400);
    assert(leap_years_through(1969) == 477);
    if mp < 10 {
        assert(leap_years_through(y) - leap_years_through(y - 1) == if is_leap_year(y) { 1int } else { 0int });
        assert(days_before_month(y, m) == 59 + (if is_leap_year(y) { 1int } else { 0int }) + month_start(mp));
    } else {
        assert(leap_years_through(y + 1 - 1) == leap_years_through(y));
    }
}

/// The SNTP client request: LI=0, VN=3, Mode=3, the rest zero.
pub fn sntp_request() -> (req: [u8; 48])
    ensures
        req@[0] == 0x1B,
        forall|i: int| 1 <= i < 48 ==> #[trigger] req@[i] == 0,
{
    let mut req = [0u8; 48];
    req[0] = 0x1B;
    req
}

/// The transmit timestamp of an SNTP reply: whole seconds since
/// 1900-01-01, a big-endian `u32` at bytes 40..44.
pub open spec fn transmit_seconds(b: Seq<u8>) -> int {
    b[40] * 0x100_0000 + b[41] * 0x1_0000 + b[42] * 0x100 + b[43]
}

/// Unix time (seconds since 1970-01-01 UTC) from the first `received`
/// bytes of an SNTP reply.
pub fn unix_from_sntp(response: &[u8; 48], received: usize) -> (r: Result<u64, &'static str>)
    ensures
        received < SNTP_PACKET_LEN ==> (r matches Err(e) && e@ == "short SNTP response"@),
        received >= SNTP_PACKET_LEN && transmit_seconds(response@) < NTP_UNIX_DELTA
            ==> (r matches Err(e) && e@ == "invalid SNTP time"@),
        received >= SNTP_PACKET_LEN && transmit_seconds(response@) >= NTP_UNIX_DELTA
            ==> (r matches Ok(v) && v == transmit_seconds(response@) - NTP_UNIX_DELTA),
{
    if received < SNTP_PACKET_LEN {
        return Err("short SNTP response");
    }
    let secs_1900: u64 = (response[40] as u64) * 0x100_0000 + (response[41] as u64) * 0x1_0000
        + (response[42] as u64) * 0x100 + (response[43] as u64);
    match secs_1900.checked_sub(NTP_UNIX_DELTA) {
        Some(unix) => Ok(unix),
        None => Err("invalid SNTP time"),
    }
}

} // verus!
