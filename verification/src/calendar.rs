//! Wall-clock time as text.
use vstd::prelude::*;
use crate::text::{dec_padded, zero_padded};

verus! {

/// February has 29 days.
pub open spec fn is_leap(y: int) -> bool {
    y % 4 == 0 && (y % 100 != 0 || y % 400 == 0)
}

pub open spec fn month_len(y: int, m: int) -> int {
    if m == 2 {
        if is_leap(y) {
            29
        } else {
            28
        }
    } else if m == 4 || m == 6 || m == 9 || m == 11 {
        30
    } else {
        31
    }
}

/// Leap years before year `y`, from year 1 on.
pub open spec fn leaps_before(y: int) -> int {
    (y - 1) / 4 - (y - 1) / 100 + (y - 1) / 400
}

/// Days of year `y` before month `m`.
pub open spec fn days_before_month(y: int, m: int) -> int
    decreases m,
{
    if m <= 1 {
        0
    } else {
        days_before_month(y, m - 1) + month_len(y, m - 1)
    }
}

/// Days from 1 January 1970 to a date of the Gregorian calendar.
pub open spec fn day_number(y: int, m: int, d: int) -> int {
    365 * (y - 1970) + leaps_before(y) - leaps_before(1970) + days_before_month(y, m) + d - 1
}

/// A date of the calendar.
pub open spec fn is_date(y: int, m: int, d: int) -> bool {
    1 <= m <= 12 && 1 <= d <= month_len(y, m)
}

/// Day `doe` of an era of four hundred years lies in its year `yoe`; both count
/// from the first of March.
proof fn lemma_year_of_era(doe: int, yoe: int)
    requires
        0 <= doe < 146_097,
        yoe == (doe - doe / 1460 + doe / 36_524 - doe / 146_096) / 365,
    ensures
        0 <= yoe < 400,
        0 <= doe - (365 * yoe + yoe / 4 - yoe / 100) <= 365,
        doe - (365 * yoe + yoe / 4 - yoe / 100) == 365 ==> (yoe + 1) % 4 == 0 && ((yoe + 1) % 100
            != 0 || yoe == 399),
{
}

proof fn lemma_months(y: int)
    ensures
        days_before_month(y, 1) == 0,
        days_before_month(y, 2) == 31,
        days_before_month(y, 3) == (if is_leap(y) {
            60int
        } else {
            59
        }),
        days_before_month(y, 4) == days_before_month(y, 3) + 31,
        days_before_month(y, 5) == days_before_month(y, 3) + 61,
        days_before_month(y, 6) == days_before_month(y, 3) + 92,
        days_before_month(y, 7) == days_before_month(y, 3) + 122,
        days_before_month(y, 8) == days_before_month(y, 3) + 153,
        days_before_month(y, 9) == days_before_month(y, 3) + 184,
        days_before_month(y, 10) == days_before_month(y, 3) + 214,
        days_before_month(y, 11) == days_before_month(y, 3) + 245,
        days_before_month(y, 12) == days_before_month(y, 3) + 275,
{
    reveal_with_fuel(days_before_month, 13);
}

proof fn lemma_next_leap(y: int)
    ensures
        leaps_before(y + 1) == leaps_before(y) + (if is_leap(y) {
            1int
        } else {
            0
        }),
{
    assert(y / 4 == (y - 1) / 4 + (if y % 4 == 0 {
        1int
    } else {
        0
    }));
    assert(y / 100 == (y - 1) / 100 + (if y % 100 == 0 {
        1int
    } else {
        0
    }));
    assert(y / 400 == (y - 1) / 400 + (if y % 400 == 0 {
        1int
    } else {
        0
    }));
    assert(y % 100 == 0 ==> y % 4 == 0);
    assert(y % 400 == 0 ==> y % 100 == 0);
}

/// Year `yoe` of era `era`, as a year of the calendar.
proof fn lemma_leaps(era: int, yoe: int)
    requires
        0 <= yoe < 400,
    ensures
        leaps_before(yoe + 400 * era + 1) == 97 * era + yoe / 4 - yoe / 100,
        is_leap(yoe + 1 + 400 * era) == ((yoe + 1) % 4 == 0 && ((yoe + 1) % 100 != 0 || yoe
            == 399)),
        leaps_before(yoe + 400 * era + 1) == leaps_before(yoe + 400 * era) + (if is_leap(
            yoe + 400 * era,
        ) {
            1int
        } else {
            0
        }),
{
    let y = yoe + 400 * era;
    assert(y / 4 == 100 * era + yoe / 4);
    assert(y / 100 == 4 * era + yoe / 100);
    assert(y / 400 == era);
    assert((y + 1) % 4 == (yoe + 1) % 4);
    assert((y + 1) % 100 == (yoe + 1) % 100);
    assert((y + 1) % 400 == 0 <==> yoe == 399);
    lemma_next_leap(y);
}

/// Days of a year before month `m`, where the year begins with March.
pub open spec fn days_since_march(m: int) -> int {
    if m == 1 {
        306
    } else if m == 2 {
        337
    } else if m == 3 {
        0
    } else if m == 4 {
        31
    } else if m == 5 {
        61
    } else if m == 6 {
        92
    } else if m == 7 {
        122
    } else if m == 8 {
        153
    } else if m == 9 {
        184
    } else if m == 10 {
        214
    } else if m == 11 {
        245
    } else {
        275
    }
}

/// The four hundred years in which day `z` after 1 March of year 0 lies.
fn era_of(z: i64) -> (era: i64)
    requires
        z >= i64::MIN + 146_096,
    ensures
        era * 146_097 <= z < era * 146_097 + 146_097,
{
    if z >= 0 {
        z / 146_097
    } else {
        (z - 146_096) / 146_097
    }
}

/// Month and day of day `doy` of a year that begins with March.
fn month_and_day(doy: i64) -> (r: (i64, i64))
    requires
        0 <= doy <= 365,
    ensures
        1 <= r.0 <= 12,
        days_since_march(r.0 as int) + r.1 - 1 == doy,
        1 <= r.1 <= (if r.0 == 2 {
            29
        } else {
            month_len(0, r.0 as int)
        }),
        r.0 == 2 && r.1 == 29 <==> doy == 365,
        r.0 <= 2 <==> doy >= 306,
{
    let mp: i64 = (5 * doy + 2) / 153;
    let d: i64 = doy - (153 * mp + 2) / 5 + 1;
    if mp < 10 {
        (mp + 3, d)
    } else {
        (mp - 9, d)
    }
}

proof fn lemma_day_number(era: int, yoe: int, m: int, d: int)
    requires
        0 <= yoe < 400,
        1 <= m <= 12,
        1 <= d,
    ensures
        ({
            let y = yoe + 400 * era + (if m <= 2 {
                1int
            } else {
                0
            });
            day_number(y, m, d) + 719_468 == era * 146_097 + 365 * yoe + yoe / 4 - yoe / 100
                + days_since_march(m) + d - 1
        }),
{
    lemma_leaps(era, yoe);
    lemma_months(yoe + 400 * era);
    lemma_months(yoe + 400 * era + 1);
    assert(leaps_before(1970) == 477);
}

/// The date of the day that is `z` days after 1 January 1970.
pub fn civil_from_days(z: i64) -> (r: (i64, u32, u32))
    requires
        z <= i64::MAX - 719_468,
    ensures
        is_date(r.0 as int, r.1 as int, r.2 as int),
        day_number(r.0 as int, r.1 as int, r.2 as int) == z,
{
    let days: i64 = z + 719_468;
    let era: i64 = era_of(days);
    let doe: i64 = days - era * 146_097;
    let yoe: i64 = (doe - doe / 1460 + doe / 36_524 - doe / 146_096) / 365;
    proof {
        lemma_year_of_era(doe as int, yoe as int);
        lemma_leaps(era as int, yoe as int);
    }
    let doy: i64 = doe - (365 * yoe + yoe / 4 - yoe / 100);
    let (m, d) = month_and_day(doy);
    proof {
        lemma_day_number(era as int, yoe as int, m as int, d as int);
    }
    let y: i64 = yoe + era * 400;
    let y: i64 = if m <= 2 {
        y + 1
    } else {
        y
    };
    (y, m as u32, d as u32)
}

/// A day has one date: two dates with the same number are the same.
pub proof fn law_dates_are_unique(y1: int, m1: int, d1: int, y2: int, m2: int, d2: int)
    requires
        is_date(y1, m1, d1),
        is_date(y2, m2, d2),
        day_number(y1, m1, d1) == day_number(y2, m2, d2),
    ensures
        y1 == y2 && m1 == m2 && d1 == d2,
{
    lemma_months(y1);
    lemma_months(y2);
    if y1 < y2 {
        lemma_year_span(y1, y2);
    } else if y2 < y1 {
        lemma_year_span(y2, y1);
    }
}

/// A later year begins after an earlier one has ended.
proof fn lemma_year_span(a: int, b: int)
    requires
        a < b,
    ensures
        day_number(b, 1, 1) >= day_number(a, 1, 1) + (if is_leap(a) {
            366int
        } else {
            365
        }),
    decreases b - a,
{
    lemma_months(a);
    lemma_months(b);
    if a + 1 < b {
        lemma_year_span(a, b - 1);
        lemma_year_span(b - 1, b);
    } else {
        lemma_next_leap(a);
    }
}

/// Date and time of `ts` milliseconds after the Unix epoch.
pub open spec fn is_wall_text(s: Seq<char>, ts: u64) -> bool {
    let secs = ts as int / 1000;
    let day = secs / 86_400;
    let rem = secs % 86_400;
    exists|y: int, m: int, d: int|
        #[trigger] is_date(y, m, d) && day_number(y, m, d) == day && s == zero_padded(d as nat, 2)
            + "/"@ + zero_padded(m as nat, 2) + "/"@ + zero_padded((y % 100) as nat, 2) + " "@
            + zero_padded((rem / 3600) as nat, 2) + ":"@ + zero_padded(
            (rem % 3600 / 60) as nat,
            2,
        ) + ":"@ + zero_padded((rem % 60) as nat, 2) + "."@ + zero_padded(
            (ts as int % 1000) as nat,
            3,
        )
}

pub fn fmt_wall(ts: u64) -> (s: String)
    ensures
        is_wall_text(s@, ts),
{
    let secs: u64 = ts / 1000;
    let rem: u64 = secs % 86_400;
    let (y, m, d) = civil_from_days((secs / 86_400) as i64);
    proof {
        lemma_after_epoch(y as int, m as int, d as int);
    }
    let mut s = dec_padded(d as u128, 2);
    s.append("/");
    s.append(dec_padded(m as u128, 2).as_str());
    s.append("/");
    s.append(dec_padded((y % 100) as u128, 2).as_str());
    s.append(" ");
    s.append(dec_padded((rem / 3600) as u128, 2).as_str());
    s.append(":");
    s.append(dec_padded((rem % 3600 / 60) as u128, 2).as_str());
    s.append(":");
    s.append(dec_padded((rem % 60) as u128, 2).as_str());
    s.append(".");
    s.append(dec_padded((ts % 1000) as u128, 3).as_str());
    proof {
        assert(is_date(y as int, m as int, d as int));
    }
    s
}

proof fn lemma_after_epoch(y: int, m: int, d: int)
    requires
        is_date(y, m, d),
        day_number(y, m, d) >= 0,
    ensures
        y >= 1970,
{
    lemma_months(y);
    if y < 1970 {
        lemma_year_span(y, 1970);
        lemma_months(1970);
    }
}

/// Hours and minutes of the day.
pub open spec fn clock_text(unix_ms: nat) -> Seq<char> {
    zero_padded(unix_ms / 1000 / 3600 % 24, 2) + ":"@ + zero_padded(unix_ms / 1000 / 60 % 60, 2)
}

pub fn fmt_clock_short(unix_ms: u64) -> (s: String)
    ensures
        s@ == clock_text(unix_ms as nat),
{
    let secs: u64 = unix_ms / 1000;
    let mut s = dec_padded(((secs / 3600) % 24) as u128, 2);
    s.append(":");
    s.append(dec_padded(((secs / 60) % 60) as u128, 2).as_str());
    s
}

proof fn lemma_leap_rule(y: int)
    ensures
        is_leap(y) == (y % 400 == 0 || (y % 4 == 0 && y % 100 != 0)),
{
    assert(y % 400 == 0 ==> y % 4 == 0);
}

/// Day follows day: the days of a month are numbered one after the other, and the first day of
/// a month follows the last of the month before. The count starts with 1 January 1970.
pub proof fn law_days_follow_each_other(y: int, m: int, d: int)
    requires
        1 <= m <= 12,
    ensures
        day_number(1970, 1, 1) == 0,
        day_number(y, m, d + 1) == day_number(y, m, d) + 1,
        m == 1 || m == 3 || m == 5 || m == 7 || m == 8 || m == 10 ==> day_number(y, m + 1, 1)
            == day_number(y, m, 31) + 1,
        m == 4 || m == 6 || m == 9 || m == 11 ==> day_number(y, m + 1, 1) == day_number(y, m, 30)
            + 1,
        m == 2 ==> day_number(y, 3, 1) == day_number(y, 2, 28) + (if y % 400 == 0 || (y % 4 == 0
            && y % 100 != 0) {
            2int
        } else {
            1
        }),
{
    let start = 365 * (y - 1970) + leaps_before(y) - leaps_before(1970) - 1;
    assert(day_number(y, m, d + 1) == day_number(y, m, d) + 1);
    assert(day_number(1970, 1, 1) == 0) by {
        lemma_months(1970);
    }
    lemma_months(y);
    lemma_leap_rule(y);
    assert(forall|k: int, e: int| #[trigger]
        day_number(y, k, e) == start + days_before_month(y, k) + e);
}

/// Year follows year: New Year is the day after 31 December.
pub proof fn law_years_follow_each_other(y: int)
    ensures
        day_number(y + 1, 1, 1) == day_number(y, 12, 31) + 1,
{
    lemma_months(y);
    lemma_months(y + 1);
    lemma_next_leap(y);
}

/// A date has a month from 1 to 12 and a day that the month has: 31, 30, or in February 28
/// and in a leap year 29.
pub proof fn law_dates_of_the_calendar(y: int, m: int, d: int)
    ensures
        is_date(y, m, d) <==> {
            &&& 1 <= m <= 12 && 1 <= d <= 31
            &&& m == 4 || m == 6 || m == 9 || m == 11 ==> d <= 30
            &&& m == 2 ==> d <= 28 || (d == 29 && (y % 400 == 0 || (y % 4 == 0 && y % 100 != 0)))
        },
{
    lemma_leap_rule(y);
}

/// The wall clock shows day, month, the last two digits of the year, hours, minutes, seconds
/// and milliseconds: for a date and a time of the day it is the text of that moment.
pub proof fn law_wall_clock(
    ts: u64,
    y: int,
    m: int,
    d: int,
    hours: nat,
    minutes: nat,
    seconds: nat,
    millis: nat,
    text: Seq<char>,
)
    requires
        is_date(y, m, d),
        hours < 24 && minutes < 60 && seconds < 60 && millis < 1000,
        ts == (((day_number(y, m, d) * 24 + hours) * 60 + minutes) * 60 + seconds) * 1000 + millis,
        is_wall_text(text, ts),
    ensures
        text == zero_padded(d as nat, 2) + "/"@ + zero_padded(m as nat, 2) + "/"@ + zero_padded(
            (y % 100) as nat,
            2,
        ) + " "@ + zero_padded(hours, 2) + ":"@ + zero_padded(minutes, 2) + ":"@ + zero_padded(
            seconds,
            2,
        ) + "."@ + zero_padded(millis, 3),
{
    let n = day_number(y, m, d);
    let secs = ts as int / 1000;
    assert(secs == ((n * 24 + hours) * 60 + minutes) * 60 + seconds);
    assert(secs == n * 86_400 + (hours * 3600 + minutes * 60 + seconds));
    let rem = hours * 3600 + minutes * 60 + seconds;
    assert(secs / 86_400 == n && secs % 86_400 == rem);
    assert(rem / 3600 == hours && rem % 3600 / 60 == minutes && rem % 60 == seconds);
    let (y2, m2, d2) = choose|y2: int, m2: int, d2: int|
        #[trigger] is_date(y2, m2, d2) && day_number(y2, m2, d2) == secs / 86_400 && text
            == zero_padded(d2 as nat, 2) + "/"@ + zero_padded(m2 as nat, 2) + "/"@ + zero_padded(
            (y2 % 100) as nat,
            2,
        ) + " "@ + zero_padded((secs % 86_400 / 3600) as nat, 2) + ":"@ + zero_padded(
            (secs % 86_400 % 3600 / 60) as nat,
            2,
        ) + ":"@ + zero_padded((secs % 86_400 % 60) as nat, 2) + "."@ + zero_padded(
            (ts as int % 1000) as nat,
            3,
        );
    law_dates_are_unique(y, m, d, y2, m2, d2);
}

/// The time of day shows hours and minutes, whatever the day.
pub proof fn law_time_of_day(days: nat, hours: nat, minutes: nat, rest: nat)
    requires
        hours < 24 && minutes < 60 && rest < 60_000,
    ensures
        clock_text(((days * 24 + hours) * 60 + minutes) * 60_000 + rest) == zero_padded(hours, 2)
            + ":"@ + zero_padded(minutes, 2),
{
    let t = ((days * 24 + hours) * 60 + minutes) * 60_000 + rest;
    assert(t / 1000 / 3600 % 24 == hours);
    assert(t / 1000 / 60 % 60 == minutes);
}

} // verus!
