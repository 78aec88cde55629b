//! The proleptic Gregorian calendar in UTC: dates from day numbers, and
//! timestamps in the RFC 3339 form.

use vstd::prelude::*;
use vstd::string::*;

use crate::text;
use crate::text::{decimal, pad_zeros};

verus! {

/// Whether a year has 366 days.
pub open spec fn is_leap(y: int) -> bool {
    y % 4 == 0 && (y % 100 != 0 || y % 400 == 0)
}

/// The days of a month (1 to 12).
pub open spec fn month_days(y: int, m: int) -> int {
    if m == 2 {
        if is_leap(y) {
            29
        } else {
            28
        }
    } else if m == 4 || m == 6 || m == 9 || m == 11 {
        30
    } else {
        31
    }
}

/// Whether there is such a date.
pub open spec fn is_date(y: int, m: int, d: int) -> bool {
    1 <= m <= 12 && 1 <= d <= month_days(y, m)
}

/// The days of a year before a month.
pub open spec fn days_before_month(y: int, m: int) -> int
    decreases m,
{
    if m <= 1 {
        0
    } else {
        days_before_month(y, m - 1) + month_days(y, m - 1)
    }
}

/// The days from 1970-01-01 to the first of January of a year: 365 for
/// each year in between, and one more for each leap year among them.
pub open spec fn days_before_year(y: int) -> int {
    365 * (y - 1970) + leaps_before(y) - leaps_before(1970)
}

/// Leap years before a year, counted from the year 1.
pub open spec fn leaps_before(y: int) -> int {
    (y - 1) / 4 - (y - 1) / 100 + (y - 1) / 400
}

/// The days from 1970-01-01 to a date.
pub open spec fn day_number(y: int, m: int, d: int) -> int {
    days_before_year(y) + days_before_month(y, m) + d - 1
}

/// The year of an era (400 years that begin on the first of March) that
/// holds a day of the era, by the century, the four years and the day in
/// them.
proof fn lemma_year_of_era(doe: int, yoe: int)
    requires
        0 <= doe <= 146_096,
        yoe == (doe - doe / 1_460 + doe / 36_524 - doe / 146_096) / 365,
    ensures
        0 <= yoe <= 399,
        0 <= doe - (365 * yoe + yoe / 4 - yoe / 100) <= 365,
        doe - (365 * yoe + yoe / 4 - yoe / 100) == 365 ==> is_leap(yoe + 1),
{
    let c = if doe >= 3 * 36_524 {
        3
    } else {
        doe / 36_524
    };
    let doc = doe - 36_524 * c;
    assert(0 <= c <= 3 && 0 <= doc <= 36_524);
    assert(c < 3 ==> doc < 36_524);
    let q = doc / 1_461;
    let r = doc - 1_461 * q;
    assert(0 <= q <= 24 && 0 <= r <= 1_460);
    let b: int = if 24 * c + q + r >= 1_460 {
        1
    } else {
        0
    };
    assert(doe == 1_460 * (25 * c + q + b) + (24 * c + q + r - 1_460 * b));
    assert(0 <= 24 * c + q + r - 1_460 * b < 1_460);
    assert(doe / 1_460 == 25 * c + q + b);
    let last: int = if doe == 146_096 {
        1
    } else {
        0
    };
    assert(doe / 146_096 == last);
    assert(doe / 36_524 == c + last);
    let k: int = if r >= 1_095 {
        3
    } else {
        r / 365
    };
    let n = doe - doe / 1_460 + doe / 36_524 - doe / 146_096;
    assert(n == 36_500 * c + 1_460 * q + r - b);
    assert(n == 365 * (100 * c + 4 * q + k) + (r - b - 365 * k));
    assert(0 <= r - b - 365 * k < 365);
    assert(yoe == 100 * c + 4 * q + k);
    assert(yoe / 4 == 25 * c + q);
    assert(yoe / 100 == c);
    assert(doe - (365 * yoe + yoe / 4 - yoe / 100) == r - 365 * k);
    if r - 365 * k == 365 {
        assert(r == 1_460 && k == 3);
        assert(yoe + 1 == 100 * c + 4 * (q + 1));
        if q == 24 {
            assert(doc == 36_524);
            assert(c == 3);
        } else {
            assert((yoe + 1) % 100 == 4 * (q + 1));
        }
    }
}

/// The days of the eras, years and days before a date, counted from the
/// first of March of the year 0.
proof fn lemma_march_year(era: int, yoe: int)
    requires
        0 <= yoe <= 399,
    ensures
        ({
            let y = yoe + 400 * era;
            let z = 146_097 * era + 365 * yoe + yoe / 4 - yoe / 100;
            &&& days_before_year(y + 1) == z - 719_468 + 306
            &&& days_before_year(y) + days_before_month(y, 3) == z - 719_468
        }),
{
    let y = yoe + 400 * era;
    assert(y / 4 == yoe / 4 + 100 * era);
    assert(y / 100 == yoe / 100 + 4 * era);
    assert(y / 400 == era);
    lemma_year_length(y);
    lemma_months(y);
}

proof fn lemma_months(y: int)
    ensures
        days_before_month(y, 1) == 0,
        days_before_month(y, 2) == 31,
        days_before_month(y, 3) == 59 + leap_day(y),
        days_before_month(y, 4) == 90 + leap_day(y),
        days_before_month(y, 5) == 120 + leap_day(y),
        days_before_month(y, 6) == 151 + leap_day(y),
        days_before_month(y, 7) == 181 + leap_day(y),
        days_before_month(y, 8) == 212 + leap_day(y),
        days_before_month(y, 9) == 243 + leap_day(y),
        days_before_month(y, 10) == 273 + leap_day(y),
        days_before_month(y, 11) == 304 + leap_day(y),
        days_before_month(y, 12) == 334 + leap_day(y),
        days_before_month(y, 13) == 365 + leap_day(y),
{
    reveal_with_fuel(days_before_month, 14);
}

/// The leap day of a year, if it has one.
pub open spec fn leap_day(y: int) -> int {
    if is_leap(y) {
        1
    } else {
        0
    }
}

proof fn lemma_year_length(y: int)
    ensures
        days_before_year(y + 1) == days_before_year(y) + 365 + leap_day(y),
{
    lemma_quotient_4(y);
    lemma_quotient_100(y);
    lemma_quotient_400(y);
    lemma_multiples(y);
}

proof fn lemma_quotient_4(y: int)
    ensures
        y / 4 == (y - 1) / 4 + if y % 4 == 0 {
            1int
        } else {
            0
        },
{
}

proof fn lemma_quotient_100(y: int)
    ensures
        y / 100 == (y - 1) / 100 + if y % 100 == 0 {
            1int
        } else {
            0
        },
{
}

proof fn lemma_quotient_400(y: int)
    ensures
        y / 400 == (y - 1) / 400 + if y % 400 == 0 {
            1int
        } else {
            0
        },
{
}

proof fn lemma_multiples(y: int)
    ensures
        y % 400 == 0 ==> y % 100 == 0,
        y % 100 == 0 ==> y % 4 == 0,
{
}

/// The month and the day of it of a day of a year that begins in March of
/// year `y`.
proof fn lemma_month_of_year(y: int, doy: int, mp: int, d: int)
    requires
        0 <= doy <= 365,
        doy == 365 ==> is_leap(y + 1),
        mp == (5 * doy + 2) / 153,
        d == doy - (153 * mp + 2) / 5 + 1,
    ensures
        0 <= mp <= 11,
        mp < 10 ==> is_date(y, mp + 3, d) && days_before_month(y, mp + 3) + d - 1
            == days_before_month(y, 3) + doy,
        mp >= 10 ==> is_date(y + 1, mp - 9, d) && days_before_month(y + 1, mp - 9) + d - 1
            == doy - 306,
{
    lemma_months(y);
    lemma_months(y + 1);
    assert(0 <= mp <= 11);
    if mp == 0 {
        assert((153 * mp + 2) / 5 == 0);
    } else if mp == 1 {
        assert((153 * mp + 2) / 5 == 31);
    } else if mp == 2 {
        assert((153 * mp + 2) / 5 == 61);
    } else if mp == 3 {
        assert((153 * mp + 2) / 5 == 92);
    } else if mp == 4 {
        assert((153 * mp + 2) / 5 == 122);
    } else if mp == 5 {
        assert((153 * mp + 2) / 5 == 153);
    } else if mp == 6 {
        assert((153 * mp + 2) / 5 == 184);
    } else if mp == 7 {
        assert((153 * mp + 2) / 5 == 214);
    } else if mp == 8 {
        assert((153 * mp + 2) / 5 == 245);
    } else if mp == 9 {
        assert((153 * mp + 2) / 5 == 275);
    } else if mp == 10 {
        assert((153 * mp + 2) / 5 == 306);
    } else {
        assert((153 * mp + 2) / 5 == 337);
    }
}

/// Years of the same place in an era have the same leap day.
proof fn lemma_leap_repeats(y: int, era: int)
    ensures
        is_leap(y + 400 * era) == is_leap(y),
{
    vstd::arithmetic::div_mod::lemma_mod_multiples_vanish(100 * era, y, 4);
    vstd::arithmetic::div_mod::lemma_mod_multiples_vanish(4 * era, y, 100);
    vstd::arithmetic::div_mod::lemma_mod_multiples_vanish(era, y, 400);
}

/// Days since 1970-01-01 to (year, month, day), for any day number for
/// which the arithmetic stays in 64 bits.
pub fn civil_from_days(days: i64) -> (r: (i64, i64, i64))
    requires
        days <= i64::MAX - 719_468,
    ensures
        is_date(r.0 as int, r.1 as int, r.2 as int),
        day_number(r.0 as int, r.1 as int, r.2 as int) == days,
{
    let z: i64 = days + 719_468;
    let era: i64 = if z >= 0 {
        z / 146_097
    } else {
        -((-(z + 1)) / 146_097) - 1
    };
    assert(0 <= z - era * 146_097 <= 146_096);
    let doe: i64 = z - era * 146_097;
    let yoe: i64 = (doe - doe / 1_460 + doe / 36_524 - doe / 146_096) / 365;
    proof {
        lemma_year_of_era(doe as int, yoe as int);
    }
    let y: i64 = yoe + era * 400;
    let doy: i64 = doe - (365 * yoe + yoe / 4 - yoe / 100);
    let mp: i64 = (5 * doy + 2) / 153;
    let d: i64 = doy - (153 * mp + 2) / 5 + 1;
    proof {
        lemma_march_year(era as int, yoe as int);
        lemma_leap_repeats(yoe + 1, era as int);
        lemma_month_of_year(y as int, doy as int, mp as int, d as int);
    }
    let m: i64 = if mp < 10 {
        mp + 3
    } else {
        mp - 9
    };
    (
        if m <= 2 {
            y + 1
        } else {
            y
        },
        m,
        d,
    )
}

/// The days of a month.
pub fn days_in_month(y: i64, m: i64) -> (n: i64)
    ensures
        n == month_days(y as int, m as int),
{
    if m == 2 {
        if y % 4 == 0 && (y % 100 != 0 || y % 400 == 0) {
            29
        } else {
            28
        }
    } else if m == 4 || m == 6 || m == 9 || m == 11 {
        30
    } else {
        31
    }
}

/// The text of a timestamp of milliseconds since 1970-01-01 in the RFC 3339
/// form, for the date that its day has.
pub open spec fn is_timestamp(unix_ms: u64, s: Seq<char>) -> bool {
    exists|y: int, m: int, d: int|
        {
            &&& is_date(y, m, d)
            &&& #[trigger] day_number(y, m, d) == unix_ms as int / 86_400_000
            &&& s == timestamp_text(y, m, d, unix_ms as int % 86_400_000)
        }
}

/// The RFC 3339 text of a timestamp.
pub open spec fn rfc3339_text(unix_ms: u64) -> Seq<char> {
    choose|s: Seq<char>| is_timestamp(unix_ms, s)
}

/// A date and the milliseconds of the day as text.
pub open spec fn timestamp_text(y: int, m: int, d: int, ms: int) -> Seq<char> {
    let sec = ms / 1000;
    padded_text(4, y) + "-"@ + padded_text(2, m) + "-"@ + padded_text(2, d) + "T"@ + padded_text(2, sec / 3_600) + ":"@ + padded_text(
        2,
        (sec % 3_600) / 60,
    ) + ":"@ + padded_text(2, sec % 60) + "."@ + padded_text(3, ms % 1000) + "Z"@
}

/// A number with zeros in front up to a width.
pub open spec fn padded_text(width: nat, n: int) -> Seq<char> {
    text::zero_pad(text::dec(n as nat), width)
}

fn padded(width: usize, n: u64) -> (s: String)
    ensures
        s@ == padded_text(width as nat, n as int),
{
    pad_zeros(decimal(n).as_str(), width)
}

/// A date of a day after 1969 is in a year after 1969.
proof fn lemma_year_is_not_before_1970(y: int, m: int, d: int)
    requires
        is_date(y, m, d),
        day_number(y, m, d) >= 0,
    ensures
        y >= 1970,
{
    lemma_months(y);
    if y < 1970 {
        lemma_years_grow(y + 1, 1970);
        lemma_year_length(y);
        lemma_within_year(y, m, d);
    }
}

proof fn lemma_within_year(y: int, m: int, d: int)
    requires
        is_date(y, m, d),
    ensures
        0 <= days_before_month(y, m) + d - 1 < 365 + leap_day(y),
{
    lemma_months(y);
    assert(m == 1 || m == 2 || m == 3 || m == 4 || m == 5 || m == 6 || m == 7 || m == 8 || m == 9
        || m == 10 || m == 11 || m == 12);
}

proof fn lemma_years_grow(x: int, y: int)
    requires
        x <= y,
    ensures
        days_before_year(x) <= days_before_year(y) - 365 * (y - x),
    decreases y - x,
{
    if x < y {
        lemma_years_grow(x, y - 1);
        lemma_year_length(y - 1);
    }
}

/// RFC 3339 UTC with millisecond precision from Unix milliseconds.
pub fn rfc3339_ms(unix_ms: u64) -> (s: String)
    ensures
        is_timestamp(unix_ms, s@),
        s@ == rfc3339_text(unix_ms),
{
    let secs: u64 = unix_ms / 1000;
    let millis: u64 = unix_ms % 1000;
    let days: u64 = secs / 86_400;
    let sod: u64 = secs % 86_400;
    assert(days == unix_ms / 86_400_000);
    assert(sod == (unix_ms % 86_400_000) / 1000);
    assert(millis == (unix_ms % 86_400_000) % 1000);
    let (year, month, day) = civil_from_days(days as i64);
    proof {
        lemma_year_is_not_before_1970(year as int, month as int, day as int);
    }
    let mut s = padded(4, year as u64);
    s.append("-");
    s.append(padded(2, month as u64).as_str());
    s.append("-");
    s.append(padded(2, day as u64).as_str());
    s.append("T");
    s.append(padded(2, sod / 3_600).as_str());
    s.append(":");
    s.append(padded(2, (sod % 3_600) / 60).as_str());
    s.append(":");
    s.append(padded(2, sod % 60).as_str());
    s.append(".");
    s.append(padded(3, millis).as_str());
    s.append("Z");
    assert(s@ == timestamp_text(
        year as int,
        month as int,
        day as int,
        unix_ms as int % 86_400_000,
    ));
    assert(day_number(year as int, month as int, day as int) == unix_ms as int / 86_400_000);
    proof {
        law_timestamps_are_unique(unix_ms, s@, rfc3339_text(unix_ms));
    }
    s
}

// ---------------------------------------------------------------------------
// Laws
// ---------------------------------------------------------------------------

/// 1970-01-01 is day 0, and every date but the last of its month is followed
/// by the next day of the month.
pub proof fn law_days_are_numbered_in_order(y: int, m: int, d: int)
    requires
        is_date(y, m, d),
    ensures
        day_number(1970, 1, 1) == 0,
        d < month_days(y, m) ==> is_date(y, m, d + 1) && day_number(y, m, d + 1) == day_number(
            y,
            m,
            d,
        ) + 1,
        d == month_days(y, m) && m < 12 ==> day_number(y, m + 1, 1) == day_number(y, m, d) + 1,
        d == month_days(y, m) && m == 12 ==> day_number(y + 1, 1, 1) == day_number(y, m, d) + 1,
{
    lemma_months(1970);
    lemma_months(y);
    lemma_months(y + 1);
    lemma_year_length(y);
}

/// A day number belongs to one date: no two dates share one.
pub proof fn law_day_numbers_are_unique(
    y: int,
    m: int,
    d: int,
    y2: int,
    m2: int,
    d2: int,
)
    requires
        is_date(y, m, d),
        is_date(y2, m2, d2),
        day_number(y, m, d) == day_number(y2, m2, d2),
    ensures
        y == y2,
        m == m2,
        d == d2,
{
    lemma_within_year(y, m, d);
    lemma_within_year(y2, m2, d2);
    if y < y2 {
        lemma_years_grow(y + 1, y2);
        lemma_year_length(y);
    }
    if y2 < y {
        lemma_years_grow(y2 + 1, y);
        lemma_year_length(y2);
    }
    lemma_months(y);
    assert(m == 1 || m == 2 || m == 3 || m == 4 || m == 5 || m == 6 || m == 7 || m == 8 || m == 9
        || m == 10 || m == 11 || m == 12);
    assert(m2 == 1 || m2 == 2 || m2 == 3 || m2 == 4 || m2 == 5 || m2 == 6 || m2 == 7 || m2 == 8
        || m2 == 9 || m2 == 10 || m2 == 11 || m2 == 12);
}

/// A timestamp has one text.
pub proof fn law_timestamps_are_unique(unix_ms: u64, s: Seq<char>, t: Seq<char>)
    requires
        is_timestamp(unix_ms, s),
        is_timestamp(unix_ms, t),
    ensures
        s == t,
{
    let ms = unix_ms as int % 86_400_000;
    let (y, m, d) = choose|y: int, m: int, d: int|
        {
            &&& is_date(y, m, d)
            &&& #[trigger] day_number(y, m, d) == unix_ms as int / 86_400_000
            &&& s == timestamp_text(y, m, d, ms)
        };
    let (y2, m2, d2) = choose|y: int, m: int, d: int|
        {
            &&& is_date(y, m, d)
            &&& #[trigger] day_number(y, m, d) == unix_ms as int / 86_400_000
            &&& t == timestamp_text(y, m, d, ms)
        };
    law_day_numbers_are_unique(y, m, d, y2, m2, d2);
}

/// Every day number has a date.
pub proof fn law_every_day_has_a_date(day: int)
    ensures
        exists|y: int, m: int, d: int| is_date(y, m, d) && #[trigger] day_number(y, m, d) == day,
{
    let z = day + 719_468;
    let era = z / 146_097;
    let doe = z - era * 146_097;
    let yoe = (doe - doe / 1_460 + doe / 36_524 - doe / 146_096) / 365;
    lemma_year_of_era(doe, yoe);
    let y = yoe + era * 400;
    let doy = doe - (365 * yoe + yoe / 4 - yoe / 100);
    let mp = (5 * doy + 2) / 153;
    let d = doy - (153 * mp + 2) / 5 + 1;
    lemma_march_year(era, yoe);
    lemma_leap_repeats(yoe + 1, era);
    lemma_month_of_year(y, doy, mp, d);
    if mp < 10 {
        assert(is_date(y, mp + 3, d) && day_number(y, mp + 3, d) == day);
    } else {
        assert(is_date(y + 1, mp - 9, d) && day_number(y + 1, mp - 9, d) == day);
    }
}

} // verus!
