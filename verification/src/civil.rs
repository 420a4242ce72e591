//! The calendar: dates and clock times of the proleptic Gregorian calendar
//! in UTC, and their texts.

use crate::text;
use vstd::prelude::*;
use vstd::string::*;

verus! {

/// Whether a year has a leap day.
pub open spec fn is_leap(y: int) -> bool {
    y % 4 == 0 && (y % 100 != 0 || y % 400 == 0)
}

/// The days of a month.
pub open spec fn month_days(y: int, m: int) -> int {
    if m == 2 {
        if is_leap(y) {
            29
        } else {
            28
        }
    } else if m == 4 || m == 6 || m == 9 || m == 11 {
        30
    } else {
        31
    }
}

/// A day of the calendar.
pub open spec fn is_date(y: int, m: int, d: int) -> bool {
    1 <= m <= 12 && 1 <= d <= month_days(y, m)
}

/// The days of a year before a month.
pub open spec fn days_before(y: int, m: int) -> int
    decreases m,
{
    if m <= 1 {
        0
    } else {
        days_before(y, m - 1) + month_days(y, m - 1)
    }
}

/// The leap years up to a year.
pub open spec fn leaps(y: int) -> int {
    y / 4 - y / 100 + y / 400
}

/// The days from the epoch to a day.
pub open spec fn days_of(y: int, m: int, d: int) -> int {
    365 * (y - 1970) + leaps(y - 1) - leaps(1969) + days_before(y, m) + d - 1
}

/// A moment: a day and a clock time.
pub struct Civil {
    pub year: i32,
    pub month: u8,
    pub day: u8,
    pub hour: u8,
    pub minute: u8,
    pub second: u8,
}

/// The days that the calendar covers, from the year -9999 to the year 9999.
pub open spec fn covered(days: int) -> bool {
    days_of(-9999, 1, 1) <= days <= days_of(9999, 12, 31)
}

/// The Julian day of the epoch.
pub const EPOCH_JULIAN_DAY: i64 = 2_440_588;

/// `time::Date::from_julian_day`: the day of the proleptic Gregorian
/// calendar with a Julian day number; none outside the years -9999 to 9999.
#[verifier::external_body]
pub(crate) fn date_of_julian(julian: i32) -> (r: Option<(i32, u8, u8)>)
    ensures
        match r {
            Some((y, m, d)) => is_date(y as int, m as int, d as int) && -9999 <= y <= 9999
                && days_of(y as int, m as int, d as int) == julian - EPOCH_JULIAN_DAY,
            None => !covered(julian - EPOCH_JULIAN_DAY),
        },
{
    match time::Date::from_julian_day(julian) {
        Ok(at) => Some((at.year(), u8::from(at.month()), at.day())),
        Err(_) => None,
    }
}

/// Whether `c` is the moment some seconds after the epoch.
pub open spec fn is_moment(c: Civil, seconds: int) -> bool {
    &&& is_date(c.year as int, c.month as int, c.day as int)
    &&& -9999 <= c.year <= 9999
    &&& c.hour < 24
    &&& c.minute < 60
    &&& c.second < 60
    &&& days_of(c.year as int, c.month as int, c.day as int) == seconds / 86_400
    &&& c.hour * 3_600 + c.minute * 60 + c.second == seconds % 86_400
}

/// `time::OffsetDateTime::from_unix_timestamp`: the moment some seconds
/// after the epoch, in UTC; none outside the years -9999 to 9999.
#[verifier::external_body]
pub(crate) fn moment_of(seconds: i64) -> (r: Option<Civil>)
    ensures
        match r {
            Some(c) => is_moment(c, seconds as int),
            None => !covered(seconds as int / 86_400),
        },
{
    match time::OffsetDateTime::from_unix_timestamp(seconds) {
        Ok(at) => Some(
            Civil {
                year: at.year(),
                month: u8::from(at.month()),
                day: at.day(),
                hour: at.hour(),
                minute: at.minute(),
                second: at.second(),
            },
        ),
        Err(_) => None,
    }
}

/// A year in at least four characters.
pub open spec fn year_text(y: int) -> Seq<char> {
    if y < 0 {
        "-"@ + text::padded((-y) as nat, 3)
    } else {
        text::padded(y as nat, 4)
    }
}

/// `YYYY-MM-DD` of a day.
pub open spec fn day_text(y: int, m: int, d: int) -> Seq<char> {
    year_text(y) + "-"@ + text::padded(m as nat, 2) + "-"@ + text::padded(d as nat, 2)
}

/// `YYYY-MM-DDTHH:MM:SS` of a moment.
pub open spec fn moment_text(c: Civil) -> Seq<char> {
    day_text(c.year as int, c.month as int, c.day as int) + "T"@ + text::padded(c.hour as nat, 2)
        + ":"@ + text::padded(c.minute as nat, 2) + ":"@ + text::padded(c.second as nat, 2)
}

fn push_year(out: &mut String, y: i32)
    requires
        -9999 <= y <= 9999,
    ensures
        final(out)@ == old(out)@ + year_text(y as int),
{
    let ghost start = out@;
    if y < 0 {
        let n: u64 = (-(y as i64)) as u64;
        out.append("-");
        text::push_padded(out, n, 3);
        proof {
            assert(out@ =~= start + year_text(y as int));
        }
    } else {
        text::push_padded(out, y as u64, 4);
    }
}

fn push_day(out: &mut String, y: i32, m: u8, d: u8)
    requires
        -9999 <= y <= 9999,
    ensures
        final(out)@ == old(out)@ + day_text(y as int, m as int, d as int),
{
    let ghost start = out@;
    push_year(out, y);
    out.append("-");
    text::push_padded(out, m as u64, 2);
    out.append("-");
    text::push_padded(out, d as u64, 2);
    proof {
        assert(out@ =~= start + day_text(y as int, m as int, d as int));
    }
}

/// Appends a moment, to the second.
pub fn push_moment(out: &mut String, c: &Civil)
    requires
        -9999 <= c.year <= 9999,
    ensures
        final(out)@ == old(out)@ + moment_text(*c),
{
    let ghost start = out@;
    push_day(out, c.year, c.month, c.day);
    out.append("T");
    text::push_padded(out, c.hour as u64, 2);
    out.append(":");
    text::push_padded(out, c.minute as u64, 2);
    out.append(":");
    text::push_padded(out, c.second as u64, 2);
    proof {
        assert(out@ =~= start + moment_text(*c));
    }
}

/// The date of some days since the epoch.
pub open spec fn date_at(days: int) -> (int, int, int) {
    choose|y: int, m: int, d: int| is_date(y, m, d) && #[trigger] days_of(y, m, d) == days
}

/// `YYYY-MM-DD` of some days since the epoch.
pub open spec fn day_text_at(days: int) -> Seq<char> {
    let (y, m, d) = date_at(days);
    day_text(y, m, d)
}

proof fn date_at_is(y: int, m: int, d: int)
    requires
        is_date(y, m, d),
    ensures
        date_at(days_of(y, m, d)) == (y, m, d),
{
    let days = days_of(y, m, d);
    let (z, n, e) = choose|z: int, n: int, e: int|
        is_date(z, n, e) && #[trigger] days_of(z, n, e) == days;
    assert(is_date(z, n, e) && days_of(z, n, e) == days);
    days_name_one_date(y, m, d, z, n, e);
}

/// The moment some seconds after the epoch.
pub open spec fn moment_at(seconds: int) -> Civil {
    choose|c: Civil| is_moment(c, seconds)
}

/// There is one moment at every second.
pub proof fn moment_at_is(c: Civil, seconds: int)
    requires
        is_moment(c, seconds),
    ensures
        moment_at(seconds) == c,
{
    let b = moment_at(seconds);
    assert(is_moment(b, seconds));
    days_name_one_date(
        b.year as int,
        b.month as int,
        b.day as int,
        c.year as int,
        c.month as int,
        c.day as int,
    );
}

/// `YYYY-MM-DD` of days since the epoch; none outside the calendar.
pub fn day_of(days: i64) -> (r: Option<String>)
    ensures
        match r {
            Some(s) => covered(days as int) && s@ == day_text_at(days as int),
            None => !covered(days as int),
        },
{
    proof {
        covered_fits();
    }
    let sum: i128 = EPOCH_JULIAN_DAY as i128 + days as i128;
    if sum > i32::MAX as i128 || sum < i32::MIN as i128 {
        return None;
    }
    match date_of_julian(sum as i32) {
        None => None,
        Some((y, m, d)) => {
            let mut out = String::new();
            push_day(&mut out, y, m, d);
            proof {
                assert(out@ =~= day_text(y as int, m as int, d as int));
                date_at_is(y as int, m as int, d as int);
                date_is_covered(y as int, m as int, d as int);
            }
            Some(out)
        },
    }
}

proof fn covered_fits()
    ensures
        forall|days: int| covered(days) ==> -5_000_000 <= days <= 3_000_000,
{
    reveal_with_fuel(days_before, 13);
}

/// `YYYY-MM-DDTHH:MM:SS[.fraction]Z` of a moment, with some digits of a
/// second's fraction.
pub open spec fn time_text(c: Civil, fraction: nat, digits: nat) -> Seq<char> {
    moment_text(c) + (if digits == 0 {
        Seq::empty()
    } else {
        "."@ + text::padded(fraction, digits)
    }) + "Z"@
}

/// `YYYY-MM-DDTHH:MM:SS[.fraction]Z`, with `digits` of a second's fraction.
pub fn moment_with_fraction(seconds: i64, fraction: u64, digits: usize) -> (r: Option<String>)
    ensures
        match r {
            Some(s) => covered(seconds as int / 86_400) && s@ == time_text(
                moment_at(seconds as int),
                fraction as nat,
                digits as nat,
            ),
            None => !covered(seconds as int / 86_400),
        },
{
    match moment_of(seconds) {
        None => None,
        Some(c) => {
            let mut out = String::new();
            push_moment(&mut out, &c);
            if digits > 0 {
                out.append(".");
                text::push_padded(&mut out, fraction, digits);
            }
            out.append("Z");
            proof {
                assert(out@ =~= time_text(c, fraction as nat, digits as nat));
                moment_at_is(c, seconds as int);
                date_is_covered(c.year as int, c.month as int, c.day as int);
            }
            Some(out)
        },
    }
}

/// The days from the epoch to the first day of a year.
pub open spec fn year_start(y: int) -> int {
    365 * (y - 1970) + leaps(y - 1) - leaps(1969)
}

proof fn years_follow(y: int)
    ensures
        year_start(y + 1) == year_start(y) + (if is_leap(y) {
            366int
        } else {
            365
        }),
{
}

proof fn years_ascend(a: int, b: int)
    requires
        a <= b,
    ensures
        year_start(a) <= year_start(b),
        a < b ==> year_start(a + 1) <= year_start(b),
    decreases b - a,
{
    if a < b {
        years_ascend(a, b - 1);
        years_follow(b - 1);
        years_follow(a);
        if a + 1 < b {
            years_ascend(a + 1, b);
        }
    }
}

proof fn months_ascend(y: int, a: int, b: int)
    requires
        1 <= a < b <= 13,
    ensures
        days_before(y, a) + month_days(y, a) <= days_before(y, b),
    decreases b - a,
{
    if a + 1 < b {
        months_ascend(y, a, b - 1);
    }
}

proof fn within_year(y: int, m: int, d: int)
    requires
        is_date(y, m, d),
    ensures
        year_start(y) <= days_of(y, m, d) < year_start(y + 1),
{
    years_follow(y);
    reveal_with_fuel(days_before, 14);
}

/// No two dates are on one day.
pub proof fn days_name_one_date(y: int, m: int, d: int, z: int, n: int, e: int)
    requires
        is_date(y, m, d),
        is_date(z, n, e),
        days_of(y, m, d) == days_of(z, n, e),
    ensures
        y == z && m == n && d == e,
{
    within_year(y, m, d);
    within_year(z, n, e);
    if y < z {
        years_ascend(y, z);
    } else if z < y {
        years_ascend(z, y);
    } else if m < n {
        months_ascend(y, m, n);
    } else if n < m {
        months_ascend(y, n, m);
    }
}

/// The days of the years -9999 to 9999 are covered.
pub proof fn date_is_covered(y: int, m: int, d: int)
    requires
        is_date(y, m, d),
        -9999 <= y <= 9999,
    ensures
        covered(days_of(y, m, d)),
{
    within_year(y, m, d);
    years_ascend(-9999, y);
    years_ascend(y + 1, 10_000);
    years_follow(9999);
    reveal_with_fuel(days_before, 14);
}

} // verus!
