//! Dates of the Gregorian calendar and their ISO 8601 form.

use vstd::prelude::*;
use vstd::string::StringExecFns;
use crate::text;

verus! {

/// The Julian day of 1970-01-01.
pub const UNIX_EPOCH_JULIAN_DAY: u64 = 2440588;

pub const DAY_MS: u64 = 86_400_000;

pub open spec fn is_leap_year(y: int) -> bool {
    y % 4 == 0 && (y % 100 != 0 || y % 400 == 0)
}

pub open spec fn days_in_month(y: int, m: int) -> int {
    if m == 2 {
        if is_leap_year(y) {
            29
        } else {
            28
        }
    } else if m == 4 || m == 6 || m == 9 || m == 11 {
        30
    } else {
        31
    }
}

/// Whether there is such a date.
pub open spec fn is_date(y: int, m: int, d: int) -> bool {
    y >= 1 && 1 <= m <= 12 && 1 <= d <= days_in_month(y, m)
}

/// The number of days of the months before month `m` in year `y`.
pub open spec fn days_before_month(y: int, m: int) -> int
    decreases m,
{
    if m <= 1 {
        0
    } else {
        days_before_month(y, m - 1) + days_in_month(y, m - 1)
    }
}

/// The number of days from 0001-01-01 to the first day of year `y`.
pub open spec fn days_before_year(y: int) -> int {
    365 * (y - 1) + (y - 1) / 4 - (y - 1) / 100 + (y - 1) / 400
}

/// The Julian day of a date.
pub open spec fn julian_day(y: int, m: int, d: int) -> int {
    1721426 + days_before_year(y) + days_before_month(y, m) + d - 1
}

/// The number of days from the first of March to the first of the month that comes `k` months
/// later.
pub open spec fn days_from_march(k: int) -> int {
    (153 * k + 2) / 5
}

proof fn lemma_months_before(y: int)
    ensures
        days_before_month(y, 1) == 0,
        days_before_month(y, 2) == 31,
        days_before_month(y, 3) == 59 + if is_leap_year(y) { 1int } else { 0 },
        days_before_month(y, 4) == 90 + if is_leap_year(y) { 1int } else { 0 },
        days_before_month(y, 5) == 120 + if is_leap_year(y) { 1int } else { 0 },
        days_before_month(y, 6) == 151 + if is_leap_year(y) { 1int } else { 0 },
        days_before_month(y, 7) == 181 + if is_leap_year(y) { 1int } else { 0 },
        days_before_month(y, 8) == 212 + if is_leap_year(y) { 1int } else { 0 },
        days_before_month(y, 9) == 243 + if is_leap_year(y) { 1int } else { 0 },
        days_before_month(y, 10) == 273 + if is_leap_year(y) { 1int } else { 0 },
        days_before_month(y, 11) == 304 + if is_leap_year(y) { 1int } else { 0 },
        days_before_month(y, 12) == 334 + if is_leap_year(y) { 1int } else { 0 },
{
    reveal_with_fuel(days_before_month, 13);
}

/// What a year adds to the number of leap days up to it.
proof fn lemma_leap_days(y: int)
    requires
        y >= 1,
    ensures
        y / 4 - (y - 1) / 4 == if y % 4 == 0 { 1int } else { 0 },
        y / 100 - (y - 1) / 100 == if y % 100 == 0 { 1int } else { 0 },
        y / 400 - (y - 1) / 400 == if y % 400 == 0 { 1int } else { 0 },
        y % 100 == 0 ==> y % 4 == 0,
        y % 400 == 0 ==> y % 100 == 0,
{
}

/// The day of the year that begins in March, split into months that end in February.
proof fn lemma_month_of(g: int)
    requires
        0 <= g <= 365,
    ensures
        ({
            let h = 5 * g + 2;
            let k = h / 153;
            let d = (h % 153) / 5;
            &&& 0 <= k <= 11
            &&& g == days_from_march(k) + d
            &&& 0 <= d
            &&& k == 0 || k == 2 || k == 4 || k == 5 || k == 7 || k == 9 || k == 10 ==> d <= 30
            &&& k == 1 || k == 3 || k == 6 || k == 8 ==> d <= 29
            &&& k == 11 ==> d == g - 337
        }),
{
    let h = 5 * g + 2;
    let k = h / 153;
    assert(h == 153 * k + h % 153);
    assert(0 <= k <= 11);
    if k == 0 {
    } else if k == 1 {
    } else if k == 2 {
    } else if k == 3 {
    } else if k == 4 {
    } else if k == 5 {
    } else if k == 6 {
    } else if k == 7 {
    } else if k == 8 {
    } else if k == 9 {
    } else if k == 10 {
    } else {
        assert(k == 11);
    }
}

/// The days since 0000-03-01 in years that begin in March: `s` counts the centuries of a cycle of 400
/// years that the day is past.
proof fn lemma_cycle(n: int, s: int, p: int, g: int)
    requires
        0 <= n < 146097,
        s == (if n < 36524 { 0int } else if n < 73048 { 1 } else if n < 109572 { 2 } else { 3 }),
        0 <= g <= 365,
        p >= 0,
        g == 365 ==> p % 4 == 3,
        n + s == 365 * p + p / 4 + g,
    ensures
        p < 400,
        p / 100 == s,
        g == 365 ==> is_leap_year(p + 1),
{
    assert(p < 400) by {
        if p >= 400 {
            assert(365 * p + p / 4 >= 146100);
        }
    }
    assert(100 * s <= p) by {
        if p < 100 * s {
            assert(p <= 100 * s - 1);
            assert(p / 4 <= (100 * s - 1) / 4);
            assert((100 * s - 1) / 4 == 25 * s - 1);
            assert(365 * p + p / 4 + g <= 365 * (100 * s - 1) + 25 * s - 1 + 365);
        }
    }
    assert(p <= 100 * s + 99) by {
        if p >= 100 * s + 100 {
            assert(p / 4 >= 25 * s + 25);
        }
    }
    if g == 365 {
        if (p + 1) % 100 == 0 && s < 3 {
            assert(p == 100 * s + 99);
            assert(p / 4 == 25 * s + 24);
        }
        if s == 3 && (p + 1) % 100 == 0 {
            assert(p + 1 == 400);
        }
    }
}

/// The whole number of days since 0000-03-01 is split by the year that begins in March.
proof fn lemma_march_year(n: int, t: int, p: int, g: int)
    requires
        n >= 0,
        t == (3 * ((4 * n + 4) / 146097) + 3) / 4,
        0 <= g <= 365,
        p >= 0,
        g == 365 ==> p % 4 == 3,
        n + t == 365 * p + p / 4 + g,
    ensures
        t == p / 100 - p / 400,
        g == 365 ==> is_leap_year(p + 1),
{
    let a = n / 146097;
    let m = n % 146097;
    assert(n == 146097 * a + m);
    let k = (4 * m + 4) / 146097;
    assert((4 * n + 4) / 146097 == 4 * a + k);
    let s = if m < 36524 { 0int } else if m < 73048 { 1 } else if m < 109572 { 2 } else { 3 };
    assert(t == 3 * a + s);
    let b = p / 400;
    let q = p % 400;
    assert(p == 400 * b + q);
    assert(p / 4 == 100 * b + q / 4);
    assert(365 * p + p / 4 == 146100 * b + 365 * q + q / 4);
    assert(0 <= 365 * q + q / 4 + g < 146101);
    assert(q == 399 ==> q / 4 == 99);
    assert(146100 * a + m + s == 146100 * b + 365 * q + q / 4 + g);
    assert(0 <= m + s < 146100);
    if 365 * q + q / 4 + g == 146100 {
        assert(q == 399);
        assert(365 * 399 + 99 + g == 146100);
        assert(g == 366);
    }
    assert(a == b);
    assert(p % 4 == q % 4);
    lemma_cycle(m, s, q, g);
    assert(p / 100 == 4 * b + q / 100);
    if g == 365 {
        assert((p + 1) % 4 == (q + 1) % 4);
        assert((p + 1) % 100 == (q + 1) % 100);
        assert((p + 1) % 400 == (q + 1) % 400);
    }
}

/// Two dates with the same Julian day are the same date.
pub proof fn julian_day_tells_dates_apart(
    y1: int,
    m1: int,
    d1: int,
    y2: int,
    m2: int,
    d2: int,
)
    requires
        is_date(y1, m1, d1),
        is_date(y2, m2, d2),
        julian_day(y1, m1, d1) == julian_day(y2, m2, d2),
    ensures
        y1 == y2,
        m1 == m2,
        d1 == d2,
{
    lemma_in_year(y1, m1, d1);
    lemma_in_year(y2, m2, d2);
    if y1 < y2 {
        lemma_years_grow(y1, y2);
    } else if y2 < y1 {
        lemma_years_grow(y2, y1);
    } else {
        lemma_months_before(y1);
    }
}

proof fn lemma_in_year(y: int, m: int, d: int)
    requires
        is_date(y, m, d),
    ensures
        0 <= days_before_month(y, m) + d - 1 < days_before_year(y + 1) - days_before_year(y),
{
    lemma_months_before(y);
    lemma_leap_days(y);
}

proof fn lemma_years_grow(a: int, b: int)
    requires
        1 <= a < b,
    ensures
        days_before_year(a + 1) <= days_before_year(b),
    decreases b - a,
{
    if a + 1 < b {
        lemma_years_grow(a, b - 1);
        lemma_leap_days(b - 1);
    }
}

/// The date with the given Julian day.
pub open spec fn date_of(jd: int) -> (int, int, int) {
    choose|t: (int, int, int)|
        is_date(t.0, t.1, t.2) && #[trigger] julian_day(t.0, t.1, t.2) == jd
}

proof fn lemma_date_of(y: int, m: int, d: int)
    requires
        is_date(y, m, d),
    ensures
        date_of(julian_day(y, m, d)) == (y, m, d),
{
    let t = (y, m, d);
    assert(is_date(t.0, t.1, t.2) && julian_day(t.0, t.1, t.2) == julian_day(y, m, d));
    let u = date_of(julian_day(y, m, d));
    julian_day_tells_dates_apart(y, m, d, u.0, u.1, u.2);
}

proof fn lemma_march_split(j: int, f: int, e: int, g: int)
    requires
        1721426 <= j,
        f == j + 1401 + ((((4 * j + 274277) / 146097) * 3) / 4) - 38,
        e == 4 * f + 3,
        g == (e % 1461) / 4,
    ensures
        ({
            let n = j - 1721120;
            let t = (3 * ((4 * n + 4) / 146097) + 3) / 4;
            let p = e / 1461 - 4716;
            &&& n + t == 365 * p + p / 4 + g
            &&& p >= 0
            &&& 0 <= g <= 365
            &&& g == 365 ==> p % 4 == 3
        }),
{
    let n = j - 1721120;
    let t = (3 * ((4 * n + 4) / 146097) + 3) / 4;
    let yy = e / 1461;
    let p = yy - 4716;
    assert(4 * j + 274277 == 49 * 146097 + 4 * n + 4);
    assert((4 * j + 274277) / 146097 == 49 + (4 * n + 4) / 146097);
    assert(f == n + 1722519 + t);
    assert(e == 1461 * yy + e % 1461);
    let b = yy % 4;
    assert(yy == 4 * (yy / 4) + b);
    assert(f == 365 * yy + yy / 4 + g) by {
        assert(e % 1461 == 4 * g + (e % 1461) % 4);
    }
    assert(yy / 4 == p / 4 + 1179);
    assert(p >= 0);
    if g == 365 {
        assert(p % 4 == b);
    }
}

/// The arithmetic on a Julian day gives its date.
proof fn lemma_calendar_arithmetic(j: int, f: int, e: int, g: int, h: int)
    requires
        1721426 <= j,
        f == j + 1401 + ((((4 * j + 274277) / 146097) * 3) / 4) - 38,
        e == 4 * f + 3,
        g == (e % 1461) / 4,
        h == 5 * g + 2,
    ensures
        ({
            let day = (h % 153) / 5 + 1;
            let month = ((h / 153 + 2) % 12) + 1;
            let year = (e / 1461) - 4716 + (14 - month) / 12;
            is_date(year, month, day) && julian_day(year, month, day) == j
        }),
{
    let n = j - 1721120;
    let t = (3 * ((4 * n + 4) / 146097) + 3) / 4;
    let p = e / 1461 - 4716;
    let day = (h % 153) / 5 + 1;
    let month = ((h / 153 + 2) % 12) + 1;
    let year = p + (14 - month) / 12;
    lemma_march_split(j, f, e, g);
    lemma_march_year(n, t, p, g);
    lemma_month_of(g);
    let k = h / 153;
    lemma_months_before(p);
    lemma_months_before(p + 1);
    lemma_leap_days(p + 1);
    if p >= 1 {
        lemma_leap_days(p);
    }
    assert(month == if k <= 9 { k + 3 } else { k - 9 });
    assert(year == if k <= 9 { p } else { p + 1 });
    assert(j == 1721120 + 365 * p + p / 4 - p / 100 + p / 400 + days_from_march(k) + day - 1);
}

/// The date of a Julian day.
pub fn jd_to_ymd(jd: u64) -> (r: (u32, u32, u32))
    requires
        1721426 <= jd <= 1_568_000_000_000,
    ensures
        (r.0 as int, r.1 as int, r.2 as int) == date_of(jd as int),
        is_date(r.0 as int, r.1 as int, r.2 as int),
        julian_day(r.0 as int, r.1 as int, r.2 as int) == jd,
{
    let j: i64 = jd as i64;
    let f: i64 = j + 1401 + ((((4 * j + 274_277) / 146_097) * 3) / 4) - 38;
    let e: i64 = 4 * f + 3;
    let g: i64 = (e % 1461) / 4;
    let h: i64 = 5 * g + 2;
    let day: i64 = (h % 153) / 5 + 1;
    let month: i64 = ((h / 153 + 2) % 12) + 1;
    let year: i64 = (e / 1461) - 4716 + (12 + 2 - month) / 12;
    proof {
        lemma_calendar_arithmetic(j as int, f as int, e as int, g as int, h as int);
        lemma_date_of(year as int, month as int, day as int);
    }
    (year as u32, month as u32, day as u32)
}

/// The date of a point in time, in milliseconds since 1970.
pub open spec fn utc_date(ms: u64) -> (int, int, int) {
    date_of(UNIX_EPOCH_JULIAN_DAY + ms / DAY_MS)
}

/// A number with zeros in front, up to `width` digits.
pub open spec fn padded(n: int, width: nat) -> Seq<char> {
    text::zero_padded(text::decimal(n as nat), width)
}

/// A date as `YYYY-MM-DD`.
pub open spec fn date_text(date: (int, int, int)) -> Seq<char> {
    padded(date.0, 4) + "-"@ + padded(date.1, 2) + "-"@ + padded(date.2, 2)
}

/// A point in time as `YYYY-MM-DDThh:mm:ssZ`, to the second.
pub open spec fn iso8601(ms: u64) -> Seq<char> {
    let s = (ms as int / 1000) % 86400;
    date_text(utc_date(ms)) + "T"@ + padded(s / 3600, 2) + ":"@ + padded((s % 3600) / 60, 2) + ":"@
        + padded(s % 60, 2) + "Z"@
}

/// See [`utc_date`].
pub fn utc_ymd_from_unix_ms(ms: u64) -> (r: (u32, u32, u32))
    ensures
        (r.0 as int, r.1 as int, r.2 as int) == utc_date(ms),
        is_date(r.0 as int, r.1 as int, r.2 as int),
{
    jd_to_ymd(ms / DAY_MS + UNIX_EPOCH_JULIAN_DAY)
}

/// The date of a point in time as `YYYY-MM-DD`.
pub fn date_text_of(ms: u64) -> (r: String)
    ensures
        r@ == date_text(utc_date(ms)),
{
    let ymd = utc_ymd_from_unix_ms(ms);
    let mut out = text::padded_of(ymd.0 as u64, 4);
    out.append("-");
    let month = text::padded_of(ymd.1 as u64, 2);
    out.append(month.as_str());
    out.append("-");
    let day = text::padded_of(ymd.2 as u64, 2);
    out.append(day.as_str());
    out
}

/// See [`iso8601`].
pub fn iso8601_utc(ms: u64) -> (r: String)
    ensures
        r@ == iso8601(ms),
{
    let secs: u64 = ms / 1000;
    let rest: u64 = secs % 86400;
    let mut out = date_text_of(ms);
    out.append("T");
    let hour = text::padded_of(rest / 3600, 2);
    out.append(hour.as_str());
    out.append(":");
    let minute = text::padded_of((rest % 3600) / 60, 2);
    out.append(minute.as_str());
    out.append(":");
    assert((rest % 3600) % 60 == rest % 60) by (nonlinear_arith)
        requires
            rest < 86400,
    ;
    let second = text::padded_of((rest % 3600) % 60, 2);
    out.append(second.as_str());
    out.append("Z");
    out
}

// ---------------------------------------------------------------------------
// What the calendar promises
// ---------------------------------------------------------------------------

/// Every fourth year is a leap year, but of the full centuries only every fourth; February has a day more then. April,
/// June, September and November have thirty days, the other months thirty-one.
pub proof fn months_have_their_days(y: int)
    ensures
        is_leap_year(4 * y) <==> y % 25 != 0 || y % 100 == 0,
        !is_leap_year(4 * y + 1) && !is_leap_year(4 * y + 2) && !is_leap_year(4 * y + 3),
        days_in_month(y, 1) == 31,
        days_in_month(y, 2) == 28 + (if is_leap_year(y) {
            1int
        } else {
            0
        }),
        days_in_month(y, 3) == 31,
        days_in_month(y, 4) == 30,
        days_in_month(y, 5) == 31,
        days_in_month(y, 6) == 30,
        days_in_month(y, 7) == 31,
        days_in_month(y, 8) == 31,
        days_in_month(y, 9) == 30,
        days_in_month(y, 10) == 31,
        days_in_month(y, 11) == 30,
        days_in_month(y, 12) == 31,
{
    assert((4 * y) % 100 == 4 * (y % 25));
    assert((4 * y) % 400 == 4 * (y % 100));
}

/// The day after a day.
pub open spec fn next_day(date: (int, int, int)) -> (int, int, int) {
    if date.2 < days_in_month(date.0, date.1) {
        (date.0, date.1, date.2 + 1)
    } else if date.1 < 12 {
        (date.0, date.1 + 1, 1)
    } else {
        (date.0 + 1, 1, 1)
    }
}

proof fn lemma_next_day(y: int, m: int, d: int)
    requires
        is_date(y, m, d),
    ensures
        ({
            let n = next_day((y, m, d));
            is_date(n.0, n.1, n.2) && julian_day(n.0, n.1, n.2) == julian_day(y, m, d) + 1
        }),
{
    if d == days_in_month(y, m) {
        if m < 12 {
            assert(days_before_month(y, m + 1) == days_before_month(y, m) + days_in_month(y, m));
        } else {
            lemma_months_before(y);
            lemma_months_before(y + 1);
            lemma_leap_days(y);
        }
    }
}

proof fn lemma_utc_date(ms: u64)
    ensures
        ({
            let t = utc_date(ms);
            is_date(t.0, t.1, t.2) && julian_day(t.0, t.1, t.2) == 2440588 + ms / 86_400_000
        }),
{
    let j = 2440588 + ms as int / 86_400_000;
    let f = j + 1401 + ((((4 * j + 274277) / 146097) * 3) / 4) - 38;
    let e = 4 * f + 3;
    let g = (e % 1461) / 4;
    let h = 5 * g + 2;
    lemma_calendar_arithmetic(j, f, e, g, h);
    let day = (h % 153) / 5 + 1;
    let month = ((h / 153 + 2) % 12) + 1;
    let year = (e / 1461) - 4716 + (14 - month) / 12;
    lemma_date_of(year, month, day);
    assert(utc_date(ms) == date_of(j));
}

/// Time begins on the first of January 1970. A day has twenty-four hours, within it the date stays the same, and on the next
/// day it is the next one.
pub proof fn days_follow_each_other(ms: u64, later: u64)
    ensures
        utc_date(0) == (1970int, 1int, 1int),
        ms / 86_400_000 == later / 86_400_000 ==> utc_date(ms) == utc_date(later),
        ms / 86_400_000 + 1 == later / 86_400_000 ==> utc_date(later) == next_day(utc_date(ms)),
{
    reveal_with_fuel(days_before_month, 2);
    assert(julian_day(1970, 1, 1) == 2440588);
    lemma_date_of(1970, 1, 1);
    lemma_utc_date(ms);
    if ms / 86_400_000 + 1 == later / 86_400_000 {
        let t = utc_date(ms);
        lemma_next_day(t.0, t.1, t.2);
        let n = next_day(t);
        lemma_date_of(n.0, n.1, n.2);
    }
}

/// A point in time is shown with its date and with the hours, minutes and seconds of its day, each in two digits.
pub proof fn times_are_shown_to_the_second(ms: u64, h: int, m: int, s: int)
    requires
        0 <= h < 24,
        0 <= m < 60,
        0 <= s < 60,
        (ms as int / 1000) % 86400 == h * 3600 + m * 60 + s,
    ensures
        iso8601(ms) == date_text(utc_date(ms)) + "T"@ + padded(h, 2) + ":"@ + padded(m, 2) + ":"@
            + padded(s, 2) + "Z"@,
{
    let t = (ms as int / 1000) % 86400;
    assert(t / 3600 == h);
    assert((t % 3600) / 60 == m);
    assert(t % 60 == s);
}

/// A date is shown as year, month and day with hyphens between them; a number of one digit has a zero in front.
pub proof fn dates_are_shown_in_order(y: int, m: int, d: int)
    requires
        1000 <= y <= 9999,
        1 <= m <= 12,
        1 <= d <= 31,
    ensures
        date_text((y, m, d)) == text::decimal(y as nat).push('-') + padded(m, 2).push('-') + padded(d, 2),
        m < 10 ==> padded(m, 2) == seq!['0', "0123456789"@[m]],
        m >= 10 ==> padded(m, 2) == text::decimal(m as nat),
{
    reveal_strlit("-");
    reveal_with_fuel(text::decimal, 5);
    assert(text::decimal(y as nat).len() == 4);
    assert(padded(y, 4) == text::decimal(y as nat));
    assert(date_text((y, m, d)) =~= text::decimal(y as nat).push('-') + padded(m, 2).push('-') + padded(
        d,
        2,
    ));
    if m < 10 {
        text::numerals_are_decimal(0, m as nat);
        text::zeros_fill_up(text::decimal(m as nat), 2);
        assert(padded(m, 2) =~= seq!['0', "0123456789"@[m]]);
    } else {
        assert(text::decimal(m as nat).len() == 2);
    }
}

} // verus!
