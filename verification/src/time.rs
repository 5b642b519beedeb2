//! Timestamps: civil-date arithmetic and the ISO-8601 text the contract uses.
//!
//! `startedAt` is half of a process's identity, so it must render to one
//! stable, exact string. Dates are proleptic Gregorian, before and after the
//! epoch alike.
use vstd::prelude::*;

use crate::text::{decimal, pad_left, push_signed_padded, signed_padded};
use vstd::arithmetic::div_mod::{lemma_fundamental_div_mod, lemma_fundamental_div_mod_converse};

verus! {

// ------------------------------------------------------------- the calendar

pub open spec fn is_leap(y: int) -> bool {
    y % 4 == 0 && (y % 100 != 0 || y % 400 == 0)
}

pub open spec fn days_in_month(y: int, m: int) -> int {
    if m == 2 {
        if is_leap(y) { 29 } else { 28 }
    } else if m == 4 || m == 6 || m == 9 || m == 11 {
        30
    } else {
        31
    }
}

/// A real calendar date.
pub open spec fn is_date(y: int, m: int, d: int) -> bool {
    1 <= m <= 12 && 1 <= d <= days_in_month(y, m)
}

/// Leap years strictly before year `y`, counted from a fixed origin.
pub open spec fn leaps_before(y: int) -> int {
    (y - 1) / 4 - (y - 1) / 100 + (y - 1) / 400
}

/// Days from 1970-01-01 to the first of January of `y`.
pub open spec fn days_before_year(y: int) -> int {
    365 * (y - 1970) + leaps_before(y) - leaps_before(1970)
}

/// Days from the first of January to the first of month `m` in year `y`.
pub open spec fn days_before_month(y: int, m: int) -> int {
    let common: int = if m <= 1 {
        0
    } else if m == 2 {
        31
    } else if m == 3 {
        59
    } else if m == 4 {
        90
    } else if m == 5 {
        120
    } else if m == 6 {
        151
    } else if m == 7 {
        181
    } else if m == 8 {
        212
    } else if m == 9 {
        243
    } else if m == 10 {
        273
    } else if m == 11 {
        304
    } else {
        334
    };
    if m > 2 && is_leap(y) {
        common + 1
    } else {
        common
    }
}

/// The day number of a date: days since 1970-01-01.
pub open spec fn day_number(y: int, m: int, d: int) -> int {
    days_before_year(y) + days_before_month(y, m) + d - 1
}

/// The date a day number names.
pub open spec fn date_of(days: int) -> (int, int, int) {
    choose|t: (int, int, int)| is_date(t.0, t.1, t.2) && day_number(t.0, t.1, t.2) == days
}

proof fn lemma_year_length(y: int)
    ensures
        days_before_year(y + 1) == days_before_year(y) + 365 + if is_leap(y) { 1int } else { 0int },
{
    assert(y / 4 == (y - 1) / 4 + if y % 4 == 0 { 1int } else { 0int });
    assert(y / 100 == (y - 1) / 100 + if y % 100 == 0 { 1int } else { 0int });
    assert(y / 400 == (y - 1) / 400 + if y % 400 == 0 { 1int } else { 0int });
}

pub(crate) proof fn lemma_years_increase(a: int, b: int)
    requires
        a < b,
    ensures
        days_before_year(a) + 365 <= days_before_year(b),
    decreases b - a,
{
    lemma_year_length(a);
    if a + 1 < b {
        lemma_years_increase(a + 1, b);
    }
}

pub(crate) proof fn lemma_within_year(y: int, m: int, d: int)
    requires
        is_date(y, m, d),
    ensures
        days_before_year(y) <= day_number(y, m, d) < days_before_year(y + 1),
{
    lemma_year_length(y);
}

/// Each day number names exactly one calendar date: two dates with the same
/// day number are the same date.
pub proof fn law_day_numbers_are_distinct(y1: int, m1: int, d1: int, y2: int, m2: int, d2: int)
    requires
        is_date(y1, m1, d1),
        is_date(y2, m2, d2),
        day_number(y1, m1, d1) == day_number(y2, m2, d2),
    ensures
        y1 == y2 && m1 == m2 && d1 == d2,
{
    lemma_within_year(y1, m1, d1);
    lemma_within_year(y2, m2, d2);
    if y1 < y2 {
        lemma_years_increase(y1 + 1, y2 + 1);
        lemma_year_length(y1);
        if y1 + 1 < y2 {
            lemma_years_increase(y1 + 1, y2);
        }
    } else if y2 < y1 {
        lemma_year_length(y2);
        if y2 + 1 < y1 {
            lemma_years_increase(y2 + 1, y1);
        }
    }
    assert(y1 == y2);
}

// ------------------------------------------------- counting days to a date

/// Start of year `k` of a 400-year era that begins on 1 March.
pub(crate) open spec fn era_year_start(k: int) -> int {
    365 * k + k / 4 - k / 100
}

pub(crate) proof fn lemma_year_of_era(doe: int)
    requires
        0 <= doe <= 146096,
    ensures
        ({
            let yoe = (doe - doe / 1460 + doe / 36524 - doe / 146096) / 365;
            &&& 0 <= yoe <= 399
            &&& era_year_start(yoe) <= doe
            &&& doe < era_year_start(yoe + 1) + if yoe == 399 { 1int } else { 0int }
        }),
{
    if doe == 146096 {
        lemma_fundamental_div_mod_converse(doe, 1460, 100, 96);
        lemma_fundamental_div_mod_converse(doe, 36524, 4, 0);
        lemma_fundamental_div_mod_converse(doe, 146096, 1, 0);
        lemma_fundamental_div_mod_converse(145999, 365, 399, 364);
        lemma_fundamental_div_mod_converse(399, 4, 99, 3);
        lemma_fundamental_div_mod_converse(399, 100, 3, 99);
        lemma_fundamental_div_mod_converse(400, 4, 100, 0);
        lemma_fundamental_div_mod_converse(400, 100, 4, 0);
    } else {
        let c = doe / 36524;
        let r = doe % 36524;
        lemma_fundamental_div_mod(doe, 36524);
        assert(0 <= c <= 3);
        let q = r / 1461;
        let s = r % 1461;
        lemma_fundamental_div_mod(r, 1461);
        assert(0 <= q <= 24);
        assert(q == 24 ==> s <= 1459);
        lemma_fundamental_div_mod(s, 365);
        let p: int = if s == 1460 { 3 } else { s / 365 };
        let e = s - 365 * p;
        assert(0 <= p <= 3 && 0 <= e <= 365 && (e == 365 ==> p == 3));
        let big = 24 * c + q + 365 * p + e;
        let carry: int = if big >= 1460 { 1 } else { 0 };
        assert(doe == (25 * c + q + carry) * 1460 + (big - 1460 * carry));
        lemma_fundamental_div_mod_converse(doe, 1460, 25 * c + q + carry, big - 1460 * carry);
        lemma_fundamental_div_mod_converse(doe, 36524, c, r);
        lemma_fundamental_div_mod_converse(doe, 146096, 0, doe);
        let k = 100 * c + 4 * q + p;
        assert(e - carry >= 0 && e - carry <= 364);
        assert(doe - doe / 1460 + doe / 36524 - doe / 146096 == k * 365 + (e - carry));
        lemma_fundamental_div_mod_converse(k * 365 + (e - carry), 365, k, e - carry);
        lemma_fundamental_div_mod_converse(k, 4, 25 * c + q, p);
        lemma_fundamental_div_mod_converse(k, 100, c, 4 * q + p);
        assert(era_year_start(k) == 36524 * c + 1461 * q + 365 * p);
        if p < 3 {
            lemma_fundamental_div_mod_converse(k + 1, 4, 25 * c + q, p + 1);
            lemma_fundamental_div_mod_converse(k + 1, 100, c, 4 * q + p + 1);
        } else if q < 24 {
            lemma_fundamental_div_mod_converse(k + 1, 4, 25 * c + q + 1, 0);
            lemma_fundamental_div_mod_converse(k + 1, 100, c, 4 * q + 4);
        } else {
            lemma_fundamental_div_mod_converse(k + 1, 4, 25 * c + 25, 0);
            lemma_fundamental_div_mod_converse(k + 1, 100, c + 1, 0);
        }
    }
}

/// A year of the era is 366 days long exactly when the calendar year in which
/// it ends is a leap year.
pub(crate) proof fn lemma_era_year_length(k: int)
    requires
        0 <= k <= 399,
    ensures
        era_year_start(k + 1) + (if k == 399 { 1int } else { 0int }) - era_year_start(k) == 365 + if is_leap(
            k + 1,
        ) {
            1int
        } else {
            0int
        },
{
    lemma_fundamental_div_mod(k + 1, 4);
    lemma_fundamental_div_mod(k + 1, 100);
    lemma_fundamental_div_mod(k + 1, 400);
    if (k + 1) % 4 == 0 {
        lemma_fundamental_div_mod_converse(k, 4, (k + 1) / 4 - 1, 3);
    } else {
        lemma_fundamental_div_mod_converse(k, 4, (k + 1) / 4, (k + 1) % 4 - 1);
    }
    if (k + 1) % 100 == 0 {
        lemma_fundamental_div_mod_converse(k, 100, (k + 1) / 100 - 1, 99);
    } else {
        lemma_fundamental_div_mod_converse(k, 100, (k + 1) / 100, (k + 1) % 100 - 1);
    }
    if k + 1 < 400 {
        lemma_fundamental_div_mod_converse(k + 1, 400, 0, k + 1);
    }
}

/// Leap years repeat every 400 years.
proof fn lemma_leap_shift(era: int, k: int)
    ensures
        is_leap(400 * era + k) == is_leap(k),
{
    lemma_fundamental_div_mod(k, 4);
    lemma_fundamental_div_mod(k, 100);
    lemma_fundamental_div_mod(k, 400);
    lemma_fundamental_div_mod_converse(400 * era + k, 4, 100 * era + k / 4, k % 4);
    lemma_fundamental_div_mod_converse(400 * era + k, 100, 4 * era + k / 100, k % 100);
    lemma_fundamental_div_mod_converse(400 * era + k, 400, era + k / 400, k % 400);
}

/// The day number of 1 March in year `k` of era `era`.
proof fn lemma_march_first(era: int, k: int)
    requires
        0 <= k <= 399,
    ensures
        days_before_year(400 * era + k) + 59 + (if is_leap(400 * era + k) { 1int } else { 0int }) == era
            * 146097 + era_year_start(k) - 719468,
{
    let y = 400 * era + k;
    lemma_year_length(y);
    lemma_fundamental_div_mod(k, 4);
    lemma_fundamental_div_mod(k, 100);
    lemma_fundamental_div_mod_converse(y, 4, 100 * era + k / 4, k % 4);
    lemma_fundamental_div_mod_converse(y, 100, 4 * era + k / 100, k % 100);
    lemma_fundamental_div_mod_converse(y, 400, era, k);
    lemma_fundamental_div_mod_converse(1969, 4, 492, 1);
    lemma_fundamental_div_mod_converse(1969, 100, 19, 69);
    lemma_fundamental_div_mod_converse(1969, 400, 4, 369);
}

/// Where each month starts, counted from 1 March.
proof fn lemma_month_starts(mp: int)
    requires
        0 <= mp <= 11,
    ensures
        mp < 10 ==> days_before_month(0, mp + 3) - 60 == (153 * mp + 2) / 5,
        mp == 10 ==> (153 * mp + 2) / 5 == 306,
        mp == 11 ==> (153 * mp + 2) / 5 == 337,
        mp < 11 ==> (153 * (mp + 1) + 2) / 5 - (153 * mp + 2) / 5 == days_in_month(
            1,
            if mp < 10 { mp + 3 } else { mp - 9 },
        ),
{
}

pub(crate) proof fn lemma_month_of_year(doy: int, len: int)
    requires
        len == 365 || len == 366,
        0 <= doy < len,
    ensures
        ({
            let mp = (5 * doy + 2) / 153;
            let d = doy - (153 * mp + 2) / 5 + 1;
            &&& 0 <= mp <= 11
            &&& 1 <= d
            &&& mp < 11 ==> doy < (153 * (mp + 1) + 2) / 5
            &&& mp == 11 ==> d <= len - 337
        }),
{
}

/// The date of a day number, computed the way a 400-year era works out.
fn civil_from_days(days: i64) -> (r: (i64, i64, i64))
    requires
        -100_000_000_000_000 <= days <= 100_000_000_000_000,
    ensures
        is_date(r.0 as int, r.1 as int, r.2 as int),
        day_number(r.0 as int, r.1 as int, r.2 as int) == days,
{
    let z: i64 = days + 719_468;
    let (era, doe) = floor_div_mod(z, 146_097);
    proof {
        lemma_year_of_era(doe as int);
        assert(-1_000_000_000 <= era <= 1_000_000_000);
    }
    let yoe: i64 = (doe - doe / 1460 + doe / 36_524 - doe / 146_096) / 365;
    let y: i64 = yoe + era * 400;
    let doy: i64 = doe - (365 * yoe + yoe / 4 - yoe / 100);
    let ghost len: int = 365 + if is_leap(yoe + 1) { 1int } else { 0int };
    proof {
        lemma_era_year_length(yoe as int);
        lemma_month_of_year(doy as int, len);
    }
    let mp: i64 = (5 * doy + 2) / 153;
    let d: i64 = doy - (153 * mp + 2) / 5 + 1;
    let m: i64 = if mp < 10 { mp + 3 } else { mp - 9 };
    let year: i64 = if m <= 2 { y + 1 } else { y };
    proof {
        lemma_civil_parts(era as int, yoe as int, doy as int, mp as int, d as int);
    }
    (year, m, d)
}

pub(crate) proof fn lemma_civil_parts(era: int, yoe: int, doy: int, mp: int, d: int)
    requires
        0 <= yoe <= 399,
        0 <= doy < 365 + if is_leap(yoe + 1) { 1int } else { 0int },
        mp == (5 * doy + 2) / 153,
        d == doy - (153 * mp + 2) / 5 + 1,
        0 <= mp <= 11,
        1 <= d,
        mp < 11 ==> doy < (153 * (mp + 1) + 2) / 5,
        mp == 11 ==> d <= 365 + (if is_leap(yoe + 1) { 1int } else { 0int }) - 337,
    ensures
        ({
            let y = 400 * era + yoe;
            let m = if mp < 10 { mp + 3 } else { mp - 9 };
            let year = if m <= 2 { y + 1 } else { y };
            &&& is_date(year, m, d)
            &&& day_number(year, m, d) == era * 146097 + era_year_start(yoe) + doy - 719468
        }),
{
    let y = 400 * era + yoe;
    lemma_march_first(era, yoe);
    lemma_leap_shift(era, yoe);
    lemma_leap_shift(era, yoe + 1);
    lemma_year_length(y);
    lemma_month_starts(mp);
}

/// `a` divided by a positive `b`, rounded toward negative infinity, with the
/// remainder that goes with it.
fn floor_div_mod(a: i64, b: i64) -> (r: (i64, i64))
    requires
        b > 0,
    ensures
        a == b * r.0 + r.1,
        0 <= r.1 < b,
        r.0 == a / b,
        r.1 == a % b,
{
    if a >= 0 {
        proof {
            lemma_fundamental_div_mod(a as int, b as int);
        }
        (a / b, a % b)
    } else {
        let n: i64 = -(a + 1);
        let q: i64 = n / b;
        let rem: i64 = n % b;
        proof {
            lemma_fundamental_div_mod(n as int, b as int);
            assert(a == b * (-q - 1) + (b - 1 - rem) && a == (-q - 1) * b + (b - 1 - rem)) by (nonlinear_arith)
                requires
                    n == b * q + rem,
                    a == -(n + 1),
            ;
            lemma_fundamental_div_mod_converse(a as int, b as int, -q - 1, b - 1 - rem);
        }
        (-q - 1, b - 1 - rem)
    }
}

// ------------------------------------------------------------------ the text

pub open spec fn two_digits(n: int) -> Seq<char> {
    pad_left(decimal(n as nat), 2, '0')
}

/// `YYYY-MM-DDTHH:MM:SS.mmmZ` for the given fields. A year below zero or above
/// four digits keeps its sign and all its digits.
pub open spec fn timestamp_text(y: int, m: int, d: int, h: int, min: int, s: int, ms: int) -> Seq<char> {
    signed_padded(y, 4) + seq!['-'] + two_digits(m) + seq!['-'] + two_digits(d) + seq!['T'] + two_digits(h)
        + seq![':'] + two_digits(min) + seq![':'] + two_digits(s) + seq!['.'] + pad_left(
        decimal(ms as nat),
        3,
        '0',
    ) + seq!['Z']
}

/// The ISO-8601 text for milliseconds since the Unix epoch, in UTC.
pub open spec fn spec_iso8601(unix_millis: int) -> Seq<char> {
    let days = unix_millis / 86_400_000;
    let in_day = unix_millis % 86_400_000;
    let date = date_of(days);
    timestamp_text(
        date.0,
        date.1,
        date.2,
        in_day / 3_600_000,
        in_day % 3_600_000 / 60_000,
        in_day % 60_000 / 1000,
        in_day % 1000,
    )
}

fn push_two_digits(out: &mut Vec<char>, n: i64)
    requires
        0 <= n < 100,
    ensures
        final(out)@ == old(out)@ + two_digits(n as int),
{
    push_signed_padded(out, n, 2);
}

/// Milliseconds since the Unix epoch -> `YYYY-MM-DDTHH:MM:SS.mmmZ`.
///
/// Instants before the epoch floor rather than truncate: one millisecond
/// before it is `1969-12-31T23:59:59.999Z`.
pub fn to_iso8601(unix_millis: i64) -> (r: String)
    ensures
        r@ == spec_iso8601(unix_millis as int),
{
    let (days, in_day) = floor_div_mod(unix_millis, 86_400_000);
    let (y, m, d) = civil_from_days(days);
    proof {
        let t = date_of(days as int);
        assert(is_date(y as int, m as int, d as int) && day_number(y as int, m as int, d as int)
            == days);
        law_day_numbers_are_distinct(t.0, t.1, t.2, y as int, m as int, d as int);
    }
    let h: i64 = in_day / 3_600_000;
    let min: i64 = in_day % 3_600_000 / 60_000;
    let s: i64 = in_day % 60_000 / 1000;
    let ms: i64 = in_day % 1000;
    let mut out: Vec<char> = Vec::new();
    push_signed_padded(&mut out, y, 4);
    out.push('-');
    push_two_digits(&mut out, m);
    out.push('-');
    push_two_digits(&mut out, d);
    out.push('T');
    push_two_digits(&mut out, h);
    out.push(':');
    push_two_digits(&mut out, min);
    out.push(':');
    push_two_digits(&mut out, s);
    out.push('.');
    push_signed_padded(&mut out, ms, 3);
    out.push('Z');
    proof {
        assert(out@ =~= timestamp_text(y as int, m as int, d as int, h as int, min as int, s as int, ms as int));
    }
    crate::text::string_of(out.as_slice())
}

// ------------------------------------------------------------------ FILETIME

/// 100-nanosecond intervals between 1601-01-01 and 1970-01-01.
pub const FILETIME_EPOCH_OFFSET_100NS: i64 = 116_444_736_000_000_000;

/// The two halves of a `FILETIME` read as one signed 64-bit tick count.
pub open spec fn filetime_signed(low: u32, high: u32) -> int {
    let t = high as int * 0x1_0000_0000 + low as int;
    if t < 0x8000_0000_0000_0000 {
        t
    } else {
        t - 0x1_0000_0000_0000_0000
    }
}

/// Division rounded toward zero.
pub open spec fn div_toward_zero(a: int, b: int) -> int {
    if a >= 0 {
        a / b
    } else {
        -((-a) / b)
    }
}

/// Unix milliseconds for a `FILETIME`; zero, which means "not set", maps to
/// the epoch rather than to 1601.
pub open spec fn spec_filetime_millis(low: u32, high: u32) -> int {
    let ticks = filetime_signed(low, high);
    if ticks == 0 {
        0
    } else {
        div_toward_zero(ticks - FILETIME_EPOCH_OFFSET_100NS, 10_000)
    }
}

/// Whether the conversion below accepts a `FILETIME`: zero, or a tick count
/// whose shift to the Unix epoch stays within 64 bits. Every time Windows
/// reports is.
pub open spec fn spec_filetime_in_range(low: u32, high: u32) -> bool {
    filetime_signed(low, high) == 0 || filetime_signed(low, high) - FILETIME_EPOCH_OFFSET_100NS >= i64::MIN
}

pub fn filetime_in_range(low: u32, high: u32) -> (r: bool)
    ensures
        r == spec_filetime_in_range(low, high),
{
    let t: u64 = (high as u64) * 0x1_0000_0000 + (low as u64);
    let ticks: i128 = if t < 0x8000_0000_0000_0000 {
        t as i128
    } else {
        (t as i128) - 0x1_0000_0000_0000_0000i128
    };
    ticks == 0 || ticks - (FILETIME_EPOCH_OFFSET_100NS as i128) >= (i64::MIN as i128)
}

/// Windows `FILETIME` halves -> Unix milliseconds.
///
/// A tick count that reads as negative and lies so far before 1601 that
/// subtracting the epoch offset leaves the 64-bit range is outside what this
/// accepts.
pub fn filetime_to_unix_millis(low: u32, high: u32) -> (r: i64)
    requires
        filetime_signed(low, high) == 0 || filetime_signed(low, high) - FILETIME_EPOCH_OFFSET_100NS
            >= i64::MIN,
    ensures
        r == spec_filetime_millis(low, high),
{
    let t: u64 = (high as u64) * 0x1_0000_0000 + (low as u64);
    let ticks: i128 = if t < 0x8000_0000_0000_0000 {
        t as i128
    } else {
        (t as i128) - 0x1_0000_0000_0000_0000i128
    };
    if ticks == 0 {
        return 0;
    }
    let x: i128 = ticks - (FILETIME_EPOCH_OFFSET_100NS as i128);
    let q: i128 = if x >= 0 {
        x / 10_000
    } else {
        -((-x) / 10_000)
    };
    q as i64
}

/// A `FILETIME` counts 100 ns ticks from 1601-01-01: the conversion shifts
/// it by the 116_444_736_000_000_000 ticks between 1601 and 1970 and keeps
/// whole milliseconds, dropping the part below a millisecond toward the
/// epoch. A zero `FILETIME` (not set) reads as the epoch itself.
pub proof fn law_filetime_counts_from_1601(low: u32, high: u32)
    ensures
        ({
            let t = filetime_signed(low, high);
            let x = t - 116_444_736_000_000_000;
            let r = spec_filetime_millis(low, high);
            &&& t == 0 ==> r == 0
            &&& t != 0 && x >= 0 ==> r * 10_000 <= x < r * 10_000 + 10_000
            &&& t != 0 && x < 0 ==> r * 10_000 - 10_000 < x <= r * 10_000
        }),
{
    let t = filetime_signed(low, high);
    let x = t - 116_444_736_000_000_000;
    if t != 0 {
        if x >= 0 {
            lemma_fundamental_div_mod(x, 10_000);
        } else {
            lemma_fundamental_div_mod(-x, 10_000);
        }
    }
}

} // verus!
