//! What the rendered timestamps promise: for the years 0000 to 9999 every
//! timestamp is 24 characters, `YYYY-MM-DDTHH:MM:SS.mmmZ`, and comparing the
//! texts as strings compares the instants. That is what makes the capture
//! times of successive snapshots strictly increase.
use vstd::prelude::*;

use crate::logic::identity::{all_digits, digits_value, lemma_decimal_reads_back};
use crate::order::{text_lt, text_lt_from};
use crate::text::{decimal, digit_char, digits, is_ascii_digit, pad_left, signed_padded};
use crate::time::{
    date_of, day_number, days_before_month, days_before_year, days_in_month, is_date, is_leap,
    law_day_numbers_are_distinct, spec_iso8601, timestamp_text, two_digits,
};

verus! {

/// The first instant of 0000-01-01, in Unix milliseconds.
pub open spec fn first_renderable() -> int {
    -62_167_219_200_000
}

/// The last millisecond of 9999-12-31, in Unix milliseconds.
pub open spec fn last_renderable() -> int {
    253_402_300_799_999
}

pub open spec fn pow10(w: nat) -> nat
    decreases w,
{
    if w == 0 {
        1
    } else {
        10 * pow10((w - 1) as nat)
    }
}

// ------------------------------------------------------------ digit blocks

proof fn lemma_decimal_len(n: nat, w: nat)
    requires
        w >= 1,
        n < pow10(w),
    ensures
        decimal(n).len() <= w,
    decreases w,
{
    if n >= 10 {
        crate::text::lemma_div_smaller(n, 10);
        assert(decimal(n) == digits(n / 10, 10, false).push(digit_char(n % 10, false)));
        assert(pow10(w) == 10 * pow10((w - 1) as nat));
        assert(w >= 2) by {
            if w == 1 {
                assert(pow10(0) == 1);
            }
        }
        assert(n / 10 < pow10((w - 1) as nat)) by (nonlinear_arith)
            requires
                n < 10 * pow10((w - 1) as nat),
        ;
        lemma_decimal_len(n / 10, (w - 1) as nat);
    } else {
        assert(decimal(n) == seq![digit_char(n, false)]);
    }
}

proof fn lemma_zeros_value(z: Seq<char>)
    requires
        forall|i: int| 0 <= i < z.len() ==> z[i] == '0',
    ensures
        digits_value(z) == 0,
    decreases z.len(),
{
    if z.len() > 0 {
        lemma_zeros_value(z.drop_last());
    }
}

proof fn lemma_leading_zeros_value(z: Seq<char>, s: Seq<char>)
    requires
        forall|i: int| 0 <= i < z.len() ==> z[i] == '0',
    ensures
        digits_value(z + s) == digits_value(s),
    decreases s.len(),
{
    if s.len() == 0 {
        assert(z + s =~= z);
        lemma_zeros_value(z);
    } else {
        lemma_leading_zeros_value(z, s.drop_last());
        assert((z + s).drop_last() =~= z + s.drop_last());
        assert((z + s).last() == s.last());
    }
}

/// `n` written in exactly `w` digits, zero-padded on the left.
proof fn lemma_block(n: nat, w: nat)
    requires
        w >= 1,
        n < pow10(w),
    ensures
        pad_left(decimal(n), w, '0').len() == w,
        all_digits(pad_left(decimal(n), w, '0')),
        digits_value(pad_left(decimal(n), w, '0')) == n,
{
    lemma_decimal_len(n, w);
    lemma_decimal_reads_back(n);
    let s = decimal(n);
    if s.len() < w {
        let z = Seq::new((w - s.len()) as nat, |_i: int| '0');
        assert(pad_left(s, w, '0') == z + s);
        lemma_leading_zeros_value(z, s);
        assert forall|i: int| 0 <= i < (z + s).len() implies is_ascii_digit(#[trigger] (z + s)[i]) by {
            if i >= z.len() {
                assert((z + s)[i] == s[i - z.len()]);
            }
        }
    }
}

proof fn lemma_digits_injective(s: Seq<char>, t: Seq<char>)
    requires
        s.len() == t.len(),
        all_digits(s),
        all_digits(t),
        digits_value(s) == digits_value(t),
    ensures
        s == t,
    decreases s.len(),
{
    if s.len() > 0 {
        let (s1, t1) = (s.drop_last(), t.drop_last());
        assert(is_ascii_digit(s[s.len() - 1]) && is_ascii_digit(t[t.len() - 1]));
        let (ds, dt) = ((s.last() as u32 - '0' as u32) as int, (t.last() as u32 - '0' as u32) as int);
        let (vs, vt) = (digits_value(s1) as int, digits_value(t1) as int);
        assert(vs * 10 + ds == vt * 10 + dt);
        assert(vs == vt && ds == dt) by (nonlinear_arith)
            requires
                vs * 10 + ds == vt * 10 + dt,
                0 <= ds < 10,
                0 <= dt < 10,
        ;
        assert(all_digits(s1)) by {
            assert forall|i: int| 0 <= i < s1.len() implies is_ascii_digit(#[trigger] s1[i]) by {
                assert(s1[i] == s[i]);
            }
        }
        assert(all_digits(t1)) by {
            assert forall|i: int| 0 <= i < t1.len() implies is_ascii_digit(#[trigger] t1[i]) by {
                assert(t1[i] == t[i]);
            }
        }
        lemma_digits_injective(s1, t1);
        assert(s =~= s1.push(s.last()));
        assert(t =~= t1.push(t.last()));
    }
}

// ------------------------------------------------------- text comparison

proof fn lemma_lt_prefix(a: Seq<char>, b: Seq<char>, x: Seq<char>, y: Seq<char>, i: int)
    requires
        a.len() == b.len(),
        0 <= i <= a.len(),
        text_lt_from(a, b, i),
    ensures
        text_lt_from(a + x, b + y, i),
    decreases a.len() - i,
{
    assert((a + x)[i] == a[i] && (b + y)[i] == b[i]);
    if a[i] == b[i] {
        lemma_lt_prefix(a, b, x, y, i + 1);
    }
}

proof fn lemma_lt_shift(a: Seq<char>, x: Seq<char>, y: Seq<char>, j: int)
    requires
        0 <= j,
    ensures
        text_lt_from(a + x, a + y, a.len() + j) == text_lt_from(x, y, j),
    decreases x.len() - j,
{
    let k = a.len() + j;
    if j < x.len() && j < y.len() {
        assert((a + x)[k] == x[j] && (a + y)[k] == y[j]);
        if x[j] == y[j] {
            lemma_lt_shift(a, x, y, j + 1);
        }
    }
}

proof fn lemma_lt_same_prefix(a: Seq<char>, x: Seq<char>, y: Seq<char>, i: int)
    requires
        0 <= i <= a.len(),
    ensures
        text_lt_from(a + x, a + y, i) == text_lt_from(a + x, a + y, a.len() as int),
    decreases a.len() - i,
{
    if i < a.len() {
        assert((a + x)[i] == a[i] && (a + y)[i] == a[i]);
        lemma_lt_same_prefix(a, x, y, i + 1);
    }
}

/// Appending to two texts of equal length: a strict order already decided
/// is kept, and equal prefixes leave the decision to what is appended.
proof fn lemma_append(p1: Seq<char>, p2: Seq<char>, x1: Seq<char>, x2: Seq<char>)
    requires
        p1.len() == p2.len(),
        x1.len() == x2.len(),
    ensures
        (p1 + x1).len() == (p2 + x2).len(),
        text_lt(p1, p2) ==> text_lt(p1 + x1, p2 + x2),
        p1 == p2 && text_lt(x1, x2) ==> text_lt(p1 + x1, p2 + x2),
        p1 == p2 && x1 == x2 ==> p1 + x1 == p2 + x2,
{
    if text_lt(p1, p2) {
        lemma_lt_prefix(p1, p2, x1, x2, 0);
    }
    if p1 == p2 {
        lemma_lt_same_prefix(p1, x1, x2, 0);
        lemma_lt_shift(p1, x1, x2, 0);
    }
}

proof fn lemma_digits_order(s: Seq<char>, t: Seq<char>)
    requires
        s.len() == t.len(),
        all_digits(s),
        all_digits(t),
        digits_value(s) < digits_value(t),
    ensures
        text_lt(s, t),
    decreases s.len(),
{
    let (s1, t1) = (s.drop_last(), t.drop_last());
    assert(s.len() > 0) by {
        if s.len() == 0 {
            assert(digits_value(t) == 0);
        }
    }
    assert(is_ascii_digit(s[s.len() - 1]) && is_ascii_digit(t[t.len() - 1]));
    let (ds, dt) = ((s.last() as u32 - '0' as u32) as int, (t.last() as u32 - '0' as u32) as int);
    let (vs, vt) = (digits_value(s1) as int, digits_value(t1) as int);
    assert(all_digits(s1)) by {
        assert forall|i: int| 0 <= i < s1.len() implies is_ascii_digit(#[trigger] s1[i]) by {
            assert(s1[i] == s[i]);
        }
    }
    assert(all_digits(t1)) by {
        assert forall|i: int| 0 <= i < t1.len() implies is_ascii_digit(#[trigger] t1[i]) by {
            assert(t1[i] == t[i]);
        }
    }
    assert(s =~= s1 + seq![s.last()]);
    assert(t =~= t1 + seq![t.last()]);
    assert(vs * 10 + ds < vt * 10 + dt);
    assert(vs < vt || (vs == vt && ds < dt)) by (nonlinear_arith)
        requires
            vs * 10 + ds < vt * 10 + dt,
            0 <= ds < 10,
            0 <= dt < 10,
    ;
    if vs < vt {
        lemma_digits_order(s1, t1);
        lemma_append(s1, t1, seq![s.last()], seq![t.last()]);
    } else {
        lemma_digits_injective(s1, t1);
        assert(text_lt(seq![s.last()], seq![t.last()]));
        lemma_append(s1, t1, seq![s.last()], seq![t.last()]);
    }
}

/// Two `w`-digit blocks compare as their values do.
proof fn lemma_blocks(a: nat, b: nat, w: nat)
    requires
        w >= 1,
        a < pow10(w),
        b < pow10(w),
    ensures
        pad_left(decimal(a), w, '0').len() == w,
        pad_left(decimal(b), w, '0').len() == w,
        a < b ==> text_lt(pad_left(decimal(a), w, '0'), pad_left(decimal(b), w, '0')),
        a == b ==> pad_left(decimal(a), w, '0') == pad_left(decimal(b), w, '0'),
{
    lemma_block(a, w);
    lemma_block(b, w);
    if a < b {
        lemma_digits_order(pad_left(decimal(a), w, '0'), pad_left(decimal(b), w, '0'));
    }
}

// ------------------------------------------------------- whole timestamps

pub open spec fn fields_lt(a: (int, int, int, int, int, int, int), b: (int, int, int, int, int, int, int)) -> bool {
    ||| a.0 < b.0
    ||| a.0 == b.0 && a.1 < b.1
    ||| a.0 == b.0 && a.1 == b.1 && a.2 < b.2
    ||| a.0 == b.0 && a.1 == b.1 && a.2 == b.2 && a.3 < b.3
    ||| a.0 == b.0 && a.1 == b.1 && a.2 == b.2 && a.3 == b.3 && a.4 < b.4
    ||| a.0 == b.0 && a.1 == b.1 && a.2 == b.2 && a.3 == b.3 && a.4 == b.4 && a.5 < b.5
    ||| a.0 == b.0 && a.1 == b.1 && a.2 == b.2 && a.3 == b.3 && a.4 == b.4 && a.5 == b.5 && a.6 < b.6
}

pub open spec fn fields_in_range(f: (int, int, int, int, int, int, int)) -> bool {
    &&& 0 <= f.0 <= 9999
    &&& 0 <= f.1 < 100
    &&& 0 <= f.2 < 100
    &&& 0 <= f.3 < 100
    &&& 0 <= f.4 < 100
    &&& 0 <= f.5 < 100
    &&& 0 <= f.6 < 1000
}

pub open spec fn text_of(f: (int, int, int, int, int, int, int)) -> Seq<char> {
    timestamp_text(f.0, f.1, f.2, f.3, f.4, f.5, f.6)
}

proof fn lemma_timestamp_text(a: (int, int, int, int, int, int, int), b: (int, int, int, int, int, int, int))
    requires
        fields_in_range(a),
        fields_in_range(b),
    ensures
        text_of(a).len() == 24,
        fields_lt(a, b) ==> text_lt(text_of(a), text_of(b)),
{
    assert(pow10(2) == 100 && pow10(3) == 1000 && pow10(4) == 10000) by {
        reveal_with_fuel(pow10, 5);
    }
    let ya = pad_left(decimal(a.0 as nat), 4, '0');
    let yb = pad_left(decimal(b.0 as nat), 4, '0');
    assert(signed_padded(a.0, 4) == ya && signed_padded(b.0, 4) == yb);
    lemma_blocks(a.0 as nat, b.0 as nat, 4);
    lemma_blocks(a.1 as nat, b.1 as nat, 2);
    lemma_blocks(a.2 as nat, b.2 as nat, 2);
    lemma_blocks(a.3 as nat, b.3 as nat, 2);
    lemma_blocks(a.4 as nat, b.4 as nat, 2);
    lemma_blocks(a.5 as nat, b.5 as nat, 2);
    lemma_blocks(a.6 as nat, b.6 as nat, 3);
    let (ma, mb) = (two_digits(a.1), two_digits(b.1));
    let (da, db) = (two_digits(a.2), two_digits(b.2));
    let (ha, hb) = (two_digits(a.3), two_digits(b.3));
    let (ia, ib) = (two_digits(a.4), two_digits(b.4));
    let (sa, sb) = (two_digits(a.5), two_digits(b.5));
    let (xa, xb) = (pad_left(decimal(a.6 as nat), 3, '0'), pad_left(decimal(b.6 as nat), 3, '0'));
    let dash = seq!['-'];
    let tee = seq!['T'];
    let colon = seq![':'];
    let dot = seq!['.'];
    let zed = seq!['Z'];
    let p1a = ya + dash;
    let p1b = yb + dash;
    lemma_append(ya, yb, dash, dash);
    let p2a = p1a + ma;
    let p2b = p1b + mb;
    lemma_append(p1a, p1b, ma, mb);
    let p3a = p2a + dash;
    let p3b = p2b + dash;
    lemma_append(p2a, p2b, dash, dash);
    let p4a = p3a + da;
    let p4b = p3b + db;
    lemma_append(p3a, p3b, da, db);
    let p5a = p4a + tee;
    let p5b = p4b + tee;
    lemma_append(p4a, p4b, tee, tee);
    let p6a = p5a + ha;
    let p6b = p5b + hb;
    lemma_append(p5a, p5b, ha, hb);
    let p7a = p6a + colon;
    let p7b = p6b + colon;
    lemma_append(p6a, p6b, colon, colon);
    let p8a = p7a + ia;
    let p8b = p7b + ib;
    lemma_append(p7a, p7b, ia, ib);
    let p9a = p8a + colon;
    let p9b = p8b + colon;
    lemma_append(p8a, p8b, colon, colon);
    let p10a = p9a + sa;
    let p10b = p9b + sb;
    lemma_append(p9a, p9b, sa, sb);
    let p11a = p10a + dot;
    let p11b = p10b + dot;
    lemma_append(p10a, p10b, dot, dot);
    let p12a = p11a + xa;
    let p12b = p11b + xb;
    lemma_append(p11a, p11b, xa, xb);
    lemma_append(p12a, p12b, zed, zed);
    assert(text_of(a) == p12a + zed);
    assert(text_of(b) == p12b + zed);
}

// ------------------------------------------------------------- the calendar

/// Every day number names a date.
proof fn lemma_date_exists(days: int)
    ensures
        is_date(date_of(days).0, date_of(days).1, date_of(days).2),
        day_number(date_of(days).0, date_of(days).1, date_of(days).2) == days,
{
    let z = days + 719_468;
    let era = z / 146_097;
    let doe = z % 146_097;
    crate::time::lemma_year_of_era(doe);
    let yoe = (doe - doe / 1460 + doe / 36_524 - doe / 146_096) / 365;
    let doy = doe - (365 * yoe + yoe / 4 - yoe / 100);
    let len: int = 365 + if is_leap(yoe + 1) { 1int } else { 0int };
    crate::time::lemma_era_year_length(yoe);
    crate::time::lemma_month_of_year(doy, len);
    let mp = (5 * doy + 2) / 153;
    let d = doy - (153 * mp + 2) / 5 + 1;
    crate::time::lemma_civil_parts(era, yoe, doy, mp, d);
    vstd::arithmetic::div_mod::lemma_fundamental_div_mod(z, 146_097);
    let m = if mp < 10 { mp + 3 } else { mp - 9 };
    let year = if m <= 2 { 400 * era + yoe + 1 } else { 400 * era + yoe };
    let t = (year, m, d);
    assert(is_date(t.0, t.1, t.2) && day_number(t.0, t.1, t.2) == days);
    assert(exists|u: (int, int, int)| is_date(u.0, u.1, u.2) && day_number(u.0, u.1, u.2) == days);
}

proof fn lemma_date_order(y1: int, m1: int, d1: int, y2: int, m2: int, d2: int)
    requires
        is_date(y1, m1, d1),
        is_date(y2, m2, d2),
        y1 < y2 || (y1 == y2 && m1 < m2) || (y1 == y2 && m1 == m2 && d1 < d2),
    ensures
        day_number(y1, m1, d1) < day_number(y2, m2, d2),
{
    crate::time::lemma_within_year(y1, m1, d1);
    crate::time::lemma_within_year(y2, m2, d2);
    if y1 < y2 {
        if y1 + 1 < y2 {
            crate::time::lemma_years_increase(y1 + 1, y2);
        }
    } else if m1 < m2 {
        assert(days_before_month(y1, m1) + days_in_month(y1, m1) <= days_before_month(y1, m2));
    }
}

proof fn lemma_year_in_range(days: int)
    requires
        -719_528 <= days <= 2_932_896,
    ensures
        0 <= date_of(days).0 <= 9999,
{
    lemma_date_exists(days);
    let (y, m, d) = date_of(days);
    crate::time::lemma_within_year(y, m, d);
    assert(days_before_year(0) == -719_528);
    assert(days_before_year(10000) == 2_932_897);
    if y < 0 {
        if y + 1 < 0 {
            crate::time::lemma_years_increase(y + 1, 0);
        }
    }
    if y > 9999 {
        if 10000 < y {
            crate::time::lemma_years_increase(10000, y);
        }
    }
}

pub open spec fn fields_of(unix_millis: int) -> (int, int, int, int, int, int, int) {
    let days = unix_millis / 86_400_000;
    let in_day = unix_millis % 86_400_000;
    let date = date_of(days);
    (
        date.0,
        date.1,
        date.2,
        in_day / 3_600_000,
        in_day % 3_600_000 / 60_000,
        in_day % 60_000 / 1000,
        in_day % 1000,
    )
}

proof fn lemma_time_of_day(x: int, y: int)
    requires
        0 <= x <= y < 86_400_000,
    ensures
        x / 3_600_000 < 24,
        x % 3_600_000 / 60_000 < 60,
        x % 60_000 / 1000 < 60,
        x == 3_600_000 * (x / 3_600_000) + 60_000 * (x % 3_600_000 / 60_000) + 1000 * (x % 60_000 / 1000)
            + x % 1000,
        x < y ==> x / 3_600_000 < y / 3_600_000 || (x / 3_600_000 == y / 3_600_000 && (x % 3_600_000 / 60_000
            < y % 3_600_000 / 60_000 || (x % 3_600_000 / 60_000 == y % 3_600_000 / 60_000 && (x
            % 60_000 / 1000 < y % 60_000 / 1000 || (x % 60_000 / 1000 == y % 60_000 / 1000 && x
            % 1000 < y % 1000))))),
{
    assert(x == 3_600_000 * (x / 3_600_000) + x % 3_600_000 && 0 <= x % 3_600_000 < 3_600_000) by {
        vstd::arithmetic::div_mod::lemma_fundamental_div_mod(x, 3_600_000);
    }
    assert(y == 3_600_000 * (y / 3_600_000) + y % 3_600_000 && 0 <= y % 3_600_000 < 3_600_000) by {
        vstd::arithmetic::div_mod::lemma_fundamental_div_mod(y, 3_600_000);
    }
    let (rx, ry) = (x % 3_600_000, y % 3_600_000);
    assert(rx == 60_000 * (rx / 60_000) + rx % 60_000 && 0 <= rx % 60_000 < 60_000) by {
        vstd::arithmetic::div_mod::lemma_fundamental_div_mod(rx, 60_000);
    }
    assert(ry == 60_000 * (ry / 60_000) + ry % 60_000 && 0 <= ry % 60_000 < 60_000) by {
        vstd::arithmetic::div_mod::lemma_fundamental_div_mod(ry, 60_000);
    }
    assert(x % 60_000 == rx % 60_000) by {
        vstd::arithmetic::div_mod::lemma_mod_mod(x, 60_000, 60);
    }
    assert(y % 60_000 == ry % 60_000) by {
        vstd::arithmetic::div_mod::lemma_mod_mod(y, 60_000, 60);
    }
    let (sx, sy) = (x % 60_000, y % 60_000);
    assert(sx == 1000 * (sx / 1000) + sx % 1000 && 0 <= sx % 1000 < 1000) by {
        vstd::arithmetic::div_mod::lemma_fundamental_div_mod(sx, 1000);
    }
    assert(sy == 1000 * (sy / 1000) + sy % 1000 && 0 <= sy % 1000 < 1000) by {
        vstd::arithmetic::div_mod::lemma_fundamental_div_mod(sy, 1000);
    }
    assert(x % 1000 == sx % 1000) by {
        vstd::arithmetic::div_mod::lemma_mod_mod(x, 1000, 60);
    }
    assert(y % 1000 == sy % 1000) by {
        vstd::arithmetic::div_mod::lemma_mod_mod(y, 1000, 60);
    }
    assert(x / 3_600_000 < 24) by (nonlinear_arith)
        requires
            x == 3_600_000 * (x / 3_600_000) + rx,
            0 <= rx,
            x < 86_400_000,
    ;
    assert(rx / 60_000 < 60) by (nonlinear_arith)
        requires
            rx == 60_000 * (rx / 60_000) + rx % 60_000,
            0 <= rx % 60_000,
            rx < 3_600_000,
    ;
    assert(sx / 1000 < 60) by (nonlinear_arith)
        requires
            sx == 1000 * (sx / 1000) + sx % 1000,
            0 <= sx % 1000,
            sx < 60_000,
    ;
    let (hx, hy, mx, my, cx, cy, lx, ly) = (
        x / 3_600_000,
        y / 3_600_000,
        rx / 60_000,
        ry / 60_000,
        sx / 1000,
        sy / 1000,
        sx % 1000,
        sy % 1000,
    );
    assert(x < y ==> hx < hy || (hx == hy && (mx < my || (mx == my && (cx < cy || (cx == cy && lx < ly)))))) by (
    nonlinear_arith)
        requires
            x == 3_600_000 * hx + 60_000 * mx + 1000 * cx + lx,
            y == 3_600_000 * hy + 60_000 * my + 1000 * cy + ly,
            0 <= mx < 60,
            0 <= my,
            60_000 * my + 1000 * cy + ly < 3_600_000,
            0 <= cx < 60,
            0 <= cy,
            1000 * cy + ly < 60_000,
            0 <= lx < 1000,
            0 <= ly,
            ly < 1000,
            1000 * cx + lx < 60_000,
            60_000 * mx + 1000 * cx + lx < 3_600_000,
    ;
}

/// For the years 0000 to 9999 a timestamp is 24 characters, and a later
/// instant always renders as a text that sorts after an earlier one, so
/// distinct instants never share a timestamp.
pub proof fn law_timestamps_sort_like_instants(a: int, b: int)
    requires
        first_renderable() <= a <= last_renderable(),
        first_renderable() <= b <= last_renderable(),
    ensures
        spec_iso8601(a).len() == 24,
        a < b ==> text_lt(spec_iso8601(a), spec_iso8601(b)),
{
    let (da, db) = (a / 86_400_000, b / 86_400_000);
    let (ta, tb) = (a % 86_400_000, b % 86_400_000);
    vstd::arithmetic::div_mod::lemma_fundamental_div_mod(a, 86_400_000);
    vstd::arithmetic::div_mod::lemma_fundamental_div_mod(b, 86_400_000);
    assert(-719_528 <= da <= 2_932_896 && -719_528 <= db <= 2_932_896) by (nonlinear_arith)
        requires
            a == 86_400_000 * da + ta,
            b == 86_400_000 * db + tb,
            0 <= ta < 86_400_000,
            0 <= tb < 86_400_000,
            -62_167_219_200_000 <= a <= 253_402_300_799_999,
            -62_167_219_200_000 <= b <= 253_402_300_799_999,
    ;
    lemma_date_exists(da);
    lemma_date_exists(db);
    lemma_year_in_range(da);
    lemma_year_in_range(db);
    let fa = fields_of(a);
    let fb = fields_of(b);
    if ta < tb {
        lemma_time_of_day(ta, tb);
    } else if tb < ta {
        lemma_time_of_day(tb, ta);
    }
    lemma_time_of_day(ta, ta);
    lemma_time_of_day(tb, tb);
    assert(fields_in_range(fa) && fields_in_range(fb));
    assert(spec_iso8601(a) == text_of(fa));
    assert(spec_iso8601(b) == text_of(fb));
    if a < b {
        if da < db {
            let (y1, m1, d1) = date_of(da);
            let (y2, m2, d2) = date_of(db);
            if !(y1 < y2 || (y1 == y2 && m1 < m2) || (y1 == y2 && m1 == m2 && d1 < d2)) {
                if y1 == y2 && m1 == m2 && d1 == d2 {
                } else {
                    lemma_date_order(y2, m2, d2, y1, m1, d1);
                }
            }
        } else {
            assert(da == db) by (nonlinear_arith)
                requires
                    a == 86_400_000 * da + ta,
                    b == 86_400_000 * db + tb,
                    0 <= ta < 86_400_000,
                    0 <= tb < 86_400_000,
                    a < b,
                    !(da < db),
            ;
            assert(ta < tb);
        }
        assert(fields_lt(fa, fb));
    }
    lemma_timestamp_text(fa, fb);
}

/// A timestamp for the years 0000 to 9999 has the layout
/// `YYYY-MM-DDTHH:MM:SS.mmmZ`, and reading its digit fields back names the
/// instant it was made from: a real date, an hour, minute and second in
/// range, and the same count of milliseconds since the Unix epoch. An
/// instant at midnight ends in `T00:00:00.000Z`.
pub proof fn law_timestamps_read_back(a: int)
    requires
        first_renderable() <= a <= last_renderable(),
    ensures
        ({
            let s = spec_iso8601(a);
            let y = digits_value(s.subrange(0, 4)) as int;
            let mo = digits_value(s.subrange(5, 7)) as int;
            let d = digits_value(s.subrange(8, 10)) as int;
            let h = digits_value(s.subrange(11, 13)) as int;
            let mi = digits_value(s.subrange(14, 16)) as int;
            let sec = digits_value(s.subrange(17, 19)) as int;
            let ms = digits_value(s.subrange(20, 23)) as int;
            &&& s.len() == 24
            &&& s[4] == '-' && s[7] == '-' && s[10] == 'T' && s[13] == ':' && s[16] == ':' && s[19] == '.'
                && s[23] == 'Z'
            &&& all_digits(s.subrange(0, 4)) && all_digits(s.subrange(5, 7)) && all_digits(s.subrange(8, 10))
                && all_digits(s.subrange(11, 13)) && all_digits(s.subrange(14, 16)) && all_digits(
                s.subrange(17, 19),
            ) && all_digits(s.subrange(20, 23))
            &&& is_date(y, mo, d) && h < 24 && mi < 60 && sec < 60
            &&& day_number(y, mo, d) * 86_400_000 + h * 3_600_000 + mi * 60_000 + sec * 1000 + ms == a
        }),
        a % 86_400_000 == 0 ==> spec_iso8601(a).subrange(10, 24) == "T00:00:00.000Z"@,
{
    let days = a / 86_400_000;
    let t = a % 86_400_000;
    vstd::arithmetic::div_mod::lemma_fundamental_div_mod(a, 86_400_000);
    assert(-719_528 <= days <= 2_932_896) by (nonlinear_arith)
        requires
            a == 86_400_000 * days + t,
            0 <= t < 86_400_000,
            -62_167_219_200_000 <= a <= 253_402_300_799_999,
    ;
    lemma_date_exists(days);
    lemma_year_in_range(days);
    lemma_time_of_day(t, t);
    let f = fields_of(a);
    assert(fields_in_range(f));
    assert(pow10(2) == 100 && pow10(3) == 1000 && pow10(4) == 10000) by {
        reveal_with_fuel(pow10, 5);
    }
    lemma_block(f.0 as nat, 4);
    lemma_block(f.1 as nat, 2);
    lemma_block(f.2 as nat, 2);
    lemma_block(f.3 as nat, 2);
    lemma_block(f.4 as nat, 2);
    lemma_block(f.5 as nat, 2);
    lemma_block(f.6 as nat, 3);
    let yy = pad_left(decimal(f.0 as nat), 4, '0');
    assert(signed_padded(f.0, 4) == yy);
    let (m2, d2, h2, i2, s2) = (two_digits(f.1), two_digits(f.2), two_digits(f.3), two_digits(f.4), two_digits(f.5));
    let x3 = pad_left(decimal(f.6 as nat), 3, '0');
    let s = spec_iso8601(a);
    assert(s == text_of(f));
    let built = yy + seq!['-'] + m2 + seq!['-'] + d2 + seq!['T'] + h2 + seq![':'] + i2 + seq![':'] + s2
        + seq!['.'] + x3 + seq!['Z'];
    assert(s == built);
    assert(s.subrange(0, 4) =~= yy);
    assert(s.subrange(5, 7) =~= m2);
    assert(s.subrange(8, 10) =~= d2);
    assert(s.subrange(11, 13) =~= h2);
    assert(s.subrange(14, 16) =~= i2);
    assert(s.subrange(17, 19) =~= s2);
    assert(s.subrange(20, 23) =~= x3);
    assert(s[4] == '-' && s[7] == '-' && s[10] == 'T' && s[13] == ':' && s[16] == ':' && s[19] == '.' && s[23]
        == 'Z');
    assert(day_number(f.0, f.1, f.2) == days);
    if t == 0 {
        reveal_strlit("T00:00:00.000Z");
        assert(decimal(0) == seq!['0']);
        assert(h2 =~= seq!['0', '0'] && i2 =~= seq!['0', '0'] && s2 =~= seq!['0', '0']);
        assert(x3 =~= seq!['0', '0', '0']);
        assert(s.subrange(10, 24) =~= "T00:00:00.000Z"@);
    }
}

} // verus!
