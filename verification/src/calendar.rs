//! Civil dates in the proleptic Gregorian calendar, and time stamps.

use crate::ascii;
use crate::ascii::{dec_padded_text, dec_text};
use vstd::prelude::*;
use vstd::string::*;

verus! {

// --- the calendar -----------------------------------------------------------

pub open spec fn is_leap(y: int) -> bool {
    y % 4 == 0 && (y % 100 != 0 || y % 400 == 0)
}

pub open spec fn month_len(y: int, m: int) -> int {
    if m == 2 {
        if is_leap(y) {
            29
        } else {
            28
        }
    } else if m == 4 || m == 6 || m == 9 || m == 11 {
        30
    } else {
        31
    }
}

/// True for a day of the calendar.
pub open spec fn is_date(y: int, m: int, d: int) -> bool {
    1 <= m <= 12 && 1 <= d <= month_len(y, m)
}

/// The days from the first of January of the year 0 to that of the year `y`:
/// 365 for each year, and one more for each leap year.
#[verifier::opaque]
pub open spec fn days_before_year(y: int) -> int {
    365 * y + (y + 3) / 4 - (y + 99) / 100 + (y + 399) / 400
}

/// The days in the months of the year `y` before the month `m`.
pub open spec fn days_before_month(y: int, m: int) -> int
    decreases m,
{
    if m <= 1 {
        0
    } else {
        days_before_month(y, m - 1) + month_len(y, m - 1)
    }
}

/// The days from 1970-01-01 to a date.
pub open spec fn day_number(y: int, m: int, d: int) -> int {
    days_before_year(y) + days_before_month(y, m) + (d - 1) - 719_528
}

/// The day after a date.
pub open spec fn next_day(y: int, m: int, d: int) -> (int, int, int) {
    if d < month_len(y, m) {
        (y, m, d + 1)
    } else if m < 12 {
        (y, m + 1, 1)
    } else {
        (y + 1, 1, 1)
    }
}

proof fn lemma_months(y: int)
    ensures
        days_before_month(y, 1) == 0,
        days_before_month(y, 2) == 31,
        days_before_month(y, 3) == 59 + if is_leap(y) { 1int } else { 0 },
        days_before_month(y, 4) == days_before_month(y, 3) + 31,
        days_before_month(y, 5) == days_before_month(y, 3) + 61,
        days_before_month(y, 6) == days_before_month(y, 3) + 92,
        days_before_month(y, 7) == days_before_month(y, 3) + 122,
        days_before_month(y, 8) == days_before_month(y, 3) + 153,
        days_before_month(y, 9) == days_before_month(y, 3) + 184,
        days_before_month(y, 10) == days_before_month(y, 3) + 214,
        days_before_month(y, 11) == days_before_month(y, 3) + 245,
        days_before_month(y, 12) == days_before_month(y, 3) + 275,
{
    reveal_with_fuel(days_before_month, 13);
}

/// A year is 365 days long, a leap year 366.
pub proof fn lemma_year_len(y: int)
    ensures
        days_before_year(y + 1) == days_before_year(y) + if is_leap(y) {
            366int
        } else {
            365
        },
{
    reveal(days_before_year);
    lemma_round_up(y, 4);
    lemma_round_up(y, 100);
    lemma_round_up(y, 400);
    assert(y % 400 == 0 ==> y % 100 == 0);
    assert(y % 100 == 0 ==> y % 4 == 0);
}

/// Dividing with rounding up gives one more after each multiple of `k`.
proof fn lemma_round_up(y: int, k: int)
    requires
        k > 0,
    ensures
        (y + 1 + (k - 1)) / k == (y + (k - 1)) / k + if y % k == 0 { 1int } else { 0 },
        (y + (k - 1)) / k == y / k + if y % k == 0 { 0int } else { 1 },
{
    let a = y / k;
    let r = y % k;
    vstd::arithmetic::div_mod::lemma_fundamental_div_mod(y, k);
    vstd::arithmetic::div_mod::lemma_mod_bound(y, k);
    assert((a + 1) * k == k * a + k && a * k == k * a) by (nonlinear_arith);
    if r == 0 {
        lemma_div(y + k, k, a + 1, 0);
        lemma_div(y + k - 1, k, a, k - 1);
    } else {
        lemma_div(y + k, k, a + 1, r);
        lemma_div(y + k - 1, k, a + 1, r - 1);
    }
}

/// The calendar starts counting at 1970-01-01 and counts every day once: the
/// day after a date has the next number.
pub proof fn lemma_day_number(y: int, m: int, d: int)
    requires
        is_date(y, m, d),
    ensures
        day_number(1970, 1, 1) == 0,
        ({
            let (y2, m2, d2) = next_day(y, m, d);
            is_date(y2, m2, d2) && day_number(y2, m2, d2) == day_number(y, m, d) + 1
        }),
{
    assert(day_number(1970, 1, 1) == 0) by {
        reveal(days_before_year);
        lemma_months(1970);
    }
    lemma_months(y);
    lemma_months(y + 1);
    lemma_year_len(y);
}

/// Two dates with the same number are the same date.
pub proof fn lemma_day_number_injective(y: int, m: int, d: int, y2: int, m2: int, d2: int)
    requires
        is_date(y, m, d),
        is_date(y2, m2, d2),
        day_number(y, m, d) == day_number(y2, m2, d2),
    ensures
        y == y2 && m == m2 && d == d2,
{
    lemma_months(y);
    lemma_months(y2);
    lemma_day_in_year(y, m, d);
    lemma_day_in_year(y2, m2, d2);
    if y < y2 {
        lemma_years_grow(y + 1, y2);
    } else if y2 < y {
        lemma_years_grow(y2 + 1, y);
    }
}

proof fn lemma_years_grow(a: int, b: int)
    requires
        a <= b,
    ensures
        days_before_year(a) <= days_before_year(b),
    decreases b - a,
{
    if a < b {
        lemma_years_grow(a, b - 1);
        lemma_year_len(b - 1);
    }
}

proof fn lemma_day_in_year(y: int, m: int, d: int)
    requires
        is_date(y, m, d),
    ensures
        0 <= days_before_month(y, m) + d - 1 < days_before_year(y + 1) - days_before_year(y),
{
    lemma_months(y);
    lemma_year_len(y);
}

/// The month and day of the day `doy` days after the first of March.
fn month_and_day(doy: u64) -> (r: (u32, u32))
    requires
        doy <= 365,
    ensures
        1 <= r.0 <= 12,
        1 <= r.1 <= 31,
        doy == since_march(r.0 as int) + r.1 - 1,
        r.0 == 4 || r.0 == 6 || r.0 == 9 || r.0 == 11 ==> r.1 <= 30,
        r.0 == 2 ==> r.1 <= 29 && (r.1 == 29 <==> doy == 365),
{
    if doy < 31 {
        (3, doy as u32 + 1)
    } else if doy < 61 {
        (4, (doy - 31) as u32 + 1)
    } else if doy < 92 {
        (5, (doy - 61) as u32 + 1)
    } else if doy < 122 {
        (6, (doy - 92) as u32 + 1)
    } else if doy < 153 {
        (7, (doy - 122) as u32 + 1)
    } else if doy < 184 {
        (8, (doy - 153) as u32 + 1)
    } else if doy < 214 {
        (9, (doy - 184) as u32 + 1)
    } else if doy < 245 {
        (10, (doy - 214) as u32 + 1)
    } else if doy < 275 {
        (11, (doy - 245) as u32 + 1)
    } else if doy < 306 {
        (12, (doy - 275) as u32 + 1)
    } else if doy < 337 {
        (1, (doy - 306) as u32 + 1)
    } else {
        (2, (doy - 337) as u32 + 1)
    }
}

/// The century, the four years within it, the year within those and the day
/// within that of the day `doe` of an era, which starts with a first of March
/// and is 400 years long.
fn split_era(doe: u64) -> (r: (u64, u64, u64, u64))
    requires
        doe <= 146_096,
    ensures
        r.0 <= 3 && r.1 <= 24 && r.2 <= 3 && r.3 <= 365,
        doe == 36_524 * r.0 + 1461 * r.1 + 365 * r.2 + r.3,
        r.3 == 365 ==> r.2 == 3 && (r.1 < 24 || r.0 == 3),
{
    let century: u64 = if doe / 36_524 < 3 { doe / 36_524 } else { 3 };
    let in_century: u64 = doe - century * 36_524;
    let quad: u64 = in_century / 1461;
    let in_quad: u64 = in_century - quad * 1461;
    let year: u64 = if in_quad / 365 < 3 { in_quad / 365 } else { 3 };
    (century, quad, year, in_quad - year * 365)
}

/// The day number of a first of March, with the year split as above.
proof fn lemma_march(e: int, c: int, q: int, w: int)
    requires
        0 <= c <= 3,
        0 <= q <= 24,
        0 <= w <= 3,
    ensures
        ({
            let y = 400 * e + 100 * c + 4 * q + w;
            &&& days_before_year(y) + days_before_month(y, 3) == 146_097 * e + 36_524 * c + 1461 * q
                + 365 * w + 60
            &&& w == 3 && (q < 24 || c == 3) ==> is_leap(y + 1)
        }),
{
    let y = 400 * e + 100 * c + 4 * q + w;
    lemma_div(y, 4, 100 * e + 25 * c + q, w);
    lemma_div(y, 100, 4 * e + c, 4 * q + w);
    lemma_div(y, 400, e, 100 * c + 4 * q + w);
    lemma_months(y);
    lemma_first_of_march(y);
    if w == 3 && (q < 24 || c == 3) {
        lemma_div(y + 1, 4, 100 * e + 25 * c + q + 1, 0);
        if q < 24 {
            lemma_div(y + 1, 100, 4 * e + c, 4 * q + 4);
        } else {
            lemma_div(y + 1, 400, e + 1, 0);
        }
    }
}

proof fn lemma_div(x: int, d: int, q: int, r: int)
    requires
        0 <= r < d,
        x == q * d + r,
    ensures
        x / d == q,
        x % d == r,
{
    vstd::arithmetic::div_mod::lemma_fundamental_div_mod_converse(x, d, q, r);
}

/// The days up to a first of March, with the leap years counted up to and
/// with its own.
proof fn lemma_first_of_march(y: int)
    ensures
        days_before_year(y) + days_before_month(y, 3) == 365 * y + y / 4 - y / 100 + y / 400 + 60,
{
    reveal(days_before_year);
    lemma_months(y);
    lemma_round_up(y, 4);
    lemma_round_up(y, 100);
    lemma_round_up(y, 400);
    assert(y % 400 == 0 ==> y % 100 == 0);
    assert(y % 100 == 0 ==> y % 4 == 0);
}

/// The date of a day given by its number. Years are counted from March, so
/// that a leap day is the last day of its year, in eras of 400 years.
pub fn civil_from_days(z: i64) -> (r: (i64, u32, u32))
    requires
        -0x1000_0000_0000_0000 <= z <= 0x1000_0000_0000_0000,
    ensures
        is_date(r.0 as int, r.1 as int, r.2 as int),
        day_number(r.0 as int, r.1 as int, r.2 as int) == z,
{
    let (era, doe) = era_of(z + 719_468);
    let (century, quad, year, doy) = split_era(doe);
    let (m, d) = month_and_day(doy);
    let march_year: i64 = era * 400 + (century * 100 + quad * 4 + year) as i64;
    let y: i64 = if m <= 2 { march_year + 1 } else { march_year };
    proof {
        let my = march_year as int;
        lemma_march(era as int, century as int, quad as int, year as int);
        assert(days_before_year(my) + days_before_month(my, 3) + doy == z + 719_528);
        lemma_from_march(my, m as int, d as int, doy as int);
    }
    (y, m, d)
}

/// The days between the first of March and the first of the month `m`.
spec fn since_march(m: int) -> int {
    if m == 3 {
        0
    } else if m == 4 {
        31
    } else if m == 5 {
        61
    } else if m == 6 {
        92
    } else if m == 7 {
        122
    } else if m == 8 {
        153
    } else if m == 9 {
        184
    } else if m == 10 {
        214
    } else if m == 11 {
        245
    } else if m == 12 {
        275
    } else if m == 1 {
        306
    } else {
        337
    }
}

/// A day counted from the first of March of the year `my` is the day of that
/// year, or of the next one from January on.
proof fn lemma_from_march(my: int, m: int, d: int, doy: int)
    requires
        1 <= m <= 12,
        1 <= d <= 31,
        doy == since_march(m) + d - 1,
        m == 4 || m == 6 || m == 9 || m == 11 ==> d <= 30,
        m == 2 ==> d <= 29 && (d == 29 ==> is_leap(my + 1)),
    ensures
        ({
            let y = if m <= 2 { my + 1 } else { my };
            &&& is_date(y, m, d)
            &&& day_number(y, m, d) == days_before_year(my) + days_before_month(my, 3) + doy
                - 719_528
        }),
{
    lemma_months(my);
    lemma_months(my + 1);
    lemma_year_len(my);
}

/// The era of a day counted from the first of March of the year 0, and the day
/// within it.
fn era_of(n: i64) -> (r: (i64, u64))
    requires
        -0x2000_0000_0000_0000 <= n <= 0x2000_0000_0000_0000,
    ensures
        n == r.0 * 146_097 + r.1,
        r.1 <= 146_096,
        -0x10_0000_0000_0000 <= r.0 <= 0x10_0000_0000_0000,
{
    let era: i64 = if n >= 0 {
        n / 146_097
    } else {
        -((146_096 - n) / 146_097)
    };
    (era, (n - era * 146_097) as u64)
}

// --- time stamps ------------------------------------------------------------

/// The 64-bit number `n` read as a signed one.
pub open spec fn signed(n: u64) -> int {
    if n < 0x8000_0000_0000_0000 {
        n as int
    } else {
        n - 0x1_0000_0000_0000_0000
    }
}

/// A year, with zeros in front up to four characters.
pub open spec fn year_text(y: int) -> Seq<char> {
    if y >= 0 {
        ascii::dec_padded(y as nat, 4)
    } else {
        seq!['-'] + ascii::dec_padded((-y) as nat, 3)
    }
}

/// A number of at least two digits.
pub open spec fn two(n: int) -> Seq<char> {
    ascii::dec_padded(n as nat, 2)
}

/// A date and time of day as a time stamp.
pub open spec fn stamp(y: int, m: int, d: int, secs: int, with_secs: bool) -> Seq<char> {
    let s = year_text(y) + seq!['-'] + two(m) + seq!['-'] + two(d) + seq![' '] + two(secs / 3600)
        + seq![':'] + two((secs % 3600) / 60);
    if with_secs {
        s + seq![':'] + two(secs % 60)
    } else {
        s
    }
}

/// The date with the number `n`.
pub open spec fn date_of(n: int) -> (int, int, int) {
    choose|t: (int, int, int)| is_date(t.0, t.1, t.2) && day_number(t.0, t.1, t.2) == n
}

/// The time stamp of the second `unix`, `offset` seconds east of UTC.
pub open spec fn stamp_at(unix: u64, offset: int, with_secs: bool) -> Seq<char> {
    let t = signed(unix) + offset;
    let (y, m, d) = date_of(t / 86_400);
    stamp(y, m, d, t % 86_400, with_secs)
}

fn year_string(y: i64) -> (r: String)
    requires
        y > i64::MIN,
    ensures
        r@ == year_text(y as int),
{
    if y >= 0 {
        dec_padded_text(y as u64, 4)
    } else {
        let mut r = String::new();
        r.push('-');
        let s = dec_padded_text((-y) as u64, 3);
        r.append(s.as_str());
        assert(r@ =~= year_text(y as int));
        r
    }
}

fn push_two(s: &mut String, c: char, n: u64)
    ensures
        final(s)@ == old(s)@ + seq![c] + two(n as int),
{
    let ghost before = s@;
    s.push(c);
    let t = dec_padded_text(n, 2);
    s.append(t.as_str());
    assert(s@ =~= before + seq![c] + two(n as int));
}

/// `unix` shifted by `offset` seconds, rendered as civil time:
/// "2026-09-17 14:03" (plus seconds when `with_secs`).
pub fn fmt_stamp_at(unix: u64, offset: i64, with_secs: bool) -> (r: String)
    ensures
        r@ == stamp_at(unix, offset as int, with_secs),
{
    let t: i128 = if unix < 0x8000_0000_0000_0000 {
        unix as i128 + offset as i128
    } else {
        unix as i128 - 0x1_0000_0000_0000_0000 + offset as i128
    };
    let days: i128 = if t >= 0 {
        t / 86_400
    } else {
        -((86_399 - t) / 86_400)
    };
    let secs: u64 = (t - days * 86_400) as u64;
    proof {
        assert(days == (t as int) / 86_400);
        assert(secs == (t as int) % 86_400);
    }
    let (y, m, d) = civil_from_days(days as i64);
    proof {
        let c = date_of(days as int);
        assert(is_date(y as int, m as int, d as int));
        let w = (y as int, m as int, d as int);
        assert(is_date(w.0, w.1, w.2) && day_number(w.0, w.1, w.2) == days);
        lemma_day_number_injective(y as int, m as int, d as int, c.0, c.1, c.2);
        lemma_year_range(y as int, m as int, d as int);
    }
    let mut r = year_string(y);
    push_two(&mut r, '-', m as u64);
    push_two(&mut r, '-', d as u64);
    push_two(&mut r, ' ', secs / 3600);
    push_two(&mut r, ':', (secs % 3600) / 60);
    if with_secs {
        push_two(&mut r, ':', secs % 60);
    }
    r
}

/// A date's year is not far from its day number's.
proof fn lemma_year_range(y: int, m: int, d: int)
    requires
        is_date(y, m, d),
        day_number(y, m, d) >= -0x1000_0000_0000_0000,
    ensures
        y > i64::MIN,
{
    reveal(days_before_year);
    lemma_months(y);
    lemma_day_in_year(y, m, d);
}

// --- ages -------------------------------------------------------------------

/// How long ago something that happened `secs` seconds ago was, in words.
pub open spec fn age_text(secs: int) -> Seq<char> {
    if secs < 60 {
        "just now"@
    } else if secs < 3600 {
        ascii::dec((secs / 60) as nat) + " min ago"@
    } else if secs < 86_400 {
        ascii::dec((secs / 3600) as nat) + " h ago"@
    } else {
        ascii::dec((secs / 86_400) as nat) + " d ago"@
    }
}

/// How long ago `when` was, for the detail line: "just now", "7 min ago", ...
/// A time that has not come yet is "just now".
pub fn fmt_age(now: u64, when: u64) -> (r: String)
    ensures
        r@ == age_text(if now >= when { now - when } else { 0 }),
{
    let secs: u64 = if now >= when { now - when } else { 0 };
    if secs < 60 {
        "just now".to_owned()
    } else {
        let (n, unit): (u64, &str) = if secs < 3600 {
            (secs / 60, " min ago")
        } else if secs < 86_400 {
            (secs / 3600, " h ago")
        } else {
            (secs / 86_400, " d ago")
        };
        let mut r = dec_text(n);
        r.append(unit);
        r
    }
}

} // verus!
