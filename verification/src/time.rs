//! RFC 3339 time stamps in UTC, with a resolution of one second.

use crate::number;
use crate::text;
use std::time::{Duration, SystemTime, SystemTimeError};
use vstd::arithmetic::div_mod;
use vstd::prelude::*;

verus! {

// ---------------------------------------------------------------------
// The calendar
// ---------------------------------------------------------------------

/// Gregorian leap years.
pub open spec fn is_leap(y: int) -> bool {
    y % 4 == 0 && (y % 100 != 0 || y % 400 == 0)
}

/// The length of a month, 1 to 12.
pub open spec fn days_in_month(y: int, m: int) -> int {
    if m == 2 {
        if is_leap(y) {
            29
        } else {
            28
        }
    } else if m == 4 || m == 6 || m == 9 || m == 11 {
        30
    } else {
        31
    }
}

/// The days of the year before its month `m`.
pub open spec fn days_before_month(y: int, m: int) -> int
    decreases m,
{
    if m <= 1 {
        0
    } else {
        days_before_month(y, m - 1) + days_in_month(y, m - 1)
    }
}

/// The days from 0000-01-01 to the first day of the year `y`.
pub open spec fn days_before_year(y: int) -> int {
    365 * y + (y + 3) / 4 - (y + 99) / 100 + (y + 399) / 400
}

/// A date of the Gregorian calendar.
pub open spec fn is_date(y: int, m: int, d: int) -> bool {
    1 <= m <= 12 && 1 <= d <= days_in_month(y, m)
}

/// The days from 1970-01-01 to a date.
pub open spec fn day_number(y: int, m: int, d: int) -> int {
    days_before_year(y) + days_before_month(y, m) + d - 1 - 719_528
}

/// `(y, m, d)` is the date `days` days after 1970-01-01.
pub open spec fn is_date_of(days: int, y: int, m: int, d: int) -> bool {
    is_date(y, m, d) && day_number(y, m, d) == days
}

/// The date `days` days after 1970-01-01.
pub open spec fn date_of(days: int) -> (int, int, int) {
    choose|y: int, m: int, d: int| is_date_of(days, y, m, d)
}

/// From one year to the next, the multiples of `n` that come before the year
/// grow by one where the year is such a multiple.
proof fn lemma_multiples_before(y: int, n: int)
    requires
        n > 1,
    ensures
        (y + n) / n - (y + n - 1) / n == if y % n == 0 {
            1int
        } else {
            0int
        },
{
    let q = y / n;
    let m = y % n;
    div_mod::lemma_fundamental_div_mod(y, n);
    assert(n * (q + 1) == n * q + n) by (nonlinear_arith);
    assert(q * n == n * q && (q + 1) * n == n * (q + 1)) by (nonlinear_arith);
    div_mod::lemma_fundamental_div_mod_converse(y + n, n, q + 1, m);
    if m == 0 {
        div_mod::lemma_fundamental_div_mod_converse(y + n - 1, n, q, n - 1);
    } else {
        div_mod::lemma_fundamental_div_mod_converse(y + n - 1, n, q + 1, m - 1);
    }
}

/// `days_before_year` counts the days of each year.
pub proof fn lemma_year_length(y: int)
    ensures
        days_before_year(y + 1) - days_before_year(y) == if is_leap(y) {
            366int
        } else {
            365int
        },
{
    lemma_multiples_before(y, 4);
    lemma_multiples_before(y, 100);
    lemma_multiples_before(y, 400);
    assert(y % 100 == 0 ==> y % 4 == 0);
    assert(y % 400 == 0 ==> y % 100 == 0);
}

proof fn lemma_months(y: int)
    ensures
        days_before_month(y, 1) == 0,
        days_before_month(y, 2) == 31,
        days_before_month(y, 3) == 31 + days_in_month(y, 2),
        days_before_month(y, 4) == 62 + days_in_month(y, 2),
        days_before_month(y, 5) == 92 + days_in_month(y, 2),
        days_before_month(y, 6) == 123 + days_in_month(y, 2),
        days_before_month(y, 7) == 153 + days_in_month(y, 2),
        days_before_month(y, 8) == 184 + days_in_month(y, 2),
        days_before_month(y, 9) == 215 + days_in_month(y, 2),
        days_before_month(y, 10) == 245 + days_in_month(y, 2),
        days_before_month(y, 11) == 276 + days_in_month(y, 2),
        days_before_month(y, 12) == 306 + days_in_month(y, 2),
{
    reveal_with_fuel(days_before_month, 13);
}

proof fn lemma_date_in_year(y: int, m: int, d: int)
    requires
        is_date(y, m, d),
    ensures
        days_before_year(y) <= day_number(y, m, d) + 719_528 < days_before_year(y + 1),
{
    lemma_months(y);
    lemma_year_length(y);
}

proof fn lemma_years_increase(a: int, b: int)
    requires
        a <= b,
    ensures
        days_before_year(a) <= days_before_year(b),
    decreases b - a,
{
    if a < b {
        lemma_years_increase(a, b - 1);
        lemma_year_length(b - 1);
    }
}

/// One date precedes another by year, then month, then day.
pub open spec fn date_lt(a: (int, int, int), b: (int, int, int)) -> bool {
    a.0 < b.0 || (a.0 == b.0 && (a.1 < b.1 || (a.1 == b.1 && a.2 < b.2)))
}

/// Later dates have greater day numbers.
pub proof fn lemma_dates_increase(a: (int, int, int), b: (int, int, int))
    requires
        is_date(a.0, a.1, a.2),
        is_date(b.0, b.1, b.2),
        date_lt(a, b),
    ensures
        day_number(a.0, a.1, a.2) < day_number(b.0, b.1, b.2),
{
    lemma_date_in_year(a.0, a.1, a.2);
    lemma_date_in_year(b.0, b.1, b.2);
    if a.0 < b.0 {
        lemma_years_increase(a.0 + 1, b.0);
    } else {
        lemma_months(a.0);
    }
}

/// A day number belongs to one date only.
pub proof fn law_date_unique(days: int, a: (int, int, int), b: (int, int, int))
    requires
        is_date_of(days, a.0, a.1, a.2),
        is_date_of(days, b.0, b.1, b.2),
    ensures
        a == b,
{
    if date_lt(a, b) {
        lemma_dates_increase(a, b);
    }
    if date_lt(b, a) {
        lemma_dates_increase(b, a);
    }
}

// ---------------------------------------------------------------------
// From day numbers to dates
// ---------------------------------------------------------------------

/// The year of a 400-year era, counted from March, that a day of the era
/// falls in.
pub open spec fn era_year(doe: int) -> int {
    (doe - doe / 1460 + doe / 36_524 - doe / 146_096) / 365
}

/// The days of an era before its year `yoe`.
pub open spec fn era_days(yoe: int) -> int {
    365 * yoe + yoe / 4 - yoe / 100
}

proof fn lemma_era_year(doe: int)
    requires
        0 <= doe < 146_097,
    ensures
        0 <= era_year(doe) < 400,
        era_days(era_year(doe)) <= doe,
        doe - era_days(era_year(doe)) <= 364 + if is_leap(era_year(doe) + 1) {
            1int
        } else {
            0int
        },
{
    let c = doe / 36_524;
    let q = doe / 1460;
    let yoe = era_year(doe);
    if doe == 146_096 {
        assert(yoe == 399);
    } else {
        assert(doe / 146_096 == 0);
        assert(0 <= c < 4);
        let r = doe - 36_524 * c;
        assert(365 * yoe <= doe - q + c < 365 * (yoe + 1));
        if c == 0 {
            lemma_century(doe, 0);
        } else if c == 1 {
            lemma_century(doe, 1);
        } else if c == 2 {
            lemma_century(doe, 2);
        } else {
            lemma_century(doe, 3);
        }
    }
}

proof fn lemma_century(doe: int, c: int)
    requires
        0 <= c < 4,
        doe < 146_096,
        36_524 * c <= doe < 36_524 * (c + 1),
    ensures
        ({
            let yoe = (doe - doe / 1460 + c) / 365;
            &&& 100 * c <= yoe < 100 * (c + 1)
            &&& era_days(yoe) <= doe
            &&& doe - era_days(yoe) <= 364 + if is_leap(yoe + 1) {
                1int
            } else {
                0int
            }
        }),
{
}

/// The date of a day number, as year, month and day.
fn days_to_ymd(days_since_epoch: i64) -> (r: (i64, u32, u32))
    requires
        days_since_epoch <= i64::MAX - 719_468,
    ensures
        is_date_of(days_since_epoch as int, r.0 as int, r.1 as int, r.2 as int),
{
    let z: i64 = days_since_epoch + 719_468;
    let era: i64 = floor_div(z, 146_097);
    let doe: u64 = (z - era * 146_097) as u64;
    proof {
        lemma_era_year(doe as int);
    }
    let yoe: u64 = (doe - doe / 1460 + doe / 36_524 - doe / 146_096) / 365;
    let y: i64 = yoe as i64 + era * 400;
    let doy: u64 = doe - (365 * yoe + yoe / 4 - yoe / 100);
    let mp: u64 = (5 * doy + 2) / 153;
    proof {
        lemma_march_month(doy as int);
    }
    let d: u64 = doy - (153 * mp + 2) / 5 + 1;
    let m: u64 = if mp < 10 {
        mp + 3
    } else {
        mp - 9
    };
    let year: i64 = if m <= 2 {
        y + 1
    } else {
        y
    };
    proof {
        lemma_march_year(y as int, yoe as int, era as int);
        lemma_march_date(y as int, doy as int, mp as int, d as int);
    }
    (year, m as u32, d as u32)
}

proof fn lemma_march_year(y: int, yoe: int, era: int)
    requires
        0 <= yoe < 400,
        y == yoe + 400 * era,
    ensures
        days_before_year(y + 1) - 366 == 146_097 * era + era_days(yoe),
        is_leap(y + 1) == is_leap(yoe + 1),
{
    assert((y + 4) / 4 == yoe / 4 + 1 + 100 * era);
    assert((y + 100) / 100 == yoe / 100 + 1 + 4 * era);
    assert((y + 400) / 400 == 1 + era);
    assert((y + 1) % 4 == (yoe + 1) % 4);
    assert((y + 1) % 100 == (yoe + 1) % 100);
    assert((y + 1) % 400 == (yoe + 1) % 400);
}

/// The first day of the month `mp` of a year counted from March.
pub open spec fn march_month_start(mp: int) -> int {
    (153 * mp + 2) / 5
}

proof fn lemma_march_month(doy: int)
    requires
        0 <= doy <= 365,
    ensures
        ({
            let mp = (5 * doy + 2) / 153;
            0 <= mp <= 11 && march_month_start(mp) <= doy < march_month_start(mp + 1)
        }),
{
}

proof fn lemma_march_date(y: int, doy: int, mp: int, d: int)
    requires
        0 <= doy <= 364 + if is_leap(y + 1) {
            1int
        } else {
            0int
        },
        0 <= mp <= 11,
        march_month_start(mp) <= doy < march_month_start(mp + 1),
        d == doy - march_month_start(mp) + 1,
    ensures
        ({
            let m = if mp < 10 {
                mp + 3
            } else {
                mp - 9
            };
            let year = if m <= 2 {
                y + 1
            } else {
                y
            };
            is_date_of(days_before_year(y + 1) - 366 + doy - 719_468, year, m, d)
        }),
{
    lemma_months(y);
    lemma_months(y + 1);
    lemma_year_length(y);
    assert(march_month_start(0) == 0 && march_month_start(1) == 31 && march_month_start(2) == 61
        && march_month_start(3) == 92 && march_month_start(4) == 122 && march_month_start(5) == 153
        && march_month_start(6) == 184 && march_month_start(7) == 214 && march_month_start(8) == 245
        && march_month_start(9) == 275 && march_month_start(10) == 306 && march_month_start(11) == 337);
    assert(mp == 0 || mp == 1 || mp == 2 || mp == 3 || mp == 4 || mp == 5 || mp == 6 || mp == 7 || mp == 8 || mp
        == 9 || mp == 10 || mp == 11);
}

/// Division rounded toward negative infinity.
fn floor_div(a: i64, b: i64) -> (r: i64)
    requires
        b > 1,
    ensures
        r == (a as int) / (b as int),
{
    assert(i64::MIN <= (a as int) / (b as int) <= i64::MAX) by (nonlinear_arith)
        requires
            b > 1,
            i64::MIN <= a <= i64::MAX,
    ;
    a.checked_div_euclid(b).unwrap()
}

/// The remainder of that division.
fn floor_mod(a: i64, b: i64) -> (r: i64)
    requires
        b > 1,
    ensures
        r == (a as int) % (b as int),
        0 <= r < b,
{
    assert(0 <= (a as int) % (b as int) && (a as int) % (b as int) < b) by (nonlinear_arith)
        requires
            b > 1,
    ;
    a.checked_rem_euclid(b).unwrap()
}

// ---------------------------------------------------------------------
// Stamps
// ---------------------------------------------------------------------

/// A year, with four digits at least and a sign where it is negative.
pub open spec fn year_text(y: int) -> Seq<char> {
    if y < 0 {
        seq!['-'] + number::zero_padded(number::decimal((-y) as nat), 3)
    } else {
        number::zero_padded(number::decimal(y as nat), 4)
    }
}

/// A number with two digits at least.
pub open spec fn two_digits(n: int) -> Seq<char> {
    number::zero_padded(number::decimal(n as nat), 2)
}

/// `h:m:sZ`.
pub open spec fn clock_text(h: int, m: int, s: int) -> Seq<char> {
    two_digits(h) + (seq![':'] + (two_digits(m) + (seq![':'] + (two_digits(s) + seq!['Z']))))
}

/// The RFC 3339 form of a date and a time of day.
pub open spec fn stamp_text(date: (int, int, int), h: int, m: int, s: int) -> Seq<char> {
    year_text(date.0) + (seq!['-'] + (two_digits(date.1) + (seq!['-'] + (two_digits(date.2) + (seq!['T']
        + clock_text(h, m, s))))))
}

/// The RFC 3339 stamp of a number of seconds since 1970-01-01T00:00:00Z.
pub open spec fn stamp(unix_secs: int) -> Seq<char> {
    stamp_text(
        date_of(unix_secs / 86_400),
        (unix_secs / 3600) % 24,
        (unix_secs / 60) % 60,
        unix_secs % 60,
    )
}

fn year_string(y: i64) -> (r: String)
    requires
        y > i64::MIN,
    ensures
        r@ == year_text(y as int),
{
    if y < 0 {
        let digits = number::dec_padded((0 - y) as u64, 3);
        proof {
            reveal_strlit("-");
            assert("-"@ =~= seq!['-']);
        }
        text::join2("-", digits.as_str())
    } else {
        number::dec_padded(y as u64, 4)
    }
}

/// The RFC 3339 stamp of `unix_secs` seconds since 1970-01-01T00:00:00Z.
pub fn rfc3339_at(unix_secs: i64) -> (r: String)
    ensures
        r@ == stamp(unix_secs as int),
{
    let s: i64 = floor_mod(unix_secs, 60);
    let m: i64 = floor_mod(floor_div(unix_secs, 60), 60);
    let h: i64 = floor_mod(floor_div(unix_secs, 3600), 24);
    let (y, mo, d) = days_to_ymd(floor_div(unix_secs, 86_400));
    proof {
        let days = (unix_secs as int) / 86_400;
        let c = date_of(days);
        assert(is_date_of(days, y as int, mo as int, d as int));
        law_date_unique(days, (y as int, mo as int, d as int), c);
        lemma_year_bound(days, y as int, mo as int, d as int);
    }
    let mut out = year_string(y);
    out.push('-');
    out.append(number::dec_padded(mo as u64, 2).as_str());
    out.push('-');
    out.append(number::dec_padded(d as u64, 2).as_str());
    out.push('T');
    out.append(number::dec_padded(h as u64, 2).as_str());
    out.push(':');
    out.append(number::dec_padded(m as u64, 2).as_str());
    out.push(':');
    out.append(number::dec_padded(s as u64, 2).as_str());
    out.push('Z');
    proof {
        assert(out@ =~= stamp_text((y as int, mo as int, d as int), h as int, m as int, s as int));
    }
    out
}

proof fn lemma_year_bound(days: int, y: int, m: int, d: int)
    requires
        is_date_of(days, y, m, d),
        days > -200_000_000_000_000,
    ensures
        y > i64::MIN,
{
    lemma_date_in_year(y, m, d);
}

// ---------------------------------------------------------------------
// Order
// ---------------------------------------------------------------------

/// Every day number is the number of a date.
pub proof fn law_date_exists(days: int)
    ensures
        ({
            let c = date_of(days);
            is_date_of(days, c.0, c.1, c.2)
        }),
{
    let z = days + 719_468;
    let era = z / 146_097;
    let doe = z % 146_097;
    let yoe = era_year(doe);
    let y = yoe + 400 * era;
    let doy = doe - era_days(yoe);
    let mp = (5 * doy + 2) / 153;
    let d = doy - march_month_start(mp) + 1;
    lemma_era_year(doe);
    lemma_march_year(y, yoe, era);
    lemma_march_month(doy);
    lemma_march_date(y, doy, mp, d);
}

proof fn lemma_four_digit_year(days: int, y: int, m: int, d: int)
    requires
        is_date_of(days, y, m, d),
        -719_528 <= days < 2_932_897,
    ensures
        0 <= y <= 9999,
{
    lemma_date_in_year(y, m, d);
    if y < 0 {
        lemma_years_increase(y + 1, 0);
    }
    if y > 9999 {
        lemma_years_increase(10_000, y);
    }
}

proof fn lemma_two_digits(a: int)
    requires
        0 <= a < 100,
    ensures
        two_digits(a) == number::fixed(a as nat, 2),
        two_digits(a).len() == 2,
        number::ten_to(2) == 100,
{
    reveal_with_fuel(number::ten_to, 3);
    number::lemma_padded_is_fixed(a as nat, 2);
    number::lemma_fixed_len(a as nat, 2);
}

proof fn lemma_four_digits(a: int)
    requires
        0 <= a < 10_000,
    ensures
        year_text(a) == number::fixed(a as nat, 4),
        year_text(a).len() == 4,
        number::ten_to(4) == 10_000,
{
    reveal_with_fuel(number::ten_to, 5);
    number::lemma_padded_is_fixed(a as nat, 4);
    number::lemma_fixed_len(a as nat, 4);
}

/// How a field and what follows it compare.
proof fn lemma_field_lt(x: Seq<char>, y: Seq<char>, u: Seq<char>, v: Seq<char>, c: char)
    requires
        x.len() == y.len(),
        text::text_lt(x, y) || (x == y && text::text_lt(u, v)),
    ensures
        text::text_lt(x + (seq![c] + u), y + (seq![c] + v)),
{
    if text::text_lt(x, y) {
        text::lemma_text_lt_extend(x, y, seq![c] + u, seq![c] + v);
    } else {
        text::lemma_text_lt_common_prefix(seq![c], u, v);
        text::lemma_text_lt_common_prefix(x, seq![c] + u, seq![c] + v);
    }
}

proof fn lemma_two_digits_lt(a: int, b: int)
    requires
        0 <= a <= b < 100,
    ensures
        two_digits(a).len() == two_digits(b).len(),
        a < b ==> text::text_lt(two_digits(a), two_digits(b)),
{
    lemma_two_digits(a);
    lemma_two_digits(b);
    if a < b {
        number::lemma_fixed_lt(a as nat, b as nat, 2);
    }
}

proof fn lemma_clock_lt(h: int, m: int, s: int, h2: int, m2: int, s2: int)
    requires
        0 <= h < 24,
        0 <= m < 60,
        0 <= s < 60,
        0 <= h2 < 24,
        0 <= m2 < 60,
        0 <= s2 < 60,
        h < h2 || (h == h2 && (m < m2 || (m == m2 && s < s2))),
    ensures
        text::text_lt(clock_text(h, m, s), clock_text(h2, m2, s2)),
{
    let last = two_digits(s) + seq!['Z'];
    let last2 = two_digits(s2) + seq!['Z'];
    let mid = two_digits(m) + (seq![':'] + last);
    let mid2 = two_digits(m2) + (seq![':'] + last2);
    lemma_two_digits_lt(h, h2);
    if h == h2 {
        lemma_two_digits_lt(m, m2);
        if m == m2 {
            lemma_two_digits_lt(s, s2);
            text::lemma_text_lt_extend(two_digits(s), two_digits(s2), seq!['Z'], seq!['Z']);
        }
        lemma_field_lt(two_digits(m), two_digits(m2), last, last2, ':');
    }
    lemma_field_lt(two_digits(h), two_digits(h2), mid, mid2, ':');
}

/// Stamps sort as text in the order of time: of two seconds in the years
/// 0000 to 9999 the earlier one has the lesser stamp.
pub proof fn law_stamps_sort_by_time(a: int, b: int)
    requires
        -62_167_219_200 <= a < b < 253_402_300_800,
    ensures
        text::text_lt(stamp(a), stamp(b)),
{
    let ca = date_of(a / 86_400);
    let cb = date_of(b / 86_400);
    law_date_exists(a / 86_400);
    law_date_exists(b / 86_400);
    lemma_four_digit_year(a / 86_400, ca.0, ca.1, ca.2);
    lemma_four_digit_year(b / 86_400, cb.0, cb.1, cb.2);
    lemma_four_digits(ca.0);
    lemma_four_digits(cb.0);
    let ta = clock_text((a / 3600) % 24, (a / 60) % 60, a % 60);
    let tb = clock_text((b / 3600) % 24, (b / 60) % 60, b % 60);
    let da = two_digits(ca.2) + (seq!['T'] + ta);
    let db = two_digits(cb.2) + (seq!['T'] + tb);
    let ma = two_digits(ca.1) + (seq!['-'] + da);
    let mb = two_digits(cb.1) + (seq!['-'] + db);
    if a / 86_400 == b / 86_400 {
        lemma_time_of_day(a);
        lemma_time_of_day(b);
        lemma_clock_lt(
            (a / 3600) % 24,
            (a / 60) % 60,
            a % 60,
            (b / 3600) % 24,
            (b / 60) % 60,
            b % 60,
        );
    } else {
        if !date_lt(ca, cb) && ca != cb {
            lemma_dates_increase(cb, ca);
        }
    }
    if ca.0 == cb.0 {
        if ca.1 == cb.1 {
            lemma_two_digits_lt(ca.2, cb.2);
            lemma_field_lt(two_digits(ca.2), two_digits(cb.2), ta, tb, 'T');
        }
        lemma_two_digits_lt(ca.1, cb.1);
        lemma_field_lt(two_digits(ca.1), two_digits(cb.1), da, db, '-');
    } else {
        number::lemma_fixed_lt(ca.0 as nat, cb.0 as nat, 4);
    }
    lemma_field_lt(year_text(ca.0), year_text(cb.0), ma, mb, '-');
}

proof fn lemma_time_of_day(t: int)
    ensures
        t == 86_400 * (t / 86_400) + 3600 * ((t / 3600) % 24) + 60 * ((t / 60) % 60) + t % 60,
{
    assert(t / 3600 == (t / 60) / 60);
    assert(t / 86_400 == (t / 3600) / 24);
}

// ---------------------------------------------------------------------
// The clock
// ---------------------------------------------------------------------

/// A point in time of the system clock.
#[verifier::external_type_specification]
#[verifier::external_body]
pub struct ExSystemTime(SystemTime);

/// The error of a point in time that lies before the one it is measured from.
#[verifier::external_type_specification]
#[verifier::external_body]
pub struct ExSystemTimeError(SystemTimeError);

/// `SystemTime::now` reads the system clock. Nothing is claimed of the
/// reading.
pub assume_specification[ SystemTime::now ]() -> SystemTime
;

/// `Duration::as_secs` gives the whole seconds of a duration. Durations are
/// opaque here, so nothing is claimed of the number.
pub assume_specification[ Duration::as_secs ](d: &Duration) -> u64
;

/// `SystemTime::duration_since` measures a point in time from the Unix
/// epoch. Nothing is claimed of the result.
#[verifier::external_body]
fn since_epoch(t: SystemTime) -> Result<Duration, SystemTimeError> {
    t.duration_since(std::time::UNIX_EPOCH)
}

/// The seconds are what a reading of the system clock comes to: the whole
/// seconds of its distance from the Unix epoch, zero where it lies before the
/// epoch.
pub closed spec fn clock_reads(secs: u64) -> bool {
    exists|t: SystemTime, since: Result<Duration, SystemTimeError>|
        {
            &&& #[trigger] call_ensures(SystemTime::now, (), t)
            &&& #[trigger] call_ensures(since_epoch, (t,), since)
            &&& match since {
                Ok(d) => call_ensures(Duration::as_secs, (&d,), secs),
                Err(_) => secs == 0,
            }
        }
}

/// The seconds that come of the three steps of reading a clock: its present,
/// the distance of a present from an epoch, and the whole seconds of a
/// distance.
fn read_clock<
    N: Fn() -> SystemTime,
    S: Fn(SystemTime) -> Result<Duration, SystemTimeError>,
    W: Fn(&Duration) -> u64,
>(now: N, since: S, whole: W) -> (r: u64)
    requires
        now.requires(()),
        forall|t: SystemTime| #[trigger] since.requires((t,)),
        forall|d: Duration| #[trigger] whole.requires((&d,)),
    ensures
        exists|t: SystemTime, out: Result<Duration, SystemTimeError>|
            {
                &&& #[trigger] now.ensures((), t)
                &&& #[trigger] since.ensures((t,), out)
                &&& match out {
                    Ok(d) => whole.ensures((&d,), r),
                    Err(_) => r == 0,
                }
            },
{
    let t = now();
    let out = since(t);
    match out {
        Ok(d) => whole(&d),
        Err(_) => 0,
    }
}

/// The seconds since the Unix epoch, zero for a clock set before it.
pub(crate) fn unix_now() -> (r: u64)
    ensures
        clock_reads(r),
{
    read_clock(SystemTime::now, since_epoch, Duration::as_secs)
}

/// The stamp of the present.
pub fn now_rfc3339() -> (r: String)
    ensures
        exists|secs: u64| #[trigger] clock_reads(secs) && r@ == stamp((secs as i64) as int),
{
    let secs: u64 = unix_now();
    rfc3339_at(secs as i64)
}

/// The second that lies `secs` seconds before `now`, in the arithmetic of
/// 64-bit integers.
pub open spec fn seconds_before(now: i64, secs: u64) -> i64 {
    now.wrapping_sub(secs as i64)
}

/// The stamp of `secs` seconds before `now`.
pub fn minus_secs(now: i64, secs: u64) -> (r: String)
    ensures
        r@ == stamp(seconds_before(now, secs) as int),
{
    rfc3339_at(now.wrapping_sub(secs as i64))
}

/// `f` gives the stamp of any number of seconds before `now`.
pub open spec fn counts_back_from<F: FnOnce(u64) -> String>(f: F, now: i64) -> bool {
    forall|secs: u64, out: String| #[trigger]
        f.ensures((secs,), out) ==> out@ == stamp(seconds_before(now, secs) as int)
}

/// A function from a number of seconds to the stamp of that long before the
/// present. The clock is read once, by this call.
pub fn now_minus_secs() -> (r: impl FnOnce(u64) -> String)
    ensures
        forall|secs: u64| #[trigger] r.requires((secs,)),
        exists|secs: u64| #[trigger] clock_reads(secs) && counts_back_from(r, secs as i64),
{
    let secs_now: u64 = unix_now();
    let now: i64 = secs_now as i64;
    let f = move |secs: u64| -> (out: String)
        ensures
            out@ == stamp(seconds_before(now, secs) as int),
        {
            minus_secs(now, secs)
        };
    assert(counts_back_from(f, now));
    f
}

} // verus!
