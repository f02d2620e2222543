//! Wall-clock text for the header: UTC time of day and calendar date from
//! seconds since the Unix epoch.

use vstd::prelude::*;
use vstd::arithmetic::div_mod::{lemma_fundamental_div_mod, lemma_fundamental_div_mod_converse};

use crate::text::{dec, pad_left, decimal, pad_left_chars, append_chars, string_of};

verus! {

// ---------------------------------------------------------------------
// the Gregorian calendar
// ---------------------------------------------------------------------

/// `y` is a leap year of the proleptic Gregorian calendar.
pub open spec fn is_leap(y: int) -> bool {
    (y % 4 == 0 && y % 100 != 0) || y % 400 == 0
}

/// The number of days of year `y`.
pub open spec fn year_len(y: int) -> int {
    if is_leap(y) {
        366
    } else {
        365
    }
}

/// The number of days of month `m` (1 to 12) of year `y`.
pub open spec fn month_len(y: int, m: int) -> int {
    if m == 2 {
        if is_leap(y) {
            29
        } else {
            28
        }
    } else if m == 4 || m == 6 || m == 9 || m == 11 {
        30
    } else {
        31
    }
}

/// Days from 1970-01-01 to the first of January of year `y` (negative before 1970).
pub open spec fn days_before_year(y: int) -> int
    decreases (if y >= 1970 {
        y - 1970
    } else {
        1970 - y
    }),
{
    if y == 1970 {
        0
    } else if y > 1970 {
        days_before_year(y - 1) + year_len(y - 1)
    } else {
        days_before_year(y + 1) - year_len(y)
    }
}

/// Days from the first of January of `y` to the first day of month `m`.
pub open spec fn days_before_month(y: int, m: int) -> int
    decreases m,
{
    if m <= 1 {
        0
    } else {
        days_before_month(y, m - 1) + month_len(y, m - 1)
    }
}

/// `y-m-d` names a day of the calendar.
pub open spec fn valid_date(y: int, m: int, d: int) -> bool {
    1 <= m <= 12 && 1 <= d <= month_len(y, m)
}

/// The number of days from 1970-01-01 to `y-m-d`.
pub open spec fn day_number(y: int, m: int, d: int) -> int {
    days_before_year(y) + days_before_month(y, m) + d - 1
}

// ---------------------------------------------------------------------
// counting leap years
// ---------------------------------------------------------------------

/// The number of leap years among 1..=n (for n >= 0; a matching count below).
pub open spec fn leaps(n: int) -> int {
    n / 4 - n / 100 + n / 400
}

proof fn lemma_floor_step(n: int, k: int)
    requires
        k > 0,
    ensures
        n / k - (n - 1) / k == (if n % k == 0 {
            1int
        } else {
            0int
        }),
{
    lemma_fundamental_div_mod(n - 1, k);
    let q = (n - 1) / k;
    let r = (n - 1) % k;
    if r == k - 1 {
        assert(n == (q + 1) * k + 0) by (nonlinear_arith)
            requires
                n - 1 == k * q + r,
                r == k - 1,
        ;
        lemma_fundamental_div_mod_converse(n, k, q + 1, 0);
    } else {
        assert(n == q * k + (r + 1)) by (nonlinear_arith)
            requires
                n - 1 == k * q + r,
        ;
        lemma_fundamental_div_mod_converse(n, k, q, r + 1);
    }
}

proof fn lemma_divides_down(n: int, big: int, small: int)
    requires
        small > 0,
        big % small == 0,
        big > 0,
        n % big == 0,
    ensures
        n % small == 0,
{
    lemma_fundamental_div_mod(n, big);
    lemma_fundamental_div_mod(big, small);
    let a = n / big;
    let b = big / small;
    assert(n == (a * b) * small + 0) by (nonlinear_arith)
        requires
            n == big * a + 0,
            big == small * b + 0,
    ;
    lemma_fundamental_div_mod_converse(n, small, a * b, 0);
}

proof fn lemma_leap_step(n: int)
    ensures
        leaps(n) - leaps(n - 1) == (if is_leap(n) {
            1int
        } else {
            0int
        }),
{
    lemma_floor_step(n, 4);
    lemma_floor_step(n, 100);
    lemma_floor_step(n, 400);
    if n % 400 == 0 {
        lemma_divides_down(n, 400, 100);
        lemma_divides_down(n, 400, 4);
    }
    if n % 100 == 0 {
        lemma_divides_down(n, 100, 4);
    }
}

/// `days_before_year` in closed form.
proof fn lemma_days_before_year(y: int)
    ensures
        days_before_year(y) == 365 * (y - 1970) + leaps(y - 1) - leaps(1969),
    decreases (if y >= 1970 {
        y - 1970
    } else {
        1970 - y
    }),
{
    if y > 1970 {
        lemma_days_before_year(y - 1);
        lemma_leap_step(y - 1);
    } else if y < 1970 {
        lemma_days_before_year(y + 1);
        lemma_leap_step(y);
    }
}

/// `days_before_month` by table: March onwards counted from the first of March.
proof fn lemma_days_before_month(y: int, m: int)
    requires
        1 <= m <= 12,
    ensures
        m == 1 ==> days_before_month(y, m) == 0,
        m == 2 ==> days_before_month(y, m) == 31,
        m >= 3 ==> days_before_month(y, m) == 59 + (if is_leap(y) {
            1int
        } else {
            0int
        }) + (153 * (m - 3) + 2) / 5,
{
    reveal_with_fuel(days_before_month, 13);
}

proof fn lemma_leap_shift(e: int, x: int)
    ensures
        is_leap(400 * e + x) == is_leap(x),
{
    lemma_fundamental_div_mod(x, 4);
    lemma_fundamental_div_mod(x, 100);
    lemma_fundamental_div_mod(x, 400);
    let (q4, r4) = (x / 4, x % 4);
    let (q1, r1) = (x / 100, x % 100);
    let (q0, r0) = (x / 400, x % 400);
    assert(400 * e + x == (100 * e + q4) * 4 + r4) by (nonlinear_arith)
        requires
            x == 4 * q4 + r4,
    ;
    assert(400 * e + x == (4 * e + q1) * 100 + r1) by (nonlinear_arith)
        requires
            x == 100 * q1 + r1,
    ;
    assert(400 * e + x == (e + q0) * 400 + r0) by (nonlinear_arith)
        requires
            x == 400 * q0 + r0,
    ;
    lemma_fundamental_div_mod_converse(400 * e + x, 4, 100 * e + q4, r4);
    lemma_fundamental_div_mod_converse(400 * e + x, 100, 4 * e + q1, r1);
    lemma_fundamental_div_mod_converse(400 * e + x, 400, e + q0, r0);
}

// ---------------------------------------------------------------------
// from a day count to a date
// ---------------------------------------------------------------------

/// The year of a 400-year era (years counted from March) that day `doe`
/// of the era falls in.
pub open spec fn year_of_era(doe: int) -> int {
    (doe - doe / 1460 + doe / 36524 - doe / 146096) / 365
}

/// The day of that year (0 = the first of March).
pub open spec fn day_of_year(doe: int) -> int {
    let yoe = year_of_era(doe);
    doe - (365 * yoe + yoe / 4 - yoe / 100)
}

/// Splitting a day of a 400-year era into its year and the day of that year.
proof fn lemma_era_day(doe: int)
    requires
        0 <= doe <= 146096,
    ensures
        0 <= year_of_era(doe) <= 399,
        0 <= day_of_year(doe),
        day_of_year(doe) < 365 + (if is_leap(year_of_era(doe) + 1) {
            1int
        } else {
            0int
        }),
{
    if doe == 146096 {
        assert(year_of_era(doe) == 399);
        assert(day_of_year(doe) == 365);
        assert(is_leap(400));
    } else {
        lemma_fundamental_div_mod(doe, 36524);
        let k = doe / 36524;
        let e = doe % 36524;
        lemma_fundamental_div_mod(e, 1461);
        let b = e / 1461;
        let g = e % 1461;
        assert(0 <= k <= 3);
        assert(0 <= b <= 24);
        assert(b == 24 ==> g <= 1459);
        assert(doe == 36524 * k + 1461 * b + g);
        // doe / 1460
        let t: int = if 24 * k + b + g >= 1460 {
            1
        } else {
            0
        };
        lemma_fundamental_div_mod_converse(doe, 1460, 25 * k + b + t, 24 * k + b + g - 1460 * t);
        lemma_fundamental_div_mod_converse(doe, 146096, 0, doe);
        let a = doe - doe / 1460 + doe / 36524 - doe / 146096;
        assert(a == 36500 * k + 1460 * b + g - t);
        let j: int = if t == 1 {
            3
        } else {
            g / 365
        };
        if t == 1 {
            lemma_fundamental_div_mod_converse(a, 365, 100 * k + 4 * b + 3, g - 1 - 1095);
        } else {
            lemma_fundamental_div_mod(g, 365);
            lemma_fundamental_div_mod_converse(a, 365, 100 * k + 4 * b + g / 365, g % 365);
        }
        let yoe = year_of_era(doe);
        assert(yoe == 100 * k + 4 * b + j);
        assert(0 <= j <= 3);
        lemma_fundamental_div_mod_converse(yoe, 4, 25 * k + b, j);
        lemma_fundamental_div_mod_converse(yoe, 100, k, 4 * b + j);
        assert(day_of_year(doe) == g - 365 * j);
        if t == 1 && b <= 23 {
            lemma_fundamental_div_mod_converse(yoe + 1, 4, 25 * k + b + 1, 0);
            lemma_fundamental_div_mod_converse(yoe + 1, 100, k, 4 * b + 4);
            assert(is_leap(yoe + 1));
        }
    }
}

/// The month index (0 = March) of day `doy` of a year counted from March.
pub open spec fn month_index(doy: int) -> int {
    (5 * doy + 2) / 153
}

/// Splitting a day of a year counted from March into its month and day.
proof fn lemma_month_day(doy: int, leap: bool)
    requires
        0 <= doy < 365 + (if leap {
            1int
        } else {
            0int
        }),
    ensures
        0 <= month_index(doy) <= 11,
        ({
            let mp = month_index(doy);
            let d = doy - (153 * mp + 2) / 5 + 1;
            let len = if mp == 11 {
                if leap {
                    29int
                } else {
                    28int
                }
            } else if mp == 1 || mp == 3 || mp == 6 || mp == 8 {
                30int
            } else {
                31int
            };
            1 <= d <= len
        }),
{
    lemma_fundamental_div_mod(5 * doy + 2, 153);
    let mp = month_index(doy);
    assert(0 <= mp <= 11);
}

/// The calendar date (year, month, day) of day `days` counted from 1970-01-01.
pub open spec fn date_of(days: int) -> (int, int, int) {
    let z = days + 719468;
    let era = z / 146097;
    let doe = z - era * 146097;
    let yoe = year_of_era(doe);
    let y = yoe + era * 400;
    let doy = day_of_year(doe);
    let mp = month_index(doy);
    let d = doy - (153 * mp + 2) / 5 + 1;
    let m = if mp < 10 {
        mp + 3
    } else {
        mp - 9
    };
    (if m <= 2 {
        y + 1
    } else {
        y
    }, m, d)
}

/// The date computed from a day count is a real date, and it lies that many
/// days after 1970-01-01.
proof fn lemma_date_of(days: int)
    requires
        days >= 0,
    ensures
        valid_date(date_of(days).0, date_of(days).1, date_of(days).2),
        day_number(date_of(days).0, date_of(days).1, date_of(days).2) == days,
{
    let z = days + 719468;
    lemma_fundamental_div_mod(z, 146097);
    let era = z / 146097;
    let doe = z - era * 146097;
    assert(0 <= doe < 146097);
    lemma_era_day(doe);
    let yoe = year_of_era(doe);
    let yy = yoe + era * 400;
    let doy = day_of_year(doe);
    lemma_leap_shift(era, yoe + 1);
    assert(400 * era + (yoe + 1) == yy + 1);
    lemma_month_day(doy, is_leap(yy + 1));
    let mp = month_index(doy);
    let d = doy - (153 * mp + 2) / 5 + 1;
    let m = if mp < 10 {
        mp + 3
    } else {
        mp - 9
    };
    let y = if m <= 2 {
        yy + 1
    } else {
        yy
    };
    assert(date_of(days) == (y, m, d));
    // days from 0000-03-01 to yy-03-01
    let s = 365 * yy + leaps(yy);
    lemma_fundamental_div_mod(yoe, 4);
    lemma_fundamental_div_mod(yoe, 100);
    lemma_fundamental_div_mod_converse(yy, 4, 100 * era + yoe / 4, yoe % 4);
    lemma_fundamental_div_mod_converse(yy, 100, 4 * era + yoe / 100, yoe % 100);
    lemma_fundamental_div_mod_converse(yy, 400, era, yoe);
    assert(s == 146097 * era + 365 * yoe + yoe / 4 - yoe / 100) by (nonlinear_arith)
        requires
            s == 365 * yy + leaps(yy),
            yy == yoe + era * 400,
            yy / 4 == 100 * era + yoe / 4,
            yy / 100 == 4 * era + yoe / 100,
            yy / 400 == era,
    ;
    assert(z == s + doy);
    lemma_days_before_year(yy);
    lemma_days_before_year(yy + 1);
    lemma_leap_step(yy);
    lemma_leap_step(yy + 1);
    lemma_days_before_month(y, m);
    assert(valid_date(y, m, d));
}

// ---------------------------------------------------------------------
// executable conversions
// ---------------------------------------------------------------------

/// UTC calendar fields of `secs` seconds after the Unix epoch:
/// (weekday with Sunday = 0, month, day of month, hour, minute, second).
pub fn civil(secs: u64) -> (r: (u64, u64, u64, u64, u64, u64))
    ensures
        r.0 == (secs / 86400 + 4) % 7,
        r.3 == secs % 86400 / 3600,
        r.4 == secs % 86400 % 3600 / 60,
        r.5 == secs % 86400 % 60,
        exists|y: int|
            #![trigger day_number(y, r.1 as int, r.2 as int)]
            valid_date(y, r.1 as int, r.2 as int) && day_number(y, r.1 as int, r.2 as int) == secs
                / 86400,
{
    let days = secs / 86400;
    let rem = secs % 86400;
    let hh = rem / 3600;
    let mm = (rem % 3600) / 60;
    let ss = rem % 60;
    let z: i64 = days as i64 + 719468;
    let era: i64 = z / 146097;
    proof {
        lemma_fundamental_div_mod(z as int, 146097);
    }
    let doe = (z - era * 146097) as u64;
    proof {
        lemma_era_day(doe as int);
    }
    let yoe = (doe - doe / 1460 + doe / 36524 - doe / 146096) / 365;
    let doy = doe - (365 * yoe + yoe / 4 - yoe / 100);
    proof {
        lemma_month_day(doy as int, is_leap(yoe + 1));
    }
    let mp = (5 * doy + 2) / 153;
    let d = doy - (153 * mp + 2) / 5 + 1;
    let m = if mp < 10 {
        mp + 3
    } else {
        mp - 9
    };
    let wday = (days + 4) % 7;
    let r = (wday, m, d, hh, mm, ss);
    proof {
        lemma_date_of(days as int);
        let dt = date_of(days as int);
        assert(dt.1 == r.1 && dt.2 == r.2);
        assert(day_number(dt.0, r.1 as int, r.2 as int) == secs / 86400);
    }
    r
}

proof fn lemma_div_gap(x: int, y: int, k: int)
    requires
        k >= 1,
        x <= y,
    ensures
        x / k <= y / k,
        y / k - x / k <= y - x + 1,
{
    lemma_fundamental_div_mod(x, k);
    lemma_fundamental_div_mod(y, k);
    let (q1, r1) = (x / k, x % k);
    let (q2, r2) = (y / k, y % k);
    assert(q1 <= q2 && q2 - q1 <= y - x + 1) by (nonlinear_arith)
        requires
            x == k * q1 + r1,
            y == k * q2 + r2,
            0 <= r1 < k,
            0 <= r2 < k,
            x <= y,
            k >= 1,
    ;
}

/// Later years start later.
proof fn lemma_year_order(a: int, b: int)
    requires
        a < b,
    ensures
        days_before_year(a) + year_len(a) <= days_before_year(b),
{
    lemma_days_before_year(a + 1);
    lemma_days_before_year(b);
    lemma_leap_step(a);
    let n = b - 1 - a;
    lemma_div_gap(a, b - 1, 4);
    lemma_div_gap(a, b - 1, 100);
    lemma_div_gap(a, b - 1, 400);
    if n == 0 {
        assert(b - 1 == a);
    }
}

/// Later months of a year start later, and every day of a year lies within it.
proof fn lemma_month_order(y: int, m1: int, m2: int)
    requires
        1 <= m1 < m2 <= 12,
    ensures
        days_before_month(y, m1) + month_len(y, m1) <= days_before_month(y, m2),
    decreases m2 - m1,
{
    if m2 > m1 + 1 {
        lemma_month_order(y, m1, m2 - 1);
    }
}

proof fn lemma_offset_in_year(y: int, m: int, d: int)
    requires
        valid_date(y, m, d),
    ensures
        0 <= days_before_month(y, m) + d - 1 < year_len(y),
{
    lemma_days_before_month(y, m);
    lemma_days_before_month(y, 12);
    if m < 12 {
        lemma_month_order(y, m, 12);
    }
}

/// Law: a day number names exactly one calendar date.
pub proof fn law_date_unique(y1: int, m1: int, d1: int, y2: int, m2: int, d2: int)
    requires
        valid_date(y1, m1, d1),
        valid_date(y2, m2, d2),
        day_number(y1, m1, d1) == day_number(y2, m2, d2),
    ensures
        y1 == y2 && m1 == m2 && d1 == d2,
{
    lemma_offset_in_year(y1, m1, d1);
    lemma_offset_in_year(y2, m2, d2);
    if y1 < y2 {
        lemma_year_order(y1, y2);
    } else if y2 < y1 {
        lemma_year_order(y2, y1);
    } else {
        if m1 < m2 {
            lemma_month_order(y1, m1, m2);
        } else if m2 < m1 {
            lemma_month_order(y1, m2, m1);
        }
    }
}

/// Law: 1970-01-01 is day 0, and the day after the last of a month is the
/// first of the next month (or of the next year after December).
pub proof fn law_day_number_steps(y: int, m: int)
    requires
        1 <= m <= 12,
    ensures
        day_number(1970, 1, 1) == 0,
        m < 12 ==> day_number(y, m, month_len(y, m)) + 1 == day_number(y, m + 1, 1),
        m == 12 ==> day_number(y, m, month_len(y, m)) + 1 == day_number(y + 1, 1, 1),
{
    if m == 12 {
        lemma_days_before_month(y, 12);
        lemma_days_before_year(y);
        lemma_days_before_year(y + 1);
        lemma_leap_step(y);
    }
}

// ---------------------------------------------------------------------
// header clock text
// ---------------------------------------------------------------------

/// `n` in decimal, zero-padded to at least two digits (`{:02}`).
pub open spec fn two_digits(n: nat) -> Seq<char> {
    pad_left(dec(n), 2, '0')
}

/// `MM DD hh:mm:ss`.
pub open spec fn clock_chars(m: nat, d: nat, hh: nat, mm: nat, ss: nat) -> Seq<char> {
    two_digits(m) + seq![' '] + two_digits(d) + seq![' '] + two_digits(hh) + seq![':']
        + two_digits(mm) + seq![':'] + two_digits(ss)
}

fn push_two_digits(out: &mut Vec<char>, n: u64)
    ensures
        final(out)@ == old(out)@ + two_digits(n as nat),
{
    let t = pad_left_chars(decimal(n), 2, '0');
    append_chars(out, &t);
}

/// The header clock, `MM DD hh:mm:ss` (UTC), for `secs` seconds after the epoch.
pub fn chrono_like(secs: u64) -> (s: String)
    ensures
        exists|y: int, m: nat, d: nat|
            #![trigger day_number(y, m as int, d as int)]
            valid_date(y, m as int, d as int) && day_number(y, m as int, d as int) == secs / 86400
                && s@ == clock_chars(
                m,
                d,
                (secs % 86400 / 3600) as nat,
                (secs % 86400 % 3600 / 60) as nat,
                (secs % 86400 % 60) as nat,
            ),
{
    let (_wday, mon, day, hh, mm, ss) = civil(secs);
    let mut out: Vec<char> = Vec::new();
    push_two_digits(&mut out, mon);
    out.push(' ');
    push_two_digits(&mut out, day);
    out.push(' ');
    push_two_digits(&mut out, hh);
    out.push(':');
    push_two_digits(&mut out, mm);
    out.push(':');
    push_two_digits(&mut out, ss);
    let s = string_of(&out);
    proof {
        let y = choose|y: int|
            #![trigger day_number(y, mon as int, day as int)]
            valid_date(y, mon as int, day as int) && day_number(y, mon as int, day as int) == secs
                / 86400;
        assert(s@ =~= clock_chars(mon as nat, day as nat, hh as nat, mm as nat, ss as nat));
        assert(day_number(y, (mon as nat) as int, (day as nat) as int) == secs / 86400);
    }
    s
}

} // verus!
