//! Points in time and spans of time, held in seconds and shown as text.

use vstd::prelude::*;

use crate::binary64::Binary64;
#[allow(unused_imports)]
use crate::binary64::{floor, whole};
use crate::text::{decimal_text, push_decimal, push_digits};
#[allow(unused_imports)]
use crate::text::{decimal, digit, padded_left};

verus! {

/// Leap years of the Gregorian calendar.
pub open spec fn is_leap(y: int) -> bool {
    y % 4 == 0 && (y % 100 != 0 || y % 400 == 0)
}

pub open spec fn year_len(y: int) -> int {
    if is_leap(y) {
        366
    } else {
        365
    }
}

pub open spec fn month_len(y: int, m: int) -> int {
    if m == 2 {
        if is_leap(y) {
            29
        } else {
            28
        }
    } else if m == 4 || m == 6 || m == 9 || m == 11 {
        30
    } else {
        31
    }
}

/// The days from 1970-01-01 to the first of January of `y`.
pub open spec fn year_start(y: int) -> int {
    365 * y + (y + 3) / 4 - (y + 99) / 100 + (y + 399) / 400 - 719_528
}

/// The days of `y` before the first of month `m`.
pub open spec fn month_start(y: int, m: int) -> int
    decreases m,
{
    if m <= 1 {
        0
    } else {
        month_start(y, m - 1) + month_len(y, m - 1)
    }
}

/// A day of the calendar.
#[derive(Clone, Copy, Debug, PartialEq, Eq, Structural)]
pub struct Date {
    pub year: u64,
    pub month: u64,
    pub day: u64,
}

/// Whether there is such a day.
pub open spec fn is_date(d: Date) -> bool {
    1 <= d.month <= 12 && 1 <= d.day <= month_len(d.year as int, d.month as int)
}

/// The days from 1970-01-01 to a day.
pub open spec fn day_number(d: Date) -> int {
    year_start(d.year as int) + month_start(d.year as int, d.month as int) + d.day - 1
}

/// The day that is `n` days after 1970-01-01.
pub open spec fn date_of(n: int) -> Date {
    choose|d: Date| is_date(d) && day_number(d) == n
}

/// The calendar has no gaps: every year starts where the last one ended, and so
/// does every month; the count starts at 1970-01-01.
pub proof fn law_calendar_is_gapless(y: int, m: int)
    requires
        y >= 0,
        1 <= m <= 12,
    ensures
        year_start(1970) == 0,
        year_start(y + 1) == year_start(y) + year_len(y),
        month_start(y, 13) == year_len(y),
        month_start(y, m + 1) == month_start(y, m) + month_len(y, m),
{
    lemma_year_step(y);
    lemma_year_is_its_months(y);
}

proof fn lemma_year_step(y: int)
    requires
        y >= 0,
    ensures
        year_start(y + 1) == year_start(y) + year_len(y),
{
    assert((y + 4) / 4 == (y + 3) / 4 + (if y % 4 == 0 {
        1int
    } else {
        0
    }));
    assert((y + 100) / 100 == (y + 99) / 100 + (if y % 100 == 0 {
        1int
    } else {
        0
    }));
    assert((y + 400) / 400 == (y + 399) / 400 + (if y % 400 == 0 {
        1int
    } else {
        0
    }));
    assert(y % 400 == 0 ==> y % 100 == 0);
    assert(y % 100 == 0 ==> y % 4 == 0);
}

proof fn lemma_year_is_its_months(y: int)
    ensures
        month_start(y, 13) == year_len(y),
{
    reveal_with_fuel(month_start, 14);
}

proof fn lemma_year_start_increases(y: int, z: int)
    requires
        0 <= y <= z,
    ensures
        year_start(y) + 365 * (z - y) <= year_start(z),
    decreases z - y,
{
    if y < z {
        lemma_year_start_increases(y + 1, z);
        law_calendar_is_gapless(y, 1);
    }
}

proof fn lemma_month_start_increases(y: int, m: int, n: int)
    requires
        1 <= m < n <= 13,
    ensures
        month_start(y, m) + month_len(y, m) <= month_start(y, n),
    decreases n - m,
{
    if m + 1 < n {
        lemma_month_start_increases(y, m, n - 1);
    }
}

proof fn lemma_within_year(d: Date)
    requires
        is_date(d),
    ensures
        year_start(d.year as int) <= day_number(d) < year_start(d.year + 1),
{
    law_calendar_is_gapless(d.year as int, d.month as int);
    if d.month < 13 {
        lemma_month_start_increases(d.year as int, d.month as int, 13);
    }
    if d.month > 1 {
        lemma_month_start_increases(d.year as int, 1, d.month as int);
    }
}

/// No two days of the calendar have one number.
pub proof fn law_dates_are_unique(a: Date, b: Date)
    requires
        is_date(a),
        is_date(b),
        day_number(a) == day_number(b),
    ensures
        a == b,
{
    lemma_within_year(a);
    lemma_within_year(b);
    if a.year < b.year {
        lemma_year_start_increases(a.year + 1, b.year as int);
    } else if b.year < a.year {
        lemma_year_start_increases(b.year + 1, a.year as int);
    }
    if a.month < b.month {
        lemma_month_start_increases(a.year as int, a.month as int, b.month as int);
    } else if b.month < a.month {
        lemma_month_start_increases(a.year as int, b.month as int, a.month as int);
    }
}

/// The days of March-based months before month `mp`, where March is month 0.
spec fn march_start(mp: int) -> int {
    (153 * mp + 2) / 5
}

proof fn lemma_march(y: int, mp: int)
    requires
        0 <= mp <= 11,
        y >= 0,
    ensures
        mp <= 9 ==> month_start(y, mp + 3) == march_start(mp) + 59 + (if is_leap(y) {
            1int
        } else {
            0
        }),
        mp >= 10 ==> month_start(y, mp - 9) == march_start(mp) - 306,
        mp <= 9 ==> march_start(mp + 1) == march_start(mp) + month_len(y, mp + 3),
        mp == 10 ==> march_start(mp + 1) == march_start(mp) + 31,
{
    reveal_with_fuel(month_start, 14);
}

/// A year that starts in March, taken apart into its cycles.
proof fn lemma_cycles(y: int, c400: int, c100: int, c4: int, c1: int)
    requires
        c400 >= 0,
        0 <= c100 <= 3,
        0 <= c4 <= 24,
        0 <= c1 <= 3,
        y == 400 * c400 + 100 * c100 + 4 * c4 + c1,
    ensures
        y / 4 == 100 * c400 + 25 * c100 + c4,
        y / 100 == 4 * c400 + c100,
        y / 400 == c400,
        c1 == 3 && (c4 < 24 || c100 == 3) ==> is_leap(y + 1),
{
    if c1 == 3 && c4 < 24 {
        assert((y + 1) % 4 == 0);
        assert((y + 1) % 100 == 4 * c4 + 4);
    }
}

/// The day `doy` days after the first of March of `y`.
proof fn lemma_from_march(y: int, doy: int, mp: int, day: int)
    requires
        y >= 0,
        0 <= doy <= 365,
        doy == 365 ==> is_leap(y + 1),
        mp == (5 * doy + 2) / 153,
        day == doy - march_start(mp) + 1,
    ensures
        0 <= mp <= 11,
        mp < 10 ==> 1 <= day <= month_len(y, mp + 3) && year_start(y) + month_start(y, mp + 3) + day - 1 == 365 * y
            + y / 4 - y / 100 + y / 400 + doy - 719_468,
        mp >= 10 ==> 1 <= day <= month_len(y + 1, mp - 9) && year_start(y + 1) + month_start(y + 1, mp - 9) + day - 1
            == 365 * y + y / 4 - y / 100 + y / 400 + doy - 719_468,
{
    assert(0 <= mp <= 11);
    lemma_march(y, mp);
    lemma_march(y + 1, mp);
    if mp < 10 {
        assert((y + 3) / 4 == y / 4 + (if y % 4 == 0 {
            0int
        } else {
            1
        }));
        assert((y + 99) / 100 == y / 100 + (if y % 100 == 0 {
            0int
        } else {
            1
        }));
        assert((y + 399) / 400 == y / 400 + (if y % 400 == 0 {
            0int
        } else {
            1
        }));
        assert(y % 400 == 0 ==> y % 100 == 0);
        assert(y % 100 == 0 ==> y % 4 == 0);
    } else {
        assert((y + 4) / 4 == y / 4 + 1);
        assert((y + 100) / 100 == y / 100 + 1);
        assert((y + 400) / 400 == y / 400 + 1);
    }
}

/// The day that is `n` days after 1970-01-01.
fn civil(n: u64) -> (d: Date)
    requires
        n <= 0x1_0000_0000_0000,
    ensures
        is_date(d),
        day_number(d) == n,
{
    // days since the first of March of the year 0, in cycles of 400, 100, 4 and 1 years
    let z: u64 = n + 719_468;
    let c400: u64 = z / 146_097;
    let r400: u64 = z % 146_097;
    let c100: u64 = if r400 / 36_524 < 4 {
        r400 / 36_524
    } else {
        3
    };
    let r100: u64 = r400 - c100 * 36_524;
    let c4: u64 = r100 / 1461;
    let r4: u64 = r100 % 1461;
    let c1: u64 = if r4 / 365 < 4 {
        r4 / 365
    } else {
        3
    };
    let doy: u64 = r4 - c1 * 365;
    let y: u64 = 400 * c400 + 100 * c100 + 4 * c4 + c1;
    let mp: u64 = (5 * doy + 2) / 153;
    proof {
        assert(r100 <= 36_524 && (r100 == 36_524 ==> c100 == 3));
        lemma_cycles(y as int, c400 as int, c100 as int, c4 as int, c1 as int);
        lemma_from_march(y as int, doy as int, mp as int, doy - march_start(mp as int) + 1);
    }
    let day: u64 = doy - (153 * mp + 2) / 5 + 1;
    if mp < 10 {
        Date { year: y, month: mp + 3, day }
    } else {
        Date { year: y + 1, month: mp - 9, day }
    }
}

/// The whole seconds of a point in time, as far as they are told apart.
pub open spec fn seconds_of(epoch: Binary64) -> int {
    if floor(epoch) > i64::MAX {
        i64::MAX as int
    } else {
        floor(epoch) as int
    }
}

pub open spec fn two_digits(n: int) -> Seq<char> {
    padded_left(decimal(n as nat), '0', 2)
}

/// A day as `YYYY-MM-DD`.
pub open spec fn date_text(d: Date) -> Seq<char> {
    padded_left(decimal(d.year as nat), '0', 4) + "-"@ + two_digits(d.month as int) + "-"@ + two_digits(d.day as int)
}

/// A second of the day as `hh:mm:ss`.
pub open spec fn clock_text(s: int) -> Seq<char> {
    two_digits(s / 3600) + ":"@ + two_digits((s % 3600) / 60) + ":"@ + two_digits(s % 60)
}

/// A point in time as UTC calendar time; a dash for none.
pub open spec fn utc_text(epoch: Binary64) -> Seq<char> {
    if epoch.mant == 0 {
        "-"@
    } else {
        let s = seconds_of(epoch);
        date_text(date_of(s / 86_400)) + " "@ + clock_text(s % 86_400) + " UTC"@
    }
}

/// A point in time, in seconds since the start of 1970, as UTC calendar time.
pub fn fmt_utc(epoch: Binary64) -> (r: String)
    ensures
        r@ == utc_text(epoch),
{
    if epoch.mant == 0 {
        return String::from_str("-");
    }
    let secs: u64 = epoch.floor_to(0x7fff_ffff_ffff_ffff);
    let d: Date = civil(secs / 86_400);
    let clock: u64 = secs % 86_400;
    proof {
        law_dates_are_unique(d, date_of((secs / 86_400) as int));
    }
    let mut out = String::new();
    push_digits(&mut out, d.year as u128, 4);
    out.append("-");
    push_digits(&mut out, d.month as u128, 2);
    out.append("-");
    push_digits(&mut out, d.day as u128, 2);
    assert(out@ =~= date_text(d));
    out.append(" ");
    let ghost head = out@;
    push_digits(&mut out, (clock / 3600) as u128, 2);
    out.append(":");
    push_digits(&mut out, ((clock % 3600) / 60) as u128, 2);
    out.append(":");
    push_digits(&mut out, (clock % 60) as u128, 2);
    assert(out@ =~= head + clock_text(clock as int));
    out.append(" UTC");
    out
}

/// The whole seconds of a span of time.
pub open spec fn span_seconds(sec: Binary64) -> int {
    if floor(sec) > u64::MAX {
        u64::MAX as int
    } else {
        floor(sec) as int
    }
}

/// A span of time in seconds, minutes or hours.
pub open spec fn dur_text(sec: Binary64) -> Seq<char> {
    let s = span_seconds(sec);
    if s < 60 {
        decimal(s as nat) + "s"@
    } else if s < 3600 {
        decimal((s / 60) as nat) + "m "@ + decimal((s % 60) as nat) + "s"@
    } else {
        decimal((s / 3600) as nat) + "h "@ + decimal(((s % 3600) / 60) as nat) + "m"@
    }
}

/// A span of time in seconds as `12s`, `3m 5s` or `2h 40m`.
pub fn human_dur(sec: Binary64) -> (r: String)
    ensures
        r@ == dur_text(sec),
{
    let s: u128 = sec.floor_to(u64::MAX) as u128;
    if s < 60 {
        let mut out = decimal_text(s);
        out.append("s");
        out
    } else if s < 3600 {
        let mut out = decimal_text(s / 60);
        out.append("m ");
        push_decimal(&mut out, s % 60);
        out.append("s");
        out
    } else {
        let mut out = decimal_text(s / 3600);
        out.append("h ");
        push_decimal(&mut out, (s % 3600) / 60);
        out.append("m");
        out
    }
}

/// The Gregorian calendar: a year has 366 days if it is divisible by four, but of the
/// full centuries only every fourth; the months have their lengths. The count starts
/// with the first of January 1970.
pub proof fn law_gregorian_calendar(y: int, m: int)
    requires
        y >= 0,
        1 <= m <= 12,
    ensures
        year_start(1970) == 0,
        year_start(y + 1) - year_start(y) == (if y % 4 == 0 && (y % 100 != 0 || y % 400 == 0) {
            366int
        } else {
            365
        }),
        year_start(y + 400) - year_start(y) == 146_097,
        month_start(y, 1) == 0,
        m == 4 || m == 6 || m == 9 || m == 11 ==> month_start(y, m + 1) - month_start(y, m) == 30,
        m == 2 ==> month_start(y, m + 1) - month_start(y, m) == year_start(y + 1) - year_start(y) - 337,
        m != 2 && m != 4 && m != 6 && m != 9 && m != 11 ==> month_start(y, m + 1) - month_start(y, m) == 31,
{
    lemma_year_step(y);
    lemma_four_centuries(y);
    lemma_next_month(y, m);
}

proof fn lemma_four_centuries(y: int)
    ensures
        year_start(y + 400) == year_start(y) + 146_097,
{
    assert((y + 403) / 4 == (y + 3) / 4 + 100);
    assert((y + 499) / 100 == (y + 99) / 100 + 4);
    assert((y + 799) / 400 == (y + 399) / 400 + 1);
}

proof fn lemma_next_month(y: int, m: int)
    requires
        m >= 1,
    ensures
        month_start(y, m + 1) == month_start(y, m) + month_len(y, m),
{
}

/// The text of a number below one hundred in two digits, and of one below ten thousand
/// in four.
proof fn lemma_digits(n: nat)
    ensures
        n < 100 ==> padded_left(decimal(n), '0', 2) == seq![digit(n / 10), digit(n % 10)],
        n < 10_000 ==> padded_left(decimal(n), '0', 4) == seq![
            digit(n / 1000),
            digit((n / 100) % 10),
            digit((n / 10) % 10),
            digit(n % 10),
        ],
{
    reveal_with_fuel(decimal, 5);
    assert(n / 10 / 10 == n / 100 && n / 10 / 10 / 10 == n / 1000);
    if n < 100 {
        assert(padded_left(decimal(n), '0', 2) =~= seq![digit(n / 10), digit(n % 10)]);
    }
    if n < 10_000 {
        assert(padded_left(decimal(n), '0', 4) =~= seq![
            digit(n / 1000),
            digit((n / 100) % 10),
            digit((n / 10) % 10),
            digit(n % 10),
        ]);
    }
}

/// The integer part of an integer is the integer.
proof fn lemma_floor_of_whole(n: nat)
    requires
        0 < n < 0x20_0000_0000_0000,
    ensures
        whole(n).mant > 0,
        floor(whole(n)) == n,
{
    crate::binary64::law_whole_is_exact(n);
    let k = (-whole(n).exp) as nat;
    let p = vstd::arithmetic::power2::pow2(k);
    vstd::arithmetic::power2::lemma_pow2_pos(k);
    vstd::arithmetic::power2::lemma2_to64();
    assert(n * p > 0 && (n * p) / p == n) by (nonlinear_arith)
        requires
            n > 0,
            p > 0,
    ;
    if k == 0 {
        assert(n * p * p == n) by (nonlinear_arith)
            requires
                p == 1,
        ;
    }
}

/// A day as four, two and two digits, joined by dashes.
pub open spec fn date_digits(d: Date) -> Seq<char> {
    let (y, o, n) = (d.year as nat, d.month as nat, d.day as nat);
    seq![
        digit(y / 1000),
        digit((y / 100) % 10),
        digit((y / 10) % 10),
        digit(y % 10),
        '-',
        digit(o / 10),
        digit(o % 10),
        '-',
        digit(n / 10),
        digit(n % 10),
    ]
}

proof fn lemma_date_text(d: Date)
    requires
        is_date(d),
        d.year < 10_000,
    ensures
        date_text(d) == date_digits(d),
{
    lemma_digits(d.year as nat);
    lemma_digits(d.month as nat);
    lemma_digits(d.day as nat);
    reveal_strlit("-");
    assert(date_text(d) =~= date_digits(d));
}

/// Hours, minutes and seconds of two digits each, joined by colons.
pub open spec fn clock_digits(h: nat, m: nat, s: nat) -> Seq<char> {
    seq![
        digit(h / 10),
        digit(h % 10),
        ':',
        digit(m / 10),
        digit(m % 10),
        ':',
        digit(s / 10),
        digit(s % 10),
    ]
}

proof fn lemma_clock_text(h: nat, m: nat, s: nat)
    requires
        h < 24,
        m < 60,
        s < 60,
    ensures
        clock_text((3600 * h + 60 * m + s) as int) == clock_digits(h, m, s),
{
    let clock = 3600 * h + 60 * m + s;
    assert(clock / 3600 == h && (clock % 3600) / 60 == m && clock % 60 == s);
    lemma_digits(h);
    lemma_digits(m);
    lemma_digits(s);
    reveal_strlit(":");
    assert(clock_text(clock as int) =~= clock_digits(h, m, s));
}

/// A second of a day, as date and clock.
proof fn lemma_utc_text(d: Date, clock: nat)
    requires
        is_date(d),
        1970 <= d.year < 10_000,
        clock < 86_400,
        day_number(d) > 0 || clock > 0,
    ensures
        utc_text(whole((86_400 * day_number(d) + clock) as nat)) == date_text(d) + " "@ + clock_text(clock as int)
            + " UTC"@,
{
    lemma_within_year(d);
    lemma_year_start_increases(1970, d.year as int);
    let days = day_number(d);
    assert(year_start(d.year + 1) <= 365 * 10_000 + 2501 + 26 - 719_528);
    let t = (86_400 * days + clock) as nat;
    lemma_floor_of_whole(t);
    assert(t / 86_400 == days && t % 86_400 == clock);
    let e = date_of(days);
    assert(is_date(d) && day_number(d) == days);
    law_dates_are_unique(d, e);
}

/// A second of a day is told with four digits for the year and two each for month,
/// day, hour, minute and second.
pub proof fn law_calendar_time(d: Date, h: nat, m: nat, s: nat)
    requires
        is_date(d),
        1970 <= d.year < 10_000,
        h < 24,
        m < 60,
        s < 60,
        day_number(d) > 0 || h + m + s > 0,
    ensures
        utc_text(whole((86_400 * day_number(d) + 3600 * h + 60 * m + s) as nat)) == date_digits(d) + " "@
            + clock_digits(h, m, s) + " UTC"@,
{
    let clock = 3600 * h + 60 * m + s;
    lemma_utc_text(d, clock);
    lemma_date_text(d);
    lemma_clock_text(h, m, s);
}

/// A span of under a minute is told in seconds, of under an hour in minutes and
/// seconds, and any longer one in hours and minutes.
pub proof fn law_spans_of_time(sec: Binary64, h: nat, m: nat, s: nat)
    requires
        m < 60,
        s < 60,
        floor(sec) == 3600 * h + 60 * m + s,
        floor(sec) <= u64::MAX,
    ensures
        h == 0 && m == 0 ==> dur_text(sec) == decimal(s) + "s"@,
        h == 0 && m > 0 ==> dur_text(sec) == decimal(m) + "m "@ + decimal(s) + "s"@,
        h > 0 ==> dur_text(sec) == decimal(h) + "h "@ + decimal(m) + "m"@,
{
    let t = 3600 * h + 60 * m + s;
    assert(t / 3600 == h && (t % 3600) / 60 == m && t % 60 == s);
    if h == 0 {
        assert(t / 60 == m);
    }
}

/// No day from 1970 on is before the start of the count.
pub proof fn lemma_days_since_1970(d: Date)
    requires
        is_date(d),
        d.year >= 1970,
    ensures
        day_number(d) >= 0,
{
    lemma_within_year(d);
    lemma_year_start_increases(1970, d.year as int);
}

} // verus!
