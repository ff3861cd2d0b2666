//! A proleptic-Gregorian calendar model: dates as plain year/month/day
//! values, a day-ordinal model for date arithmetic, weekday computation and
//! ISO-8601 timestamp formatting with millisecond precision.
use vstd::prelude::*;
use crate::text::is_digit;

verus! {

/// A calendar date in the proleptic Gregorian calendar.
#[derive(Clone, Copy, PartialEq, Eq, Structural, Debug)]
pub struct Date {
    pub year: u32,
    pub month: u32,
    pub day: u32,
}

/// A calendar date with a time of day, millisecond precision.
#[derive(Clone, Copy, PartialEq, Eq, Structural, Debug)]
pub struct Timestamp {
    pub date: Date,
    pub hour: u32,
    pub minute: u32,
    pub second: u32,
    pub milli: u32,
}

pub open spec fn is_leap_year(y: int) -> bool {
    y % 4 == 0 && (y % 100 != 0 || y % 400 == 0)
}

pub open spec fn days_in_month(y: int, m: int) -> int {
    if m == 2 {
        if is_leap_year(y) {
            29
        } else {
            28
        }
    } else if m == 4 || m == 6 || m == 9 || m == 11 {
        30
    } else {
        31
    }
}

/// Days of year `y` that precede the first day of month `m`.
pub open spec fn days_before_month(y: int, m: int) -> int
    decreases m,
{
    if m <= 1 {
        0
    } else {
        days_before_month(y, m - 1) + days_in_month(y, m - 1)
    }
}

/// Number of leap years in `1..=n`.
pub open spec fn leap_count(n: int) -> int {
    n / 4 - n / 100 + n / 400
}

/// The calendar dates this crate works with: years 1 through 9999.
pub open spec fn date_valid(d: Date) -> bool {
    &&& 1 <= d.year <= 9999
    &&& 1 <= d.month <= 12
    &&& 1 <= d.day <= days_in_month(d.year as int, d.month as int)
}

pub open spec fn ts_valid(t: Timestamp) -> bool {
    &&& date_valid(t.date)
    &&& t.hour < 24
    &&& t.minute < 60
    &&& t.second < 60
    &&& t.milli < 1000
}

/// Day number of a date: 0001-01-01 is day zero, which falls on a Monday in
/// the proleptic Gregorian calendar.
pub open spec fn date_ordinal(d: Date) -> int {
    (d.year as int - 1) * 365 + leap_count(d.year as int - 1) + days_before_month(
        d.year as int,
        d.month as int,
    ) + (d.day as int - 1)
}

/// Days since Monday: 0 for Monday through 6 for Sunday.
pub open spec fn weekday_from_monday(d: Date) -> int {
    date_ordinal(d) % 7
}

/// The greatest day number this model speaks about (9999-12-31).
pub open spec fn max_date_ordinal() -> int {
    date_ordinal(Date { year: 9999, month: 12, day: 31 })
}

/// The cumulative month offsets, spelled out.
pub proof fn lemma_days_before_month_values(y: int)
    ensures
        days_before_month(y, 1) == 0,
        days_before_month(y, 2) == 31,
        days_before_month(y, 3) == 59 + if is_leap_year(y) { 1int } else { 0 },
        days_before_month(y, 4) == 90 + if is_leap_year(y) { 1int } else { 0 },
        days_before_month(y, 5) == 120 + if is_leap_year(y) { 1int } else { 0 },
        days_before_month(y, 6) == 151 + if is_leap_year(y) { 1int } else { 0 },
        days_before_month(y, 7) == 181 + if is_leap_year(y) { 1int } else { 0 },
        days_before_month(y, 8) == 212 + if is_leap_year(y) { 1int } else { 0 },
        days_before_month(y, 9) == 243 + if is_leap_year(y) { 1int } else { 0 },
        days_before_month(y, 10) == 273 + if is_leap_year(y) { 1int } else { 0 },
        days_before_month(y, 11) == 304 + if is_leap_year(y) { 1int } else { 0 },
        days_before_month(y, 12) == 334 + if is_leap_year(y) { 1int } else { 0 },
{
    assert(days_before_month(y, 1) == 0);
    assert(days_before_month(y, 2) == days_before_month(y, 1) + 31);
    assert(days_before_month(y, 3) == days_before_month(y, 2) + days_in_month(y, 2));
    assert(days_before_month(y, 4) == days_before_month(y, 3) + 31);
    assert(days_before_month(y, 5) == days_before_month(y, 4) + 30);
    assert(days_before_month(y, 6) == days_before_month(y, 5) + 31);
    assert(days_before_month(y, 7) == days_before_month(y, 6) + 30);
    assert(days_before_month(y, 8) == days_before_month(y, 7) + 31);
    assert(days_before_month(y, 9) == days_before_month(y, 8) + 31);
    assert(days_before_month(y, 10) == days_before_month(y, 9) + 30);
    assert(days_before_month(y, 11) == days_before_month(y, 10) + 31);
    assert(days_before_month(y, 12) == days_before_month(y, 11) + 30);
}

/// Crossing from year `y - 1` into year `y` adds one day for leap years.
pub proof fn lemma_leap_count_delta(y: int)
    requires
        y >= 1,
    ensures
        leap_count(y) == leap_count(y - 1) + if is_leap_year(y) { 1int } else { 0 },
{
    lemma_div_step(y, 4);
    lemma_div_step(y, 100);
    lemma_div_step(y, 400);
    if y % 400 == 0 {
        vstd::arithmetic::div_mod::lemma_fundamental_div_mod(y, 400);
        assert(y == 400 * (y / 400));
        assert(y == 100 * (4 * (y / 400)));
        vstd::arithmetic::div_mod::lemma_fundamental_div_mod_converse(y, 100, 4 * (y / 400), 0);
        assert(y % 100 == 0);
    }
    if y % 100 == 0 {
        vstd::arithmetic::div_mod::lemma_fundamental_div_mod(y, 100);
        assert(y == 100 * (y / 100));
        assert(y == 4 * (25 * (y / 100)));
        vstd::arithmetic::div_mod::lemma_fundamental_div_mod_converse(y, 4, 25 * (y / 100), 0);
        assert(y % 4 == 0);
    }
}

/// How a quotient by a positive constant changes when the dividend grows by
/// one.
proof fn lemma_div_step(n: int, k: int)
    requires
        n >= 1,
        k >= 1,
    ensures
        n / k == (n - 1) / k + if n % k == 0 { 1int } else { 0 },
{
    vstd::arithmetic::div_mod::lemma_fundamental_div_mod(n, k);
    let q = n / k;
    let r = n % k;
    vstd::arithmetic::div_mod::lemma_mod_pos_bound(n, k);
    if r == 0 {
        assert(n - 1 == (q - 1) * k + (k - 1)) by (nonlinear_arith)
            requires
                n == k * q + r,
                r == 0,
        ;
        vstd::arithmetic::div_mod::lemma_fundamental_div_mod_converse(n - 1, k, q - 1, k - 1);
    } else {
        assert(n - 1 == q * k + (r - 1)) by (nonlinear_arith)
            requires
                n == k * q + r,
        ;
        vstd::arithmetic::div_mod::lemma_fundamental_div_mod_converse(n - 1, k, q, r - 1);
    }
}

pub proof fn lemma_leap_count_mono(n: int, m: int)
    requires
        0 <= n <= m,
    ensures
        leap_count(n) <= leap_count(m),
    decreases m - n,
{
    if n < m {
        lemma_leap_count_mono(n, m - 1);
        lemma_leap_count_delta(m);
    }
}

pub fn leap_year(y: u32) -> (r: bool)
    ensures
        r == is_leap_year(y as int),
{
    y % 4 == 0 && (y % 100 != 0 || y % 400 == 0)
}

pub fn month_days(y: u32, m: u32) -> (r: u32)
    requires
        1 <= m <= 12,
    ensures
        r == days_in_month(y as int, m as int),
{
    if m == 2 {
        if leap_year(y) {
            29
        } else {
            28
        }
    } else if m == 4 || m == 6 || m == 9 || m == 11 {
        30
    } else {
        31
    }
}

fn days_before_month_exec(y: u32, m: u32) -> (r: u32)
    requires
        1 <= m <= 12,
    ensures
        r == days_before_month(y as int, m as int),
{
    proof {
        lemma_days_before_month_values(y as int);
    }
    let base: u32 = match m {
        1 => 0,
        2 => 31,
        3 => 59,
        4 => 90,
        5 => 120,
        6 => 151,
        7 => 181,
        8 => 212,
        9 => 243,
        10 => 273,
        11 => 304,
        _ => 334,
    };
    if m >= 3 && leap_year(y) {
        base + 1
    } else {
        base
    }
}

/// The day number of a date, computed in closed form.
pub fn date_ordinal_exec(d: &Date) -> (r: u32)
    requires
        date_valid(*d),
    ensures
        r == date_ordinal(*d),
{
    let yy: u32 = d.year - 1;
    proof {
        vstd::arithmetic::div_mod::lemma_div_is_ordered_by_denominator(yy as int, 4, 100);
        vstd::arithmetic::div_mod::lemma_div_is_ordered(yy as int, 9998, 4);
        vstd::arithmetic::div_mod::lemma_div_is_ordered(yy as int, 9998, 400);
        assert(9998int / 4 == 2499);
        assert(9998int / 400 == 24);
        lemma_days_before_month_values(d.year as int);
    }
    let lc: u32 = yy / 4 - yy / 100 + yy / 400;
    yy * 365 + lc + days_before_month_exec(d.year, d.month) + (d.day - 1)
}

/// Days since Monday, 0 through 6.
pub fn weekday_from_monday_exec(d: &Date) -> (r: u32)
    requires
        date_valid(*d),
    ensures
        r == weekday_from_monday(*d),
        r < 7,
{
    date_ordinal_exec(d) % 7
}

/// The next calendar day.
pub open spec fn succ_date(d: Date) -> Date {
    if d.day < days_in_month(d.year as int, d.month as int) {
        Date { year: d.year, month: d.month, day: (d.day + 1) as u32 }
    } else if d.month < 12 {
        Date { year: d.year, month: (d.month + 1) as u32, day: 1 }
    } else {
        Date { year: (d.year + 1) as u32, month: 1, day: 1 }
    }
}

/// The previous calendar day.
pub open spec fn pred_date(d: Date) -> Date {
    if d.day > 1 {
        Date { year: d.year, month: d.month, day: (d.day - 1) as u32 }
    } else if d.month > 1 {
        Date {
            year: d.year,
            month: (d.month - 1) as u32,
            day: days_in_month(d.year as int, d.month as int - 1) as u32,
        }
    } else {
        Date { year: (d.year - 1) as u32, month: 12, day: 31 }
    }
}

pub proof fn lemma_succ_date(d: Date)
    requires
        date_valid(d),
        !(d.year == 9999 && d.month == 12 && d.day == 31),
    ensures
        date_valid(succ_date(d)),
        date_ordinal(succ_date(d)) == date_ordinal(d) + 1,
{
    lemma_days_before_month_values(d.year as int);
    if d.day < days_in_month(d.year as int, d.month as int) {
    } else if d.month < 12 {
        assert(days_before_month(d.year as int, d.month as int + 1) == days_before_month(
            d.year as int,
            d.month as int,
        ) + days_in_month(d.year as int, d.month as int));
    } else {
        lemma_days_before_month_values(d.year as int + 1);
        lemma_leap_count_delta(d.year as int);
    }
}

pub proof fn lemma_pred_date(d: Date)
    requires
        date_valid(d),
        !(d.year == 1 && d.month == 1 && d.day == 1),
    ensures
        date_valid(pred_date(d)),
        date_ordinal(pred_date(d)) == date_ordinal(d) - 1,
{
    lemma_days_before_month_values(d.year as int);
    if d.day > 1 {
    } else if d.month > 1 {
        assert(days_before_month(d.year as int, d.month as int) == days_before_month(
            d.year as int,
            d.month as int - 1,
        ) + days_in_month(d.year as int, d.month as int - 1));
    } else {
        lemma_days_before_month_values(d.year as int - 1);
        lemma_leap_count_delta(d.year as int - 1);
    }
}

/// `n` calendar days after `d`.
pub open spec fn date_plus(d: Date, n: nat) -> Date
    decreases n,
{
    if n == 0 {
        d
    } else {
        succ_date(date_plus(d, (n - 1) as nat))
    }
}

/// `n` calendar days before `d`.
pub open spec fn date_minus(d: Date, n: nat) -> Date
    decreases n,
{
    if n == 0 {
        d
    } else {
        pred_date(date_minus(d, (n - 1) as nat))
    }
}

pub fn next_day(d: &Date) -> (r: Date)
    requires
        date_valid(*d),
        !(d.year == 9999 && d.month == 12 && d.day == 31),
    ensures
        r == succ_date(*d),
        date_valid(r),
        date_ordinal(r) == date_ordinal(*d) + 1,
{
    proof {
        lemma_succ_date(*d);
    }
    if d.day < month_days(d.year, d.month) {
        Date { year: d.year, month: d.month, day: d.day + 1 }
    } else if d.month < 12 {
        Date { year: d.year, month: d.month + 1, day: 1 }
    } else {
        Date { year: d.year + 1, month: 1, day: 1 }
    }
}

pub fn prev_day(d: &Date) -> (r: Date)
    requires
        date_valid(*d),
        !(d.year == 1 && d.month == 1 && d.day == 1),
    ensures
        r == pred_date(*d),
        date_valid(r),
        date_ordinal(r) == date_ordinal(*d) - 1,
{
    proof {
        lemma_pred_date(*d);
    }
    if d.day > 1 {
        Date { year: d.year, month: d.month, day: d.day - 1 }
    } else if d.month > 1 {
        Date { year: d.year, month: d.month - 1, day: month_days(d.year, d.month - 1) }
    } else {
        Date { year: d.year - 1, month: 12, day: 31 }
    }
}

/// `n` days after `d`, one calendar step at a time.
pub fn add_days(d: &Date, n: u32) -> (r: Date)
    requires
        date_valid(*d),
        date_ordinal(*d) + n <= max_date_ordinal(),
    ensures
        r == date_plus(*d, n as nat),
        date_valid(r),
        date_ordinal(r) == date_ordinal(*d) + n,
{
    proof {
        lemma_days_before_month_values(9999);
    }
    let mut cur: Date = *d;
    let mut i: u32 = 0;
    while i < n
        invariant
            i <= n,
            date_valid(cur),
            cur == date_plus(*d, i as nat),
            date_ordinal(cur) == date_ordinal(*d) + i,
            date_ordinal(*d) + n <= max_date_ordinal(),
        decreases n - i,
    {
        proof {
            lemma_days_before_month_values(9999);
            if cur.year == 9999 && cur.month == 12 && cur.day == 31 {
                assert(date_ordinal(cur) == max_date_ordinal());
            }
        }
        cur = next_day(&cur);
        i = i + 1;
    }
    cur
}

/// `n` days before `d`, one calendar step at a time.
pub fn sub_days(d: &Date, n: u32) -> (r: Date)
    requires
        date_valid(*d),
        date_ordinal(*d) - n >= 0,
    ensures
        r == date_minus(*d, n as nat),
        date_valid(r),
        date_ordinal(r) == date_ordinal(*d) - n,
{
    let mut cur: Date = *d;
    let mut i: u32 = 0;
    while i < n
        invariant
            i <= n,
            date_valid(cur),
            cur == date_minus(*d, i as nat),
            date_ordinal(cur) == date_ordinal(*d) - i,
            date_ordinal(*d) - n >= 0,
        decreases n - i,
    {
        proof {
            if cur.year == 1 && cur.month == 1 && cur.day == 1 {
                lemma_days_before_month_values(1);
                assert(date_ordinal(cur) == 0);
            }
        }
        cur = prev_day(&cur);
        i = i + 1;
    }
    cur
}

/// Iterated calendar steps advance the day number one day at a time.
pub proof fn lemma_date_plus_ordinal(d: Date, n: nat)
    requires
        date_valid(d),
        date_ordinal(d) + n <= max_date_ordinal(),
    ensures
        date_valid(date_plus(d, n)),
        date_ordinal(date_plus(d, n)) == date_ordinal(d) + n,
    decreases n,
{
    lemma_days_before_month_values(9999);
    if n > 0 {
        lemma_date_plus_ordinal(d, (n - 1) as nat);
        let prev = date_plus(d, (n - 1) as nat);
        if prev.year == 9999 && prev.month == 12 && prev.day == 31 {
            assert(date_ordinal(prev) == max_date_ordinal());
        }
        lemma_succ_date(prev);
    }
}

/// A date of year at most 9998 has a whole year of room on both sides of the
/// model's range.
pub proof fn lemma_ordinal_room(d: Date)
    requires
        date_valid(d),
        2 <= d.year <= 9998,
    ensures
        date_ordinal(d) + 365 <= max_date_ordinal(),
        date_ordinal(d) >= 365,
        date_ordinal(Date { year: d.year, month: 1, day: 1 }) <= date_ordinal(d),
{
    lemma_days_before_month_values(d.year as int);
    lemma_days_before_month_values(9999);
    lemma_leap_count_mono(d.year as int - 1, 9997);
    assert(days_before_month(d.year as int, d.month as int) + (d.day as int - 1) <= 364
        + if is_leap_year(d.year as int) {
        1int
    } else {
        0
    });
    assert(leap_count(0) == 0);
    lemma_leap_count_mono(0, d.year as int - 1);
}

/// The same timestamp at the very start of its day.
pub open spec fn midnight(t: Timestamp) -> Timestamp {
    Timestamp { date: t.date, hour: 0, minute: 0, second: 0, milli: 0 }
}

/// The character for a decimal digit value.
pub open spec fn digit_char(d: int) -> char {
    if d == 0 {
        '0'
    } else if d == 1 {
        '1'
    } else if d == 2 {
        '2'
    } else if d == 3 {
        '3'
    } else if d == 4 {
        '4'
    } else if d == 5 {
        '5'
    } else if d == 6 {
        '6'
    } else if d == 7 {
        '7'
    } else if d == 8 {
        '8'
    } else {
        '9'
    }
}

pub fn digit_char_exec(d: u32) -> (r: char)
    requires
        d <= 9,
    ensures
        r == digit_char(d as int),
{
    match d {
        0 => '0',
        1 => '1',
        2 => '2',
        3 => '3',
        4 => '4',
        5 => '5',
        6 => '6',
        7 => '7',
        8 => '8',
        _ => '9',
    }
}

/// The ISO-8601 rendering `YYYY-MM-DDTHH:MM:SS.mmm` of a timestamp.
pub open spec fn format_ts_spec(t: Timestamp) -> Seq<char> {
    seq![
        digit_char(t.date.year as int / 1000),
        digit_char(t.date.year as int / 100 % 10),
        digit_char(t.date.year as int / 10 % 10),
        digit_char(t.date.year as int % 10),
        '-',
        digit_char(t.date.month as int / 10),
        digit_char(t.date.month as int % 10),
        '-',
        digit_char(t.date.day as int / 10),
        digit_char(t.date.day as int % 10),
        'T',
        digit_char(t.hour as int / 10),
        digit_char(t.hour as int % 10),
        ':',
        digit_char(t.minute as int / 10),
        digit_char(t.minute as int % 10),
        ':',
        digit_char(t.second as int / 10),
        digit_char(t.second as int % 10),
        '.',
        digit_char(t.milli as int / 100),
        digit_char(t.milli as int / 10 % 10),
        digit_char(t.milli as int % 10),
    ]
}

/// Renders a timestamp as `YYYY-MM-DDTHH:MM:SS.mmm`.
#[verifier::rlimit(100)]
pub fn format_ts(t: &Timestamp) -> (r: Vec<char>)
    requires
        ts_valid(*t),
    ensures
        r@ == format_ts_spec(*t),
{
    let mut out: Vec<char> = Vec::new();
    out.push(digit_char_exec(t.date.year / 1000));
    out.push(digit_char_exec(t.date.year / 100 % 10));
    out.push(digit_char_exec(t.date.year / 10 % 10));
    out.push(digit_char_exec(t.date.year % 10));
    out.push('-');
    out.push(digit_char_exec(t.date.month / 10));
    out.push(digit_char_exec(t.date.month % 10));
    out.push('-');
    proof {
        assert(out@ =~= format_ts_spec(*t).take(8));
    }
    out.push(digit_char_exec(t.date.day / 10));
    out.push(digit_char_exec(t.date.day % 10));
    out.push('T');
    out.push(digit_char_exec(t.hour / 10));
    out.push(digit_char_exec(t.hour % 10));
    out.push(':');
    out.push(digit_char_exec(t.minute / 10));
    out.push(digit_char_exec(t.minute % 10));
    proof {
        assert(out@ =~= format_ts_spec(*t).take(16));
    }
    out.push(':');
    out.push(digit_char_exec(t.second / 10));
    out.push(digit_char_exec(t.second % 10));
    out.push('.');
    out.push(digit_char_exec(t.milli / 100));
    out.push(digit_char_exec(t.milli / 10 % 10));
    out.push(digit_char_exec(t.milli % 10));
    proof {
        assert(out@ =~= format_ts_spec(*t));
    }
    out
}

/// A character of the timestamp alphabet: a digit or `-`, `T`, `:`, `.`.
pub open spec fn is_ts_char(c: char) -> bool {
    is_digit(c) || c == '-' || c == 'T' || c == ':' || c == '.'
}

/// Every character a timestamp renders to lies in the timestamp alphabet.
pub proof fn lemma_format_ts_charset(t: Timestamp)
    ensures
        forall|i: int|
            0 <= i < format_ts_spec(t).len() ==> is_ts_char(#[trigger] format_ts_spec(t)[i]),
{
    assert forall|i: int| 0 <= i < format_ts_spec(t).len() implies is_ts_char(
        #[trigger] format_ts_spec(t)[i],
    ) by {
        assert(forall|d: int| is_digit(#[trigger] digit_char(d)));
    }
}

} // verus!
