//! Natural-language date recognition: rewrites occurrences of
//! `<Month> <Day>[ <Year>][ @ <Hour>:<Minute>]` (month names case-insensitive,
//! full or three-letter) into ISO-8601 timestamps.  The scan walks the input
//! left to right; a candidate must start at a word boundary, greedily takes
//! the year and time parts when present, and must end at a word boundary.
//! Matches that do not name a month or do not resolve to a valid calendar
//! date or time are left untouched.
use vstd::prelude::*;
use crate::dates::{days_in_month, format_ts_spec, Date, Timestamp};
use crate::text::{digit_val, is_digit, is_letter, is_word_char, seq_to_nat};

verus! {

/// ASCII lowercasing of one character.
pub open spec fn lower_char(c: char) -> char {
    match c {
        'A' => 'a',
        'B' => 'b',
        'C' => 'c',
        'D' => 'd',
        'E' => 'e',
        'F' => 'f',
        'G' => 'g',
        'H' => 'h',
        'I' => 'i',
        'J' => 'j',
        'K' => 'k',
        'L' => 'l',
        'M' => 'm',
        'N' => 'n',
        'O' => 'o',
        'P' => 'p',
        'Q' => 'q',
        'R' => 'r',
        'S' => 's',
        'T' => 't',
        'U' => 'u',
        'V' => 'v',
        'W' => 'w',
        'X' => 'x',
        'Y' => 'y',
        'Z' => 'z',
        _ => c,
    }
}

/// ASCII lowercasing of a word.
pub open spec fn seq_lower(w: Seq<char>) -> Seq<char> {
    Seq::new(w.len(), |i: int| lower_char(w[i]))
}

/// The month named by a word, case-insensitively: either the full English
/// name or its three-letter abbreviation.
pub open spec fn month_num(w: Seq<char>) -> Option<int> {
    let l = seq_lower(w);
    if l == "jan"@ || l == "january"@ {
        Some(1int)
    } else if l == "feb"@ || l == "february"@ {
        Some(2int)
    } else if l == "mar"@ || l == "march"@ {
        Some(3int)
    } else if l == "apr"@ || l == "april"@ {
        Some(4int)
    } else if l == "may"@ {
        Some(5int)
    } else if l == "jun"@ || l == "june"@ {
        Some(6int)
    } else if l == "jul"@ || l == "july"@ {
        Some(7int)
    } else if l == "aug"@ || l == "august"@ {
        Some(8int)
    } else if l == "sep"@ || l == "september"@ {
        Some(9int)
    } else if l == "oct"@ || l == "october"@ {
        Some(10int)
    } else if l == "nov"@ || l == "november"@ {
        Some(11int)
    } else if l == "dec"@ || l == "december"@ {
        Some(12int)
    } else {
        None
    }
}

/// End of the run of ASCII letters that starts at `i`.
pub open spec fn letter_run_end(s: Seq<char>, i: int) -> int
    decreases s.len() - i,
{
    if i < 0 || i >= s.len() || !is_letter(s[i]) {
        i
    } else {
        letter_run_end(s, i + 1)
    }
}

/// A word boundary at position `e`: the end of the input or a character
/// that no word continues through.
pub open spec fn boundary_ok(s: Seq<char>, e: int) -> bool {
    e >= s.len() || !is_word_char(s[e])
}

/// The year part ` YYYY` at position `p`: its end and its value.
pub open spec fn year_part(s: Seq<char>, p: int) -> Option<(int, int)> {
    if p + 5 <= s.len() && s[p] == ' ' && is_digit(s[p + 1]) && is_digit(s[p + 2]) && is_digit(
        s[p + 3],
    ) && is_digit(s[p + 4]) {
        Some((p + 5, seq_to_nat(s.subrange(p + 1, p + 5)) as int))
    } else {
        None
    }
}

/// The time part ` @ H:MM` or ` @ HH:MM` at position `q`: its end, the hour
/// and the minute.  A two-digit hour is preferred when it parses through.
pub open spec fn time_part(s: Seq<char>, q: int) -> Option<(int, int, int)> {
    if !(q + 3 <= s.len() && s[q] == ' ' && s[q + 1] == '@' && s[q + 2] == ' ') {
        None
    } else if q + 8 <= s.len() && is_digit(s[q + 3]) && is_digit(s[q + 4]) && s[q + 5] == ':'
        && is_digit(s[q + 6]) && is_digit(s[q + 7]) {
        Some(
            (
                q + 8,
                (digit_val(s[q + 3]) * 10 + digit_val(s[q + 4])) as int,
                (digit_val(s[q + 6]) * 10 + digit_val(s[q + 7])) as int,
            ),
        )
    } else if q + 7 <= s.len() && is_digit(s[q + 3]) && s[q + 4] == ':' && is_digit(s[q + 5])
        && is_digit(s[q + 6]) {
        Some(
            (
                q + 7,
                digit_val(s[q + 3]) as int,
                (digit_val(s[q + 5]) * 10 + digit_val(s[q + 6])) as int,
            ),
        )
    } else {
        None
    }
}

/// Closes a structural match: checks the named month and the calendar
/// validity of the assembled date and time.  A structural match around an
/// invalid date is consumed but not replaced.
pub open spec fn make_match(
    s: Seq<char>,
    i: int,
    le: int,
    d_end: int,
    end: int,
    year: int,
    hour: int,
    minute: int,
) -> Option<(int, Option<Timestamp>)> {
    let day = seq_to_nat(s.subrange(le + 1, d_end)) as int;
    match month_num(s.subrange(i, le)) {
        Some(m) => {
            if 1 <= year <= 9999 && 1 <= day <= days_in_month(year, m) && 0 <= hour < 24 && 0
                <= minute < 60 {
                Some(
                    (
                        end,
                        Some(
                            Timestamp {
                                date: Date { year: year as u32, month: m as u32, day: day as u32 },
                                hour: hour as u32,
                                minute: minute as u32,
                                second: 0,
                                milli: 0,
                            },
                        ),
                    ),
                )
            } else {
                Some((end, None))
            }
        },
        None => Some((end, None)),
    }
}

/// One attempt with a fixed extent of day digits: the year and time parts
/// are taken greedily, each alternative standing only if a word boundary
/// follows it.
pub open spec fn try_day(s: Seq<char>, cy: int, i: int, le: int, d_end: int) -> Option<
    (int, Option<Timestamp>),
> {
    let yp = year_part(s, d_end);
    if yp is Some && time_part(s, (yp->0).0) is Some && boundary_ok(s, (time_part(s, (yp->0).0)->0).0) {
        make_match(
            s,
            i,
            le,
            d_end,
            (time_part(s, (yp->0).0)->0).0,
            (yp->0).1,
            (time_part(s, (yp->0).0)->0).1,
            (time_part(s, (yp->0).0)->0).2,
        )
    } else if yp is Some && boundary_ok(s, (yp->0).0) {
        make_match(s, i, le, d_end, (yp->0).0, (yp->0).1, 0, 0)
    } else if time_part(s, d_end) is Some && boundary_ok(s, (time_part(s, d_end)->0).0) {
        make_match(
            s,
            i,
            le,
            d_end,
            (time_part(s, d_end)->0).0,
            cy,
            (time_part(s, d_end)->0).1,
            (time_part(s, d_end)->0).2,
        )
    } else if boundary_ok(s, d_end) {
        make_match(s, i, le, d_end, d_end, cy, 0, 0)
    } else {
        None
    }
}

/// A match attempt at position `i` (which the caller has checked to start a
/// letter run at a word boundary): `None`, or the end of the matched span
/// together with the timestamp to substitute, if the span resolves to one.
pub open spec fn match_at(s: Seq<char>, cy: int, i: int) -> Option<(int, Option<Timestamp>)> {
    let le = letter_run_end(s, i);
    if !(le < s.len() && s[le] == ' ' && le + 1 < s.len() && is_digit(s[le + 1])) {
        None
    } else {
        let d_end2 = if le + 2 < s.len() && is_digit(s[le + 2]) {
            le + 3
        } else {
            le + 2
        };
        if try_day(s, cy, i, le, d_end2) is Some {
            try_day(s, cy, i, le, d_end2)
        } else if d_end2 == le + 3 {
            try_day(s, cy, i, le, le + 2)
        } else {
            None
        }
    }
}

/// The scan from position `i` on: tries a match at every letter that sits
/// at a word boundary, copies everything else through.
pub open spec fn scan_from(s: Seq<char>, cy: int, i: int) -> Seq<char>
    decreases s.len() - i,
{
    if i < 0 || i >= s.len() {
        Seq::<char>::empty()
    } else if is_letter(s[i]) && (i == 0 || !is_word_char(s[i - 1])) && match_at(s, cy, i)
        is Some {
        let end = (match_at(s, cy, i)->0).0;
        if end <= i || end > s.len() {
            seq![s[i]] + scan_from(s, cy, i + 1)
        } else {
            (match (match_at(s, cy, i)->0).1 {
                Some(t) => format_ts_spec(t),
                None => s.subrange(i, end),
            }) + scan_from(s, cy, end)
        }
    } else {
        seq![s[i]] + scan_from(s, cy, i + 1)
    }
}

/// The whole scan: every recognized date phrase replaced by its timestamp.
pub open spec fn scan_dates_spec(s: Seq<char>, cy: int) -> Seq<char> {
    scan_from(s, cy, 0)
}

pub fn to_lower_char(c: char) -> (r: char)
    ensures
        r == lower_char(c),
{
    match c {
        'A' => 'a',
        'B' => 'b',
        'C' => 'c',
        'D' => 'd',
        'E' => 'e',
        'F' => 'f',
        'G' => 'g',
        'H' => 'h',
        'I' => 'i',
        'J' => 'j',
        'K' => 'k',
        'L' => 'l',
        'M' => 'm',
        'N' => 'n',
        'O' => 'o',
        'P' => 'p',
        'Q' => 'q',
        'R' => 'r',
        'S' => 's',
        'T' => 't',
        'U' => 'u',
        'V' => 'v',
        'W' => 'w',
        'X' => 'x',
        'Y' => 'y',
        'Z' => 'z',
        _ => c,
    }
}

fn lower_chars(w: &Vec<char>) -> (r: Vec<char>)
    ensures
        r@ == seq_lower(w@),
{
    let mut out: Vec<char> = Vec::new();
    let mut i: usize = 0;
    let n: usize = w.len();
    while i < n
        invariant
            i <= n,
            n == w@.len(),
            out@ == seq_lower(w@).subrange(0, i as int),
        decreases n - i,
    {
        out.push(to_lower_char(w[i]));
        i = i + 1;
        proof {
            assert(out@ =~= seq_lower(w@).subrange(0, i as int));
        }
    }
    proof {
        assert(out@ =~= seq_lower(w@));
    }
    out
}

fn chars_eq(a: &Vec<char>, b: &Vec<char>) -> (r: bool)
    ensures
        r == (a@ == b@),
{
    let n: usize = a.len();
    if n != b.len() {
        return false;
    }
    let mut i: usize = 0;
    while i < n
        invariant
            i <= n,
            n == a@.len(),
            n == b@.len(),
            forall|j: int| 0 <= j < i ==> a@[j] == b@[j],
        decreases n - i,
    {
        if a[i] != b[i] {
            return false;
        }
        i = i + 1;
    }
    proof {
        assert(a@ =~= b@);
    }
    true
}

fn chars_eq_lit(w: &Vec<char>, lit: &str) -> (r: bool)
    ensures
        r == (w@ == lit@),
{
    let lv = crate::text::str_to_chars(lit);
    chars_eq(w, &lv)
}

/// The month a word names, if any.
pub fn month_from_name(w: &Vec<char>) -> (r: Option<u32>)
    ensures
        (r is Some) == (month_num(w@) is Some),
        r is Some ==> r->0 as int == month_num(w@)->0,
        r is Some ==> 1 <= r->0 <= 12,
{
    let l = lower_chars(w);
    if chars_eq_lit(&l, "jan") || chars_eq_lit(&l, "january") {
        Some(1)
    } else if chars_eq_lit(&l, "feb") || chars_eq_lit(&l, "february") {
        Some(2)
    } else if chars_eq_lit(&l, "mar") || chars_eq_lit(&l, "march") {
        Some(3)
    } else if chars_eq_lit(&l, "apr") || chars_eq_lit(&l, "april") {
        Some(4)
    } else if chars_eq_lit(&l, "may") {
        Some(5)
    } else if chars_eq_lit(&l, "jun") || chars_eq_lit(&l, "june") {
        Some(6)
    } else if chars_eq_lit(&l, "jul") || chars_eq_lit(&l, "july") {
        Some(7)
    } else if chars_eq_lit(&l, "aug") || chars_eq_lit(&l, "august") {
        Some(8)
    } else if chars_eq_lit(&l, "sep") || chars_eq_lit(&l, "september") {
        Some(9)
    } else if chars_eq_lit(&l, "oct") || chars_eq_lit(&l, "october") {
        Some(10)
    } else if chars_eq_lit(&l, "nov") || chars_eq_lit(&l, "november") {
        Some(11)
    } else if chars_eq_lit(&l, "dec") || chars_eq_lit(&l, "december") {
        Some(12)
    } else {
        None
    }
}

fn letter_run_end_exec(s: &Vec<char>, n: usize, i: usize) -> (r: usize)
    requires
        n == s@.len(),
        i <= n,
    ensures
        r == letter_run_end(s@, i as int),
        i <= r <= n,
    decreases n - i,
{
    if i < n && crate::text::is_letter_char(s[i]) {
        letter_run_end_exec(s, n, i + 1)
    } else {
        i
    }
}

proof fn lemma_seq_to_nat_one(s: Seq<char>)
    requires
        s.len() == 1,
    ensures
        seq_to_nat(s) == digit_val(s[0]),
{
    assert(s.drop_last().len() == 0);
    assert(seq_to_nat(s.drop_last()) == 0);
    assert(s.last() == s[0]);
}

proof fn lemma_seq_to_nat_two(s: Seq<char>)
    requires
        s.len() == 2,
    ensures
        seq_to_nat(s) == digit_val(s[0]) * 10 + digit_val(s[1]),
{
    lemma_seq_to_nat_one(s.drop_last());
}

proof fn lemma_seq_to_nat_four(s: Seq<char>)
    requires
        s.len() == 4,
    ensures
        seq_to_nat(s) == ((digit_val(s[0]) * 10 + digit_val(s[1])) * 10 + digit_val(s[2])) * 10
            + digit_val(s[3]),
{
    lemma_seq_to_nat_two(s.drop_last().drop_last());
    assert(seq_to_nat(s.drop_last()) == seq_to_nat(s.drop_last().drop_last()) * 10 + digit_val(
        s.drop_last().last(),
    ));
}

fn year_part_exec(s: &Vec<char>, n: usize, p: usize) -> (r: Option<(usize, u32)>)
    requires
        n == s@.len(),
        p <= n,
    ensures
        (r is Some) == (year_part(s@, p as int) is Some),
        r is Some ==> (r->0).0 as int == (year_part(s@, p as int)->0).0,
        r is Some ==> (r->0).1 as int == (year_part(s@, p as int)->0).1,
        r is Some ==> p < (r->0).0 <= n,
        r is Some ==> (r->0).1 <= 9999,
{
    if n - p >= 5 && s[p] == ' ' && crate::text::is_digit_char(s[p + 1])
        && crate::text::is_digit_char(s[p + 2]) && crate::text::is_digit_char(s[p + 3])
        && crate::text::is_digit_char(s[p + 4]) {
        let v: u32 = ((crate::text::digit_char_val(s[p + 1]) * 10 + crate::text::digit_char_val(
            s[p + 2],
        )) * 10 + crate::text::digit_char_val(s[p + 3])) * 10 + crate::text::digit_char_val(
            s[p + 4],
        );
        proof {
            let sub = s@.subrange(p + 1, p + 5);
            lemma_seq_to_nat_four(sub);
            assert(sub[0] == s@[p + 1]);
            assert(sub[1] == s@[p + 2]);
            assert(sub[2] == s@[p + 3]);
            assert(sub[3] == s@[p + 4]);
        }
        Some((p + 5, v))
    } else {
        None
    }
}

fn time_part_exec(s: &Vec<char>, n: usize, q: usize) -> (r: Option<(usize, u32, u32)>)
    requires
        n == s@.len(),
        q <= n,
    ensures
        (r is Some) == (time_part(s@, q as int) is Some),
        r is Some ==> (r->0).0 as int == (time_part(s@, q as int)->0).0,
        r is Some ==> (r->0).1 as int == (time_part(s@, q as int)->0).1,
        r is Some ==> (r->0).2 as int == (time_part(s@, q as int)->0).2,
        r is Some ==> q < (r->0).0 <= n,
        r is Some ==> (r->0).1 <= 99 && (r->0).2 <= 99,
{
    if !(n - q >= 3 && s[q] == ' ' && s[q + 1] == '@' && s[q + 2] == ' ') {
        return None;
    }
    if n - q >= 8 && crate::text::is_digit_char(s[q + 3]) && crate::text::is_digit_char(s[q + 4])
        && s[q + 5] == ':' && crate::text::is_digit_char(s[q + 6]) && crate::text::is_digit_char(
        s[q + 7],
    ) {
        let h: u32 = crate::text::digit_char_val(s[q + 3]) * 10 + crate::text::digit_char_val(
            s[q + 4],
        );
        let m: u32 = crate::text::digit_char_val(s[q + 6]) * 10 + crate::text::digit_char_val(
            s[q + 7],
        );
        Some((q + 8, h, m))
    } else if n - q >= 7 && crate::text::is_digit_char(s[q + 3]) && s[q + 4] == ':'
        && crate::text::is_digit_char(s[q + 5]) && crate::text::is_digit_char(s[q + 6]) {
        let h: u32 = crate::text::digit_char_val(s[q + 3]);
        let m: u32 = crate::text::digit_char_val(s[q + 5]) * 10 + crate::text::digit_char_val(
            s[q + 6],
        );
        Some((q + 7, h, m))
    } else {
        None
    }
}

fn boundary_ok_exec(s: &Vec<char>, n: usize, e: usize) -> (r: bool)
    requires
        n == s@.len(),
        e <= n,
    ensures
        r == boundary_ok(s@, e as int),
{
    e >= n || !crate::text::is_word_char_char(s[e])
}

fn finish_exec(
    s: &Vec<char>,
    n: usize,
    i: usize,
    le: usize,
    d_end: usize,
    end: usize,
    year: u32,
    hour: u32,
    minute: u32,
) -> (r: (usize, Option<Timestamp>))
    requires
        n == s@.len(),
        i < le,
        le + 1 < d_end <= n,
        d_end <= le + 3,
        is_digit(s@[le + 1]),
        d_end == le + 3 ==> is_digit(s@[le + 2]),
        end <= n,
        hour <= 99,
        minute <= 99,
        year <= 9999,
    ensures
        make_match(s@, i as int, le as int, d_end as int, end as int, year as int, hour as int,
            minute as int,
        ) == Some((r.0 as int, r.1)),
        r.0 == end,
        r.1 is Some ==> crate::dates::ts_valid(r.1->0),
{
    let mut word: Vec<char> = Vec::new();
    let mut k: usize = i;
    while k < le
        invariant
            i <= k <= le <= s@.len(),
            word@ == s@.subrange(i as int, k as int),
        decreases le - k,
    {
        word.push(s[k]);
        k = k + 1;
        proof {
            assert(word@ =~= s@.subrange(i as int, k as int));
        }
    }
    let day: u32 = if d_end == le + 2 {
        proof {
            let sub = s@.subrange(le + 1, d_end as int);
            lemma_seq_to_nat_one(sub);
            assert(sub[0] == s@[le + 1]);
        }
        crate::text::digit_char_val(s[le + 1])
    } else {
        proof {
            let sub = s@.subrange(le + 1, d_end as int);
            lemma_seq_to_nat_two(sub);
            assert(sub[0] == s@[le + 1]);
            assert(sub[1] == s@[le + 2]);
        }
        crate::text::digit_char_val(s[le + 1]) * 10 + crate::text::digit_char_val(s[le + 2])
    };
    match month_from_name(&word) {
        Some(m) => {
            if 1 <= year && year <= 9999 && 1 <= day && day <= crate::dates::month_days(year, m)
                && hour < 24 && minute < 60 {
                let t = Timestamp {
                    date: Date { year, month: m, day },
                    hour,
                    minute,
                    second: 0,
                    milli: 0,
                };
                (end, Some(t))
            } else {
                (end, None)
            }
        },
        None => (end, None),
    }
}

fn try_day_exec(s: &Vec<char>, n: usize, cy: u32, i: usize, le: usize, d_end: usize) -> (r: Option<
    (usize, Option<Timestamp>),
>)
    requires
        n == s@.len(),
        i < le,
        le + 1 < d_end <= n,
        d_end <= le + 3,
        is_digit(s@[le + 1]),
        d_end == le + 3 ==> is_digit(s@[le + 2]),
        1 <= cy <= 9999,
    ensures
        (r is Some) == (try_day(s@, cy as int, i as int, le as int, d_end as int) is Some),
        r is Some ==> (r->0).0 as int == (try_day(
            s@,
            cy as int,
            i as int,
            le as int,
            d_end as int,
        )->0).0,
        r is Some ==> (r->0).1 == (try_day(s@, cy as int, i as int, le as int, d_end as int)->0).1,
        r is Some ==> i < (r->0).0 <= n,
        r is Some && (r->0).1 is Some ==> crate::dates::ts_valid(((r->0).1)->0),
{
    let yp = year_part_exec(s, n, d_end);
    match yp {
        Some((ye, yv)) => {
            match time_part_exec(s, n, ye) {
                Some((te, h, m)) => {
                    if boundary_ok_exec(s, n, te) {
                        return Some(finish_exec(s, n, i, le, d_end, te, yv, h, m));
                    }
                },
                None => {},
            }
            if boundary_ok_exec(s, n, ye) {
                return Some(finish_exec(s, n, i, le, d_end, ye, yv, 0, 0));
            }
        },
        None => {},
    }
    match time_part_exec(s, n, d_end) {
        Some((te, h, m)) => {
            if boundary_ok_exec(s, n, te) {
                return Some(finish_exec(s, n, i, le, d_end, te, cy, h, m));
            }
        },
        None => {},
    }
    if boundary_ok_exec(s, n, d_end) {
        return Some(finish_exec(s, n, i, le, d_end, d_end, cy, 0, 0));
    }
    None
}

fn try_match(s: &Vec<char>, n: usize, cy: u32, i: usize) -> (r: Option<(usize, Option<Timestamp>)>)
    requires
        n == s@.len(),
        i < n,
        is_letter(s@[i as int]),
        1 <= cy <= 9999,
    ensures
        (r is Some) == (match_at(s@, cy as int, i as int) is Some),
        r is Some ==> (r->0).0 as int == (match_at(s@, cy as int, i as int)->0).0,
        r is Some ==> (r->0).1 == (match_at(s@, cy as int, i as int)->0).1,
        r is Some ==> i < (r->0).0 <= n,
        r is Some && (r->0).1 is Some ==> crate::dates::ts_valid(((r->0).1)->0),
{
    let le = letter_run_end_exec(s, n, i);
    proof {
        assert(letter_run_end(s@, i as int) == letter_run_end(s@, i + 1));
    }
    if !(le < n && s[le] == ' ' && n - le >= 2 && crate::text::is_digit_char(s[le + 1])) {
        return None;
    }
    let d_end2: usize = if n - le >= 3 && crate::text::is_digit_char(s[le + 2]) {
        le + 3
    } else {
        le + 2
    };
    let first = try_day_exec(s, n, cy, i, le, d_end2);
    if first.is_some() {
        first
    } else if d_end2 == le + 3 {
        try_day_exec(s, n, cy, i, le, le + 2)
    } else {
        None
    }
}

/// Scans `s`, replacing every recognized date phrase by its ISO-8601
/// timestamp; `cy` is the year assumed when a phrase names none.
pub fn scan_dates(s: &Vec<char>, cy: u32) -> (r: Vec<char>)
    requires
        1 <= cy <= 9999,
    ensures
        r@ == scan_dates_spec(s@, cy as int),
{
    let n: usize = s.len();
    let mut out: Vec<char> = Vec::new();
    let mut i: usize = 0;
    proof {
        assert(out@ + scan_from(s@, cy as int, 0) =~= scan_from(s@, cy as int, 0));
    }
    while i < n
        invariant
            i <= n,
            n == s@.len(),
            1 <= cy <= 9999,
            scan_dates_spec(s@, cy as int) == out@ + scan_from(s@, cy as int, i as int),
        decreases n - i,
    {
        let at_boundary: bool = i == 0 || !crate::text::is_word_char_char(s[i - 1]);
        let mut matched: bool = false;
        if at_boundary && crate::text::is_letter_char(s[i]) {
            match try_match(s, n, cy, i) {
                Some((end, repl)) => {
                    matched = true;
                    let ghost prev_out = out@;
                    match repl {
                        Some(t) => {
                            let ts = crate::dates::format_ts(&t);
                            crate::text::push_all(&mut out, &ts);
                        },
                        None => {
                            let mut k: usize = i;
                            while k < end
                                invariant
                                    i <= k <= end <= s@.len(),
                                    out@ == prev_out + s@.subrange(i as int, k as int),
                                decreases end - k,
                            {
                                out.push(s[k]);
                                k = k + 1;
                                proof {
                                    assert(out@ =~= prev_out + s@.subrange(i as int, k as int));
                                }
                            }
                        },
                    }
                    proof {
                        let m = match_at(s@, cy as int, i as int);
                        assert(scan_from(s@, cy as int, i as int) == (match (m->0).1 {
                            Some(t) => format_ts_spec(t),
                            None => s@.subrange(i as int, (m->0).0),
                        }) + scan_from(s@, cy as int, (m->0).0));
                        assert(out@ + scan_from(s@, cy as int, end as int) =~= prev_out
                            + scan_from(s@, cy as int, i as int));
                    }
                    i = end;
                },
                None => {},
            }
        }
        if !matched {
            let ghost prev_out = out@;
            out.push(s[i]);
            proof {
                assert(scan_from(s@, cy as int, i as int) == seq![s@[i as int]] + scan_from(
                    s@,
                    cy as int,
                    i + 1,
                ));
                assert(out@ + scan_from(s@, cy as int, i + 1) =~= prev_out + scan_from(
                    s@,
                    cy as int,
                    i as int,
                ));
            }
            i = i + 1;
        }
    }
    proof {
        assert(out@ + scan_from(s@, cy as int, n as int) =~= out@);
    }
    out
}

proof fn lemma_letter_run_props(s: Seq<char>, i: int)
    requires
        0 <= i <= s.len(),
    ensures
        i <= letter_run_end(s, i) <= s.len(),
        forall|k: int| i <= k < letter_run_end(s, i) ==> is_letter(s[k]),
    decreases s.len() - i,
{
    if i < s.len() && is_letter(s[i]) {
        lemma_letter_run_props(s, i + 1);
    }
}

/// A word of `T`s (the only letter of the timestamp alphabet) names no
/// month.
proof fn lemma_all_t_names_no_month(w: Seq<char>)
    requires
        w.len() >= 1,
        forall|k: int| 0 <= k < w.len() ==> w[k] == 'T',
    ensures
        month_num(w) is None,
{
    let l = seq_lower(w);
    assert(l[0] == 't');
    reveal_strlit("jan");
    reveal_strlit("january");
    reveal_strlit("feb");
    reveal_strlit("february");
    reveal_strlit("mar");
    reveal_strlit("march");
    reveal_strlit("apr");
    reveal_strlit("april");
    reveal_strlit("may");
    reveal_strlit("jun");
    reveal_strlit("june");
    reveal_strlit("jul");
    reveal_strlit("july");
    reveal_strlit("aug");
    reveal_strlit("august");
    reveal_strlit("sep");
    reveal_strlit("september");
    reveal_strlit("oct");
    reveal_strlit("october");
    reveal_strlit("nov");
    reveal_strlit("november");
    reveal_strlit("dec");
    reveal_strlit("december");
}

/// The date scan is the identity on strings drawn from the timestamp
/// alphabet: no date phrase can start inside one.
pub proof fn lemma_scan_fixes_ts(s: Seq<char>, cy: int)
    requires
        forall|i: int| 0 <= i < s.len() ==> crate::dates::is_ts_char(#[trigger] s[i]),
    ensures
        scan_dates_spec(s, cy) == s,
{
    lemma_scan_from_fixes(s, cy, 0);
    assert(s.skip(0) =~= s);
}

proof fn lemma_scan_from_fixes(s: Seq<char>, cy: int, i: int)
    requires
        0 <= i <= s.len(),
        forall|k: int| 0 <= k < s.len() ==> crate::dates::is_ts_char(#[trigger] s[k]),
    ensures
        scan_from(s, cy, i) == s.skip(i),
    decreases s.len() - i,
{
    if i >= s.len() {
        assert(s.skip(i) =~= Seq::<char>::empty());
    } else if is_letter(s[i]) && (i == 0 || !is_word_char(s[i - 1])) && match_at(s, cy, i)
        is Some {
        let m = match_at(s, cy, i);
        let end = (m->0).0;
        let le = letter_run_end(s, i);
        lemma_letter_run_props(s, i);
        assert(forall|k: int| i <= k < le ==> s[k] == 'T') by {
            assert forall|k: int| i <= k < le implies s[k] == 'T' by {
                assert(is_letter(s[k]));
                assert(crate::dates::is_ts_char(s[k]));
            }
        }
        let w = s.subrange(i, le);
        assert(le > i);
        assert(forall|k: int| 0 <= k < w.len() ==> w[k] == 'T');
        lemma_all_t_names_no_month(w);
        assert((m->0).1 is None);
        if end <= i || end > s.len() {
            lemma_scan_from_fixes(s, cy, i + 1);
            assert(seq![s[i]] + s.skip(i + 1) =~= s.skip(i));
        } else {
            lemma_scan_from_fixes(s, cy, end);
            assert(s.subrange(i, end) + s.skip(end) =~= s.skip(i));
        }
    } else {
        lemma_scan_from_fixes(s, cy, i + 1);
        assert(seq![s[i]] + s.skip(i + 1) =~= s.skip(i));
    }
}

/// Rewrites every natural-language date in `input` into an ISO-8601
/// timestamp; `current_year` is assumed for phrases that name no year.
pub fn replace_human_readable_dates(input: &str, current_year: u32) -> (r: String)
    requires
        1 <= current_year <= 9999,
    ensures
        r@ == scan_dates_spec(input@, current_year as int),
{
    let chars = crate::text::str_to_chars(input);
    let out = scan_dates(&chars, current_year);
    crate::text::chars_to_string(&out)
}

} // verus!
