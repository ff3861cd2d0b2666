//! The relative-date keyword table ("today", "next week", ...) and its
//! application: longest-first substring substitution over a command line.
use vstd::prelude::*;
use crate::dates::{
    add_days, date_minus, date_ordinal, date_plus, date_valid, format_ts, format_ts_spec,
    is_ts_char, lemma_ordinal_room, sub_days, ts_valid, weekday_from_monday,
    weekday_from_monday_exec, Date, Timestamp,
};
use crate::text::{
    chars_to_string, lemma_replace_all_absent, replace_all, replace_all_spec, str_to_chars,
};

verus! {

/// The keyword-substitution table: phrases paired with their absolute
/// timestamps, held in the order they are applied (longest phrases first).
pub struct KeywordMap {
    pub entries: Vec<(String, String)>,
}

impl View for KeywordMap {
    type V = Seq<(Seq<char>, Seq<char>)>;

    open spec fn view(&self) -> Seq<(Seq<char>, Seq<char>)> {
        self.entries.deep_view()
    }
}

pub open spec fn kw_now() -> Seq<char> {
    seq!['n', 'o', 'w']
}

pub open spec fn kw_today() -> Seq<char> {
    seq!['t', 'o', 'd', 'a', 'y']
}

pub open spec fn kw_yesterday() -> Seq<char> {
    seq!['y', 'e', 's', 't', 'e', 'r', 'd', 'a', 'y']
}

pub open spec fn kw_tomorrow() -> Seq<char> {
    seq!['t', 'o', 'm', 'o', 'r', 'r', 'o', 'w']
}

pub open spec fn kw_this_week() -> Seq<char> {
    seq!['t', 'h', 'i', 's', ' ', 'w', 'e', 'e', 'k']
}

pub open spec fn kw_next_week() -> Seq<char> {
    seq!['n', 'e', 'x', 't', ' ', 'w', 'e', 'e', 'k']
}

pub open spec fn kw_last_week() -> Seq<char> {
    seq!['l', 'a', 's', 't', ' ', 'w', 'e', 'e', 'k']
}

pub open spec fn kw_this_month() -> Seq<char> {
    seq!['t', 'h', 'i', 's', ' ', 'm', 'o', 'n', 't', 'h']
}

pub open spec fn kw_next_month() -> Seq<char> {
    seq!['n', 'e', 'x', 't', ' ', 'm', 'o', 'n', 't', 'h']
}

pub open spec fn kw_last_month() -> Seq<char> {
    seq!['l', 'a', 's', 't', ' ', 'm', 'o', 'n', 't', 'h']
}

pub open spec fn kw_this_year() -> Seq<char> {
    seq!['t', 'h', 'i', 's', ' ', 'y', 'e', 'a', 'r']
}

pub open spec fn kw_next_year() -> Seq<char> {
    seq!['n', 'e', 'x', 't', ' ', 'y', 'e', 'a', 'r']
}

pub open spec fn kw_last_year() -> Seq<char> {
    seq!['l', 'a', 's', 't', ' ', 'y', 'e', 'a', 'r']
}

/// The rendering of a date at midnight.
pub open spec fn fmt_midnight(d: Date) -> Seq<char> {
    format_ts_spec(Timestamp { date: d, hour: 0, minute: 0, second: 0, milli: 0 })
}

/// The keyword table computed from the reference instant `now`: each
/// relative-date phrase mapped to an absolute timestamp, longest phrases
/// first so that no phrase is clobbered by a shorter overlapping one.
pub open spec fn keyword_entries_spec(now: Timestamp) -> Seq<(Seq<char>, Seq<char>)> {
    let today = now.date;
    let sow = date_minus(today, weekday_from_monday(today) as nat);
    let som = Date { year: today.year, month: today.month, day: 1 };
    let soy = Date { year: today.year, month: 1, day: 1 };
    seq![
        (kw_this_month(), fmt_midnight(som)),
        (kw_next_month(), fmt_midnight(date_plus(som, 31))),
        (kw_last_month(), fmt_midnight(date_minus(som, 1))),
        (kw_yesterday(), fmt_midnight(date_minus(today, 1))),
        (kw_this_week(), fmt_midnight(sow)),
        (kw_next_week(), fmt_midnight(date_plus(sow, 7))),
        (kw_last_week(), fmt_midnight(date_minus(sow, 7))),
        (kw_this_year(), fmt_midnight(soy)),
        (kw_next_year(), fmt_midnight(date_plus(soy, 365))),
        (kw_last_year(), fmt_midnight(date_minus(soy, 1))),
        (kw_tomorrow(), fmt_midnight(date_plus(today, 1))),
        (kw_today(), fmt_midnight(today)),
        (kw_now(), format_ts_spec(now)),
    ]
}

/// Builds the keyword table from the reference instant.  The instant is an
/// explicit parameter, so the table is a pure function of it.
#[verifier::rlimit(100)]
pub fn get_keyword_map(now: &Timestamp) -> (m: KeywordMap)
    requires
        ts_valid(*now),
        2 <= now.date.year <= 9998,
    ensures
        m@ == keyword_entries_spec(*now),
{
    let today: Date = now.date;
    proof {
        lemma_ordinal_room(today);
    }
    let wd: u32 = weekday_from_monday_exec(&today);
    let sow: Date = sub_days(&today, wd);
    let som: Date = Date { year: today.year, month: today.month, day: 1 };
    let soy: Date = Date { year: today.year, month: 1, day: 1 };
    proof {
        assert(date_ordinal(som) <= date_ordinal(today));
        lemma_ordinal_room(som);
        lemma_ordinal_room(soy);
        assert(date_ordinal(sow) <= date_ordinal(today));
    }
    let mut entries: Vec<(String, String)> = Vec::new();
    entries.push((String::from_str("this month"), ts_string(&som)));
    entries.push((String::from_str("next month"), ts_string(&add_days(&som, 31))));
    entries.push((String::from_str("last month"), ts_string(&sub_days(&som, 1))));
    entries.push((String::from_str("yesterday"), ts_string(&sub_days(&today, 1))));
    entries.push((String::from_str("this week"), ts_string(&sow)));
    entries.push((String::from_str("next week"), ts_string(&add_days(&sow, 7))));
    entries.push((String::from_str("last week"), ts_string(&sub_days(&sow, 7))));
    entries.push((String::from_str("this year"), ts_string(&soy)));
    entries.push((String::from_str("next year"), ts_string(&add_days(&soy, 365))));
    entries.push((String::from_str("last year"), ts_string(&sub_days(&soy, 1))));
    entries.push((String::from_str("tomorrow"), ts_string(&add_days(&today, 1))));
    entries.push((String::from_str("today"), ts_string(&today)));
    let now_chars = format_ts(now);
    entries.push((String::from_str("now"), chars_to_string(&now_chars)));
    let m = KeywordMap { entries };
    proof {
        reveal_strlit("this month");
        reveal_strlit("next month");
        reveal_strlit("last month");
        reveal_strlit("yesterday");
        reveal_strlit("this week");
        reveal_strlit("next week");
        reveal_strlit("last week");
        reveal_strlit("this year");
        reveal_strlit("next year");
        reveal_strlit("last year");
        reveal_strlit("tomorrow");
        reveal_strlit("today");
        reveal_strlit("now");
        assert("this month"@ =~= kw_this_month());
        assert("next month"@ =~= kw_next_month());
        assert("last month"@ =~= kw_last_month());
        assert("yesterday"@ =~= kw_yesterday());
        assert("this week"@ =~= kw_this_week());
        assert("next week"@ =~= kw_next_week());
        assert("last week"@ =~= kw_last_week());
        assert("this year"@ =~= kw_this_year());
        assert("next year"@ =~= kw_next_year());
        assert("last year"@ =~= kw_last_year());
        assert("tomorrow"@ =~= kw_tomorrow());
        assert("today"@ =~= kw_today());
        assert("now"@ =~= kw_now());
        assert(m@ =~~= keyword_entries_spec(*now));
    }
    m
}

/// Renders a date at midnight as an owned string.
fn ts_string(d: &Date) -> (r: String)
    requires
        date_valid(*d),
    ensures
        r@ == fmt_midnight(*d),
{
    let t = Timestamp { date: *d, hour: 0, minute: 0, second: 0, milli: 0 };
    let chars = format_ts(&t);
    chars_to_string(&chars)
}

/// The result of substituting the table's entries into `s`, in table order.
pub open spec fn apply_entries_spec(s: Seq<char>, entries: Seq<(Seq<char>, Seq<char>)>) -> Seq<
    char,
>
    decreases entries.len(),
{
    if entries.len() == 0 {
        s
    } else {
        apply_entries_spec(replace_all_spec(s, entries[0].0, entries[0].1), entries.drop_first())
    }
}

/// Replaces every keyword of the table that occurs (as a substring) in
/// `arg`, applying the table's entries in order.
pub fn replace_keywords(arg: &str, keyword_map: &KeywordMap) -> (r: String)
    ensures
        r@ == apply_entries_spec(arg@, keyword_map@),
{
    let mut cur: Vec<char> = str_to_chars(arg);
    let n: usize = keyword_map.entries.len();
    let mut i: usize = 0;
    proof {
        assert(keyword_map@.skip(0) =~= keyword_map@);
    }
    while i < n
        invariant
            i <= n,
            n == keyword_map@.len(),
            keyword_map@.len() == keyword_map.entries@.len(),
            apply_entries_spec(arg@, keyword_map@) == apply_entries_spec(
                cur@,
                keyword_map@.skip(i as int),
            ),
        decreases n - i,
    {
        let from = str_to_chars(keyword_map.entries[i].0.as_str());
        let to = str_to_chars(keyword_map.entries[i].1.as_str());
        let next = replace_all(&cur, &from, &to);
        proof {
            let tail = keyword_map@.skip(i as int);
            assert(tail[0] == keyword_map@[i as int]);
            assert(keyword_map@[i as int].0 == keyword_map.entries@[i as int].deep_view().0);
            assert(tail.drop_first() =~= keyword_map@.skip(i + 1));
        }
        cur = next;
        i = i + 1;
    }
    proof {
        assert(keyword_map@.skip(n as int) =~= Seq::<(Seq<char>, Seq<char>)>::empty());
    }
    chars_to_string(&cur)
}

/// One full expansion pass over a joined command line: keyword substitution
/// first, then natural-language date recognition.
pub open spec fn expand_spec(s: Seq<char>, now: Timestamp) -> Seq<char> {
    crate::natdate::scan_dates_spec(
        apply_entries_spec(s, keyword_entries_spec(now)),
        now.date.year as int,
    )
}

/// Expansion of an argument list: the tokens joined by single spaces, then
/// expanded as one string (so phrases may span what were separate tokens).
pub open spec fn expand_args_spec(args: Seq<Seq<char>>, now: Timestamp) -> Seq<char> {
    expand_spec(crate::text::join_spec(args, " "@), now)
}

/// Joins the arguments with spaces and expands every relative-date keyword
/// and natural-language date against the reference instant `now`.
pub fn replace_keywords_in_args(args: &[String], now: &Timestamp) -> (r: String)
    requires
        ts_valid(*now),
        2 <= now.date.year <= 9998,
    ensures
        r@ == expand_args_spec(args.deep_view(), *now),
{
    let joined = crate::text::join_strings(args, " ");
    let keyword_map = get_keyword_map(now);
    let replaced = replace_keywords(joined.as_str(), &keyword_map);
    crate::natdate::replace_human_readable_dates(replaced.as_str(), now.date.year)
}

/// A phrase with at least one character outside the timestamp alphabet.
pub open spec fn has_non_ts_char(key: Seq<char>) -> bool {
    exists|j: int| 0 <= j < key.len() && !is_ts_char(key[j])
}

/// Substitution does nothing to a string drawn wholly from the timestamp
/// alphabet, provided every table key strays outside that alphabet.
pub proof fn lemma_apply_entries_fixes_ts(s: Seq<char>, entries: Seq<(Seq<char>, Seq<char>)>)
    requires
        forall|i: int| 0 <= i < s.len() ==> is_ts_char(#[trigger] s[i]),
        forall|k: int| 0 <= k < entries.len() ==> has_non_ts_char(#[trigger] entries[k].0),
    ensures
        apply_entries_spec(s, entries) == s,
    decreases entries.len(),
{
    if entries.len() > 0 {
        let key = entries[0].0;
        let j = choose|j: int| 0 <= j < key.len() && !is_ts_char(key[j]);
        crate::text::lemma_no_occurrence_outside_charset(
            s,
            key,
            |c: char| is_ts_char(c),
            j,
        );
        lemma_replace_all_absent(s, key, entries[0].1);
        assert(forall|k: int|
            0 <= k < entries.drop_first().len() ==> has_non_ts_char(
                #[trigger] entries.drop_first()[k].0,
            ));
        lemma_apply_entries_fixes_ts(s, entries.drop_first());
    }
}

/// Every key of the keyword table contains a character outside the
/// timestamp alphabet (its first letter).
pub proof fn lemma_keyword_keys_not_ts(now: Timestamp)
    ensures
        forall|k: int|
            0 <= k < keyword_entries_spec(now).len() ==> has_non_ts_char(
                #[trigger] keyword_entries_spec(now)[k].0,
            ),
{
    assert(!is_ts_char('t'));
    assert(!is_ts_char('n'));
    assert(!is_ts_char('l'));
    assert(!is_ts_char('y'));
    assert(has_non_ts_char(kw_this_month())) by {
        assert(!is_ts_char(kw_this_month()[0]));
    }
    assert(has_non_ts_char(kw_next_month())) by {
        assert(!is_ts_char(kw_next_month()[0]));
    }
    assert(has_non_ts_char(kw_last_month())) by {
        assert(!is_ts_char(kw_last_month()[0]));
    }
    assert(has_non_ts_char(kw_yesterday())) by {
        assert(!is_ts_char(kw_yesterday()[0]));
    }
    assert(has_non_ts_char(kw_this_week())) by {
        assert(!is_ts_char(kw_this_week()[0]));
    }
    assert(has_non_ts_char(kw_next_week())) by {
        assert(!is_ts_char(kw_next_week()[0]));
    }
    assert(has_non_ts_char(kw_last_week())) by {
        assert(!is_ts_char(kw_last_week()[0]));
    }
    assert(has_non_ts_char(kw_this_year())) by {
        assert(!is_ts_char(kw_this_year()[0]));
    }
    assert(has_non_ts_char(kw_next_year())) by {
        assert(!is_ts_char(kw_next_year()[0]));
    }
    assert(has_non_ts_char(kw_last_year())) by {
        assert(!is_ts_char(kw_last_year()[0]));
    }
    assert(has_non_ts_char(kw_tomorrow())) by {
        assert(!is_ts_char(kw_tomorrow()[0]));
    }
    assert(has_non_ts_char(kw_today())) by {
        assert(!is_ts_char(kw_today()[0]));
    }
    assert(has_non_ts_char(kw_now())) by {
        assert(!is_ts_char(kw_now()[0]));
    }
}

/// Expansion is idempotent on an already-expanded string: on any string
/// drawn wholly from the timestamp alphabet — an ISO-8601 timestamp in
/// particular — a further expansion pass changes nothing, since no keyword
/// and no date phrase fits inside that alphabet.
pub proof fn lemma_expansion_fixes_timestamp_strings(s: Seq<char>, now: Timestamp)
    requires
        forall|i: int| 0 <= i < s.len() ==> is_ts_char(#[trigger] s[i]),
    ensures
        expand_spec(s, now) == s,
{
    lemma_keyword_keys_not_ts(now);
    lemma_apply_entries_fixes_ts(s, keyword_entries_spec(now));
    crate::natdate::lemma_scan_fixes_ts(s, now.date.year as int);
}

/// From a Monday reference the week starts that very day, so the
/// "next week" entry names the following Monday's midnight.
pub proof fn lemma_next_week_from_monday(now: Timestamp)
    requires
        ts_valid(now),
        2 <= now.date.year <= 9998,
        weekday_from_monday(now.date) == 0,
    ensures
        keyword_entries_spec(now)[5] == (kw_next_week(), fmt_midnight(date_plus(now.date, 7))),
        date_ordinal(date_plus(now.date, 7)) == date_ordinal(now.date) + 7,
        weekday_from_monday(date_plus(now.date, 7)) == 0,
{
    lemma_ordinal_room(now.date);
    crate::dates::lemma_date_plus_ordinal(now.date, 7);
    assert(date_minus(now.date, 0) == now.date);
}

/// The rendering of any timestamp is untouched by a further expansion pass.
pub proof fn lemma_expansion_fixes_rendered_timestamp(t: Timestamp, now: Timestamp)
    ensures
        expand_spec(format_ts_spec(t), now) == format_ts_spec(t),
{
    crate::dates::lemma_format_ts_charset(t);
    lemma_expansion_fixes_timestamp_strings(format_ts_spec(t), now);
}

} // verus!
