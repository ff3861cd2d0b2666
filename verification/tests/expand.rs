use payquery::dates::{Date, Timestamp};
use payquery::keywords::{get_keyword_map, replace_keywords, replace_keywords_in_args};
use payquery::natdate::replace_human_readable_dates;
use payquery::query::{compile_query, EnvironmentConfig};

fn toks(words: &[&str]) -> Vec<String> {
    words.iter().map(|w| w.to_string()).collect()
}

fn env() -> EnvironmentConfig {
    EnvironmentConfig {
        api_token: "tok".to_string(),
        org_id: "77".to_string(),
        entrypoint: "pizzabli".to_string(),
        environment: "sandbox".to_string(),
    }
}

fn at_midnight(year: u32, month: u32, day: u32) -> Timestamp {
    Timestamp { date: Date { year, month, day }, hour: 0, minute: 0, second: 0, milli: 0 }
}

#[test]
fn keyword_values_for_a_fixed_saturday() {
    // 2024-06-15 was a Saturday; its week starts Monday 2024-06-10.
    let now = at_midnight(2024, 6, 15);
    let map = get_keyword_map(&now);
    let get = |key: &str| -> String {
        map.entries
            .iter()
            .find(|e| e.0 == key)
            .map(|e| e.1.clone())
            .unwrap()
    };
    assert_eq!(get("now"), "2024-06-15T00:00:00.000");
    assert_eq!(get("today"), "2024-06-15T00:00:00.000");
    assert_eq!(get("yesterday"), "2024-06-14T00:00:00.000");
    assert_eq!(get("tomorrow"), "2024-06-16T00:00:00.000");
    assert_eq!(get("this week"), "2024-06-10T00:00:00.000");
    assert_eq!(get("next week"), "2024-06-17T00:00:00.000");
    assert_eq!(get("last week"), "2024-06-03T00:00:00.000");
    assert_eq!(get("this month"), "2024-06-01T00:00:00.000");
    // a month forward is taken as 31 days exactly
    assert_eq!(get("next month"), "2024-07-02T00:00:00.000");
    assert_eq!(get("last month"), "2024-05-31T00:00:00.000");
    assert_eq!(get("this year"), "2024-01-01T00:00:00.000");
    // a year forward is taken as 365 days exactly; 2024 is a leap year
    assert_eq!(get("next year"), "2024-12-31T00:00:00.000");
    assert_eq!(get("last year"), "2023-12-31T00:00:00.000");
}

#[test]
fn now_keeps_the_time_of_day() {
    let now = Timestamp {
        date: Date { year: 2024, month: 6, day: 15 },
        hour: 13,
        minute: 7,
        second: 9,
        milli: 42,
    };
    let map = get_keyword_map(&now);
    let expanded = replace_keywords("now", &map);
    assert_eq!(expanded, "2024-06-15T13:07:09.042");
}

#[test]
fn yesterday_expands_on_the_fixed_reference() {
    let now = at_midnight(2024, 6, 15);
    let args = toks(&["yesterday"]);
    assert_eq!(replace_keywords_in_args(&args, &now), "2024-06-14T00:00:00.000");
}

#[test]
fn next_week_from_a_monday_is_the_following_monday() {
    // 2024-06-10 was a Monday.
    let now = at_midnight(2024, 6, 10);
    let args = toks(&["next", "week"]);
    assert_eq!(replace_keywords_in_args(&args, &now), "2024-06-17T00:00:00.000");
}

#[test]
fn keyword_expansion_crosses_token_boundaries() {
    let now = at_midnight(2024, 6, 15);
    let args = toks(&["x", "last", "month", "y"]);
    assert_eq!(replace_keywords_in_args(&args, &now), "x 2024-05-31T00:00:00.000 y");
}

#[test]
fn expansion_is_idempotent_on_expanded_text() {
    let now = at_midnight(2024, 6, 15);
    let once = replace_keywords_in_args(&toks(&["yesterday"]), &now);
    let twice = replace_keywords_in_args(&[once.clone()], &now);
    assert_eq!(twice, once);
    let ts = "2031-12-31T23:59:59.999".to_string();
    assert_eq!(replace_keywords_in_args(&[ts.clone()], &now), ts);
}

#[test]
fn month_rollover_at_year_edges() {
    let now = at_midnight(2024, 1, 1);
    let map = get_keyword_map(&now);
    let get = |key: &str| -> String {
        map.entries
            .iter()
            .find(|e| e.0 == key)
            .map(|e| e.1.clone())
            .unwrap()
    };
    assert_eq!(get("yesterday"), "2023-12-31T00:00:00.000");
    assert_eq!(get("last month"), "2023-12-31T00:00:00.000");
    assert_eq!(get("next month"), "2024-02-01T00:00:00.000");
    assert_eq!(get("last year"), "2023-12-31T00:00:00.000");
}

#[test]
fn leap_february_is_respected() {
    let now = at_midnight(2024, 3, 1);
    let map = get_keyword_map(&now);
    let yesterday = map.entries.iter().find(|e| e.0 == "yesterday").unwrap().1.clone();
    assert_eq!(yesterday, "2024-02-29T00:00:00.000");
    let now = at_midnight(2023, 3, 1);
    let map = get_keyword_map(&now);
    let yesterday = map.entries.iter().find(|e| e.0 == "yesterday").unwrap().1.clone();
    assert_eq!(yesterday, "2023-02-28T00:00:00.000");
}

#[test]
fn century_years_follow_the_gregorian_leap_rule() {
    let map = get_keyword_map(&at_midnight(1900, 3, 1));
    let yesterday = map.entries.iter().find(|e| e.0 == "yesterday").unwrap().1.clone();
    assert_eq!(yesterday, "1900-02-28T00:00:00.000");
    let map = get_keyword_map(&at_midnight(2000, 3, 1));
    let yesterday = map.entries.iter().find(|e| e.0 == "yesterday").unwrap().1.clone();
    assert_eq!(yesterday, "2000-02-29T00:00:00.000");
}

#[test]
fn natural_date_with_year_and_time() {
    assert_eq!(
        replace_human_readable_dates("meet on March 5 2024 @ 14:30 ok", 2031),
        "meet on 2024-03-05T14:30:00.000 ok"
    );
}

#[test]
fn natural_date_defaults_year_and_time() {
    assert_eq!(replace_human_readable_dates("March 5", 2024), "2024-03-05T00:00:00.000");
    assert_eq!(replace_human_readable_dates("jun 1", 2023), "2023-06-01T00:00:00.000");
    assert_eq!(replace_human_readable_dates("DECEMBER 31", 2020), "2020-12-31T00:00:00.000");
}

#[test]
fn invalid_dates_are_left_untouched() {
    assert_eq!(replace_human_readable_dates("February 30", 2024), "February 30");
    assert_eq!(replace_human_readable_dates("March 0", 2024), "March 0");
    assert_eq!(replace_human_readable_dates("Marsh 5", 2024), "Marsh 5");
    assert_eq!(replace_human_readable_dates("March 5 @ 99:00", 2024), "March 5 @ 99:00");
    assert_eq!(replace_human_readable_dates("xMarch 5", 2024), "xMarch 5");
    assert_eq!(replace_human_readable_dates("March 123", 2024), "March 123");
}

#[test]
fn several_dates_in_one_line() {
    assert_eq!(
        replace_human_readable_dates("May 1 and May 2", 2022),
        "2022-05-01T00:00:00.000 and 2022-05-02T00:00:00.000"
    );
}

#[test]
fn compile_full_command_line() {
    let now = at_midnight(2024, 6, 15);
    let args = toks(&["only", "5", "for", "Acme", "where", "a", "eq", "b", "by", "c", "desc"]);
    let q = compile_query(&args, &now, &env()).unwrap();
    assert!(q.route.is_empty());
    assert_eq!(q.filters, vec![("a(eq)".to_string(), "b".to_string())]);
    assert_eq!(q.sort, Some(("c".to_string(), "desc".to_string())));
    assert_eq!(q.limit, Some(5));
    assert_eq!(q.target, "Acme");
    assert!(!q.crop);
}

#[test]
fn compile_expands_keywords_inside_filters() {
    let now = at_midnight(2024, 6, 15);
    let args = toks(&["transactions", "where", "date", "gt", "yesterday"]);
    let q = compile_query(&args, &now, &env()).unwrap();
    assert_eq!(q.route, toks(&["transactions", "pizzabli"]));
    assert_eq!(
        q.filters,
        vec![("date(gt)".to_string(), "2024-06-14T00:00:00.000".to_string())]
    );
}

#[test]
fn crop_without_sort_resolves_to_false() {
    let now = at_midnight(2024, 6, 15);
    let args = toks(&["customers", "crop"]);
    let q = compile_query(&args, &now, &env()).unwrap();
    assert!(!q.crop);
    assert_eq!(q.route, toks(&["customers", "pizzabli"]));
}

#[test]
fn crop_with_sort_resolves_to_true() {
    let now = at_midnight(2024, 6, 15);
    let args = toks(&["customers", "by", "Lastname", "crop"]);
    let q = compile_query(&args, &now, &env()).unwrap();
    assert!(q.crop);
    assert_eq!(q.sort, Some(("Lastname".to_string(), "crop".to_string())));
}

#[test]
fn compile_surfaces_grammar_errors() {
    let now = at_midnight(2024, 6, 15);
    let err = compile_query(&toks(&["x", "by"]), &now, &env()).unwrap_err();
    assert_eq!(err, "missing sort key after 'by'");
    let err = compile_query(&toks(&["x", "where", "a", "foo", "b"]), &now, &env()).unwrap_err();
    assert_eq!(err, "Invalid condition 'foo' for field 'a'");
}
