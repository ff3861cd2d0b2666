use payquery::clauses::{
    extract_for_clause, extract_only_clause, get_base_url, parse_args, split_args,
};
use payquery::filters::{get_condition, parse_filter_clause, parse_filters};
use payquery::json::{get_nested_value, JsonValue};
use payquery::query::{build_url, process_route_args, EnvironmentConfig};

fn toks(words: &[&str]) -> Vec<String> {
    words.iter().map(|w| w.to_string()).collect()
}

fn env() -> EnvironmentConfig {
    EnvironmentConfig {
        api_token: "tok".to_string(),
        org_id: "77".to_string(),
        entrypoint: "pizzabli".to_string(),
        environment: "sandbox".to_string(),
    }
}

#[test]
fn plain_tokens_pass_through_untouched() {
    let args = toks(&["transactions", "recent"]);
    let (route, filters, sort) = split_args(&args).unwrap();
    assert_eq!(route, toks(&["transactions", "recent"]));
    assert!(filters.is_empty());
    assert!(sort.is_none());
    assert!(extract_only_clause(&args).is_none());
    assert_eq!(extract_for_clause(&args), "default");
}

#[test]
fn split_with_all_clauses() {
    let args = toks(&["only", "5", "for", "Acme", "where", "a", "eq", "b", "by", "c", "desc"]);
    assert_eq!(extract_only_clause(&args), Some(5));
    assert_eq!(extract_for_clause(&args), "Acme");
    let (route, filters, sort) = split_args(&args).unwrap();
    assert!(route.is_empty());
    assert_eq!(filters, toks(&["a", "eq", "b"]));
    assert_eq!(sort, Some(("c".to_string(), "desc".to_string())));
    let parsed = parse_filters(&filters).unwrap();
    assert_eq!(parsed, vec![("a(eq)".to_string(), "b".to_string())]);
}

#[test]
fn split_route_between_only_and_where() {
    let args = toks(&["only", "10", "customers", "where", "x", "eq", "y"]);
    let (route, filters, sort) = split_args(&args).unwrap();
    assert_eq!(route, toks(&["customers"]));
    assert_eq!(filters, toks(&["x", "eq", "y"]));
    assert!(sort.is_none());
}

#[test]
fn sort_defaults_to_ascending() {
    let args = toks(&["batches", "by", "TransactionDate"]);
    let (route, _, sort) = split_args(&args).unwrap();
    assert_eq!(route, toks(&["batches"]));
    assert_eq!(sort, Some(("TransactionDate".to_string(), "asc".to_string())));
}

#[test]
fn by_without_key_is_an_error() {
    let args = toks(&["batches", "by"]);
    let err = split_args(&args).unwrap_err();
    assert_eq!(err, "missing sort key after 'by'");
}

#[test]
fn by_before_where_sends_filters_to_end() {
    let args = toks(&["r", "by", "k", "where", "f", "eq", "v"]);
    let (route, filters, sort) = split_args(&args).unwrap();
    assert_eq!(route, toks(&["r"]));
    assert_eq!(filters, toks(&["f", "eq", "v"]));
    assert_eq!(sort, Some(("k".to_string(), "where".to_string())));
}

#[test]
fn crop_token_never_reaches_the_route() {
    let args = toks(&["customers", "crop"]);
    let (route, _, _) = split_args(&args).unwrap();
    assert_eq!(route, toks(&["customers"]));
}

#[test]
fn limit_is_forgiving_about_bad_numbers() {
    assert_eq!(extract_only_clause(&toks(&["only", "5"])), Some(5));
    assert!(extract_only_clause(&toks(&["only", "five"])).is_none());
    assert!(extract_only_clause(&toks(&["only"])).is_none());
    assert!(extract_only_clause(&toks(&["transactions"])).is_none());
}

#[test]
fn target_name_follows_for() {
    assert_eq!(extract_for_clause(&toks(&["x", "for", "Acme"])), "Acme");
    assert_eq!(extract_for_clause(&toks(&["x", "for"])), "default");
}

#[test]
fn operator_aliases_resolve_to_their_codes() {
    assert_eq!(get_condition("="), Some("eq"));
    assert_eq!(get_condition("eq"), Some("eq"));
    assert_eq!(get_condition(">"), Some("gt"));
    assert_eq!(get_condition("gt"), Some("gt"));
    assert_eq!(get_condition(">="), Some("ge"));
    assert_eq!(get_condition("ge"), Some("ge"));
    assert_eq!(get_condition("<"), Some("lt"));
    assert_eq!(get_condition("lt"), Some("lt"));
    assert_eq!(get_condition("<="), Some("le"));
    assert_eq!(get_condition("le"), Some("le"));
    assert_eq!(get_condition("!="), Some("ne"));
    assert_eq!(get_condition("ne"), Some("ne"));
    assert_eq!(get_condition("contains"), Some("ct"));
    assert_eq!(get_condition("ct"), Some("ct"));
    assert_eq!(get_condition("not_contains"), Some("nct"));
    assert_eq!(get_condition("nct"), Some("nct"));
    assert_eq!(get_condition("in"), Some("in"));
    assert_eq!(get_condition("not_in"), Some("nin"));
    assert_eq!(get_condition("nin"), Some("nin"));
}

#[test]
fn unknown_operators_never_match() {
    assert!(get_condition("foo").is_none());
    assert!(get_condition("EQ").is_none());
    assert!(get_condition("==").is_none());
    assert!(get_condition("").is_none());
}

#[test]
fn filter_clause_with_operator() {
    let (field, value) = parse_filter_clause("amount gt 100").unwrap();
    assert_eq!(field, "amount(gt)");
    assert_eq!(value, "100");
}

#[test]
fn filter_clause_defaults_to_eq() {
    let (field, value) = parse_filter_clause("status pending").unwrap();
    assert_eq!(field, "status(eq)");
    assert_eq!(value, "pending");
}

#[test]
fn filter_clause_of_wrong_shape_is_an_error() {
    let err = parse_filter_clause("a b c d").unwrap_err();
    assert_eq!(err, "Invalid filter clause: 'a b c d'");
    let err = parse_filter_clause("lonely").unwrap_err();
    assert_eq!(err, "Invalid filter clause: 'lonely'");
}

#[test]
fn filter_clause_with_unknown_operator_names_it() {
    let err = parse_filter_clause("amount foo 10").unwrap_err();
    assert_eq!(err, "Invalid condition 'foo' for field 'amount'");
}

#[test]
fn filters_split_on_commas() {
    let args = toks(&["a", "eq", "b", ",", "c", "gt", "d"]);
    let parsed = parse_filters(&args).unwrap();
    assert_eq!(
        parsed,
        vec![
            ("a(eq)".to_string(), "b".to_string()),
            ("c(gt)".to_string(), "d".to_string()),
        ]
    );
}

#[test]
fn empty_filter_segments_are_skipped() {
    assert!(parse_filters(&toks(&[","])).unwrap().is_empty());
    assert!(parse_filters(&toks(&[])).unwrap().is_empty());
}

#[test]
fn first_bad_filter_clause_aborts_the_list() {
    let args = toks(&["a", "foo", "b", ",", "c", "gt", "d"]);
    let err = parse_filters(&args).unwrap_err();
    assert_eq!(err, "Invalid condition 'foo' for field 'a'");
}

#[test]
fn base_url_per_environment() {
    assert_eq!(get_base_url("production"), "https://api-payabli.com");
    assert_eq!(get_base_url("qa"), "https://api-qa.payabli.com");
    assert_eq!(get_base_url("sandbox"), "https://api-sandbox.payabli.com");
    assert_eq!(get_base_url("anything"), "https://api-sandbox.payabli.com");
}

#[test]
fn format_and_quiet_flags() {
    assert_eq!(parse_args(&toks(&["--yaml", "x"])), ("--yaml", false));
    assert_eq!(parse_args(&toks(&["--quiet", "x"])), ("--json", true));
    assert_eq!(parse_args(&toks(&["x"])), ("--json", false));
    assert_eq!(parse_args(&toks(&["--yaml", "--quiet"])), ("--yaml", true));
}

#[test]
fn url_is_base_plus_query_path() {
    let parts = toks(&["customers", "pizzabli"]);
    assert_eq!(
        build_url("https://api-sandbox.payabli.com", &parts),
        "https://api-sandbox.payabli.com/api/Query/customers/pizzabli/"
    );
    assert_eq!(build_url("b", &toks(&[])), "b/api/Query//");
}

#[test]
fn route_gains_entrypoint_when_last_segment_has_no_digit() {
    let (route, _, _) = process_route_args(&toks(&["--json", "5", "customers"]), &env()).unwrap();
    assert_eq!(route, toks(&["customers", "pizzabli"]));
}

#[test]
fn route_gains_org_id_after_literal_org() {
    let (route, _, _) = process_route_args(&toks(&["org"]), &env()).unwrap();
    assert_eq!(route, toks(&["org", "77"]));
}

#[test]
fn route_with_digits_stays_as_given() {
    let (route, _, _) = process_route_args(&toks(&["batches7"]), &env()).unwrap();
    assert_eq!(route, toks(&["batches7"]));
}

#[test]
fn nested_path_resolution() {
    let tree = JsonValue::Obj(vec![(
        "a".to_string(),
        JsonValue::Obj(vec![("b".to_string(), JsonValue::Int(5))]),
    )]);
    assert_eq!(get_nested_value(&tree, "a.b"), Some(&JsonValue::Int(5)));
    assert!(get_nested_value(&tree, "a.c").is_none());
    assert!(get_nested_value(&tree, "x.y").is_none());
    assert_eq!(
        get_nested_value(&tree, "a"),
        Some(&JsonValue::Obj(vec![("b".to_string(), JsonValue::Int(5))]))
    );
}

#[test]
fn nested_path_through_non_objects_is_absent() {
    let tree = JsonValue::Obj(vec![("a".to_string(), JsonValue::Int(1))]);
    assert!(get_nested_value(&tree, "a.b").is_none());
    assert!(get_nested_value(&JsonValue::Int(3), "a").is_none());
}
