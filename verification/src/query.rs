//! The query-descriptor assembler: ties keyword expansion, clause
//! splitting and filter parsing together into one structured, immutable
//! description of the outbound query.
use vstd::prelude::*;
use crate::clauses::{
    contains_tok, extract_for_clause, extract_only_clause, filter_window_spec, find_tok,
    lemma_find_tok_props, limit_spec, route_window_spec, sort_dir_spec, sort_key_spec,
    sort_words_spec, split_args, target_spec,
};
use crate::dates::{ts_valid, Timestamp};
use crate::filters::{parse_filters, parse_filters_spec};
use crate::keywords::{expand_args_spec, replace_keywords_in_args};
use crate::text::{
    chars_to_string, is_digit, is_numeral, join_spec, parse_usize_token, push_all, seq_to_nat,
    split_ws_spec, str_to_chars,
};

verus! {

/// One named environment: the credentials and addressing the assembler
/// completes a route with.
#[derive(Debug, Clone, PartialEq)]
pub struct EnvironmentConfig {
    pub api_token: String,
    pub org_id: String,
    pub entrypoint: String,
    pub environment: String,
}

/// An option token: one starting with `--`.
pub open spec fn is_flag_tok(s: Seq<char>) -> bool {
    s.len() >= 2 && s[0] == '-' && s[1] == '-'
}

/// A token that parses as a record count.
pub open spec fn is_limit_tok(s: Seq<char>) -> bool {
    is_numeral(s) && seq_to_nat(s) <= usize::MAX
}

/// Where the route-bearing part of the token list starts: at the first
/// token that is neither an option nor a bare number, or at the front when
/// every token is one.
pub open spec fn route_args_start(args: Seq<Seq<char>>) -> int {
    match find_route_start(args, 0) {
        Some(i) => i,
        None => 0,
    }
}

pub open spec fn find_route_start(args: Seq<Seq<char>>, i: int) -> Option<int>
    decreases args.len() - i,
{
    if i < 0 || i >= args.len() {
        None
    } else if !is_flag_tok(args[i]) && !is_limit_tok(args[i]) {
        Some(i)
    } else {
        find_route_start(args, i + 1)
    }
}

fn flag_tok(s: &str) -> (r: bool)
    ensures
        r == is_flag_tok(s@),
{
    let n: usize = s.unicode_len();
    n >= 2 && s.get_char(0) == '-' && s.get_char(1) == '-'
}

/// Finds where the route-bearing tokens start.
fn route_start(args: &[String]) -> (r: usize)
    ensures
        r as int == route_args_start(args.deep_view()),
        r <= args.deep_view().len(),
{
    let n: usize = args.len();
    let mut i: usize = 0;
    while i < n
        invariant
            i <= n,
            n == args@.len(),
            args.deep_view().len() == n,
            find_route_start(args.deep_view(), 0) == find_route_start(args.deep_view(), i as int),
        decreases n - i,
    {
        proof {
            assert(args.deep_view()[i as int] == args@[i as int]@);
        }
        let is_skippable = flag_tok(args[i].as_str()) || parse_usize_token(
            args[i].as_str(),
        ).is_some();
        if !is_skippable {
            return i;
        }
        i = i + 1;
    }
    0
}

/// The route window completed with the implicit trailing segment: the
/// organization id after a literal `org`, the entrypoint after a last
/// segment holding no digit, nothing after a digit-bearing one or an empty
/// route.
pub open spec fn augmented_route_spec(
    route: Seq<Seq<char>>,
    org_id: Seq<char>,
    entrypoint: Seq<char>,
) -> Seq<Seq<char>> {
    if route.len() == 0 {
        route
    } else if route.last() == "org"@ {
        route.push(org_id)
    } else if !has_digit(route.last()) {
        route.push(entrypoint)
    } else {
        route
    }
}

pub open spec fn has_digit(s: Seq<char>) -> bool {
    exists|i: int| 0 <= i < s.len() && is_digit(s[i])
}

fn has_digit_tok(s: &str) -> (r: bool)
    ensures
        r == has_digit(s@),
{
    let n: usize = s.unicode_len();
    let mut i: usize = 0;
    while i < n
        invariant
            i <= n,
            n == s@.len(),
            forall|j: int| 0 <= j < i ==> !is_digit(s@[j]),
        decreases n - i,
    {
        if crate::text::is_digit_char(s.get_char(i)) {
            return true;
        }
        i = i + 1;
    }
    false
}

/// Skips the leading option and count tokens, partitions the rest into
/// route, filter and sort clauses, and completes the route with the
/// environment's implicit segment.
pub fn process_route_args(args: &[String], env_config: &EnvironmentConfig) -> (r: Result<
    (Vec<String>, Vec<String>, Option<(String, String)>),
    String,
>)
    ensures
        ({
            let sub = args.deep_view().skip(route_args_start(args.deep_view()));
            &&& (r is Err) == (find_tok(sub, "by"@) is Some && sort_words_spec(sub).len() == 0)
            &&& (r is Err ==> r->Err_0@ == "missing sort key after 'by'"@)
            &&& (r is Ok ==> (r->Ok_0).0.deep_view() == augmented_route_spec(
                route_window_spec(sub),
                env_config.org_id@,
                env_config.entrypoint@,
            ))
            &&& (r is Ok ==> (r->Ok_0).1.deep_view() == filter_window_spec(sub))
            &&& (r is Ok ==> ((r->Ok_0).2 is Some) == (find_tok(sub, "by"@) is Some))
            &&& (r is Ok && (r->Ok_0).2 is Some ==> ((r->Ok_0).2->0).0@ == sort_key_spec(sub)
                && ((r->Ok_0).2->0).1@ == sort_dir_spec(sub))
        }),
{
    let n: usize = args.len();
    let start: usize = route_start(args);
    let rest: &[String] = &args[start..n];
    proof {
        assert(rest.deep_view() =~= args.deep_view().skip(route_args_start(args.deep_view())));
    }
    match split_args(rest) {
        Err(e) => Err(e),
        Ok((mut route_parts, filter_args, sort_clause)) => {
            let len: usize = route_parts.len();
            if len > 0 {
                proof {
                    assert(route_parts.deep_view()[len - 1] == route_parts@[len - 1]@);
                }
                if crate::text::str_eq(route_parts[len - 1].as_str(), "org") {
                    let ghost prev = route_parts.deep_view();
                    route_parts.push(env_config.org_id.clone());
                    proof {
                        assert(route_parts.deep_view() =~~= prev.push(env_config.org_id@));
                    }
                } else if !has_digit_tok(route_parts[len - 1].as_str()) {
                    let ghost prev = route_parts.deep_view();
                    route_parts.push(env_config.entrypoint.clone());
                    proof {
                        assert(route_parts.deep_view() =~~= prev.push(env_config.entrypoint@));
                    }
                }
            }
            Ok((route_parts, filter_args, sort_clause))
        },
    }
}

/// The URL a route renders to: the base, the fixed query path, the
/// segments joined by `/` and a trailing slash.
pub open spec fn build_url_spec(base: Seq<char>, parts: Seq<Seq<char>>) -> Seq<char> {
    base + "/api/Query/"@ + join_spec(parts, "/"@) + "/"@
}

/// Renders the query URL for a base address and route segments.
pub fn build_url(base: &str, route_parts: &[String]) -> (r: String)
    ensures
        r@ == build_url_spec(base@, route_parts.deep_view()),
{
    let mut out: Vec<char> = str_to_chars(base);
    let mid = str_to_chars("/api/Query/");
    push_all(&mut out, &mid);
    let joined = crate::text::join_strings(route_parts, "/");
    let jc = str_to_chars(joined.as_str());
    push_all(&mut out, &jc);
    let tail = str_to_chars("/");
    push_all(&mut out, &tail);
    chars_to_string(&out)
}

/// The structured description of one outbound query: the route path, the
/// normalized filter pairs, the optional sort, the optional record limit,
/// the crop flag and the target configuration name.  Built once per
/// invocation and handed to the (external) transport layer.
#[derive(Debug, PartialEq)]
pub struct QueryDescriptor {
    pub route: Vec<String>,
    pub filters: Vec<(String, String)>,
    pub sort: Option<(String, String)>,
    pub limit: Option<usize>,
    pub crop: bool,
    pub target: String,
}

/// Compiles a raw token list into a query descriptor against the reference
/// instant `now` and the environment `env_config`: the tokens are joined
/// and expanded, re-tokenized, partitioned into clauses, and the filter
/// window parsed.  The crop flag holds exactly when a sort is present and
/// the literal token `crop` appears in the expanded stream; a grammar
/// error in the sort or filter clauses aborts the whole compilation.
pub fn compile_query(args: &[String], now: &Timestamp, env_config: &EnvironmentConfig) -> (r:
    Result<QueryDescriptor, String>)
    requires
        ts_valid(*now),
        2 <= now.date.year <= 9998,
    ensures
        ({
            let toks = split_ws_spec(expand_args_spec(args.deep_view(), *now));
            let sub = toks.skip(route_args_start(toks));
            let sort_broken = find_tok(sub, "by"@) is Some && sort_words_spec(sub).len() == 0;
            &&& (r is Ok) == (!sort_broken && !(parse_filters_spec(filter_window_spec(sub))
                is Err))
            &&& (r is Err && sort_broken ==> r->Err_0@ == "missing sort key after 'by'"@)
            &&& (r is Err && !sort_broken ==> r->Err_0@ == parse_filters_spec(
                filter_window_spec(sub),
            )->Err_0)
            &&& (r is Ok ==> (r->Ok_0).route.deep_view() == augmented_route_spec(
                route_window_spec(sub),
                env_config.org_id@,
                env_config.entrypoint@,
            ))
            &&& (r is Ok ==> (r->Ok_0).filters.deep_view() == parse_filters_spec(
                filter_window_spec(sub),
            )->Ok_0)
            &&& (r is Ok ==> (((r->Ok_0).sort is Some) == (find_tok(sub, "by"@) is Some)))
            &&& (r is Ok && (r->Ok_0).sort is Some ==> ((r->Ok_0).sort->0).0@ == sort_key_spec(
                sub,
            ) && ((r->Ok_0).sort->0).1@ == sort_dir_spec(sub))
            &&& (r is Ok ==> (((r->Ok_0).limit is Some) == (limit_spec(toks) is Some)))
            &&& (r is Ok && (r->Ok_0).limit is Some ==> (r->Ok_0).limit->0 as nat == limit_spec(
                toks,
            )->0)
            &&& (r is Ok ==> (r->Ok_0).target@ == target_spec(toks))
            &&& (r is Ok ==> (r->Ok_0).crop == (find_tok(sub, "by"@) is Some && contains_tok(
                toks,
                "crop"@,
            )))
        }),
{
    let expanded: String = replace_keywords_in_args(args, now);
    let expanded_chars = str_to_chars(expanded.as_str());
    let toks_vec: Vec<String> = crate::text::split_whitespace_chars(&expanded_chars);
    let toks: &[String] = toks_vec.as_slice();
    proof {
        assert(toks.deep_view() =~~= toks_vec.deep_view());
    }
    let limit: Option<usize> = extract_only_clause(toks);
    let target: String = extract_for_clause(toks);
    match process_route_args(toks, env_config) {
        Err(e) => Err(e),
        Ok((route, filter_args, sort)) => {
            match parse_filters(filter_args.as_slice()) {
                Err(e) => Err(e),
                Ok(filters) => {
                    proof {
                        lemma_find_tok_props(toks.deep_view(), "crop"@);
                    }
                    let crop: bool = sort.is_some() && crate::clauses::find_token(
                        toks,
                        "crop",
                    ).is_some();
                    Ok(
                        QueryDescriptor {
                            route,
                            filters,
                            sort,
                            limit,
                            crop,
                            target,
                        },
                    )
                },
            }
        },
    }
}

} // verus!
