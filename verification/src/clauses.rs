//! Clause boundary detection: locating the structural keywords `only`,
//! `for`, `where`, `by` in the token list and partitioning it into the route
//! window, the filter window and the sort specification.
use vstd::prelude::*;
use crate::text::{
    is_numeral, join_spec, parse_usize_token, seq_to_nat, split_ws_spec, str_eq, str_to_chars,
};

verus! {

/// Position of the first token equal to `t`.
pub open spec fn find_tok(args: Seq<Seq<char>>, t: Seq<char>) -> Option<int>
    decreases args.len(),
{
    if args.len() == 0 {
        None
    } else if args[0] == t {
        Some(0int)
    } else {
        match find_tok(args.drop_first(), t) {
            None => None,
            Some(i) => Some(i + 1),
        }
    }
}

pub open spec fn contains_tok(args: Seq<Seq<char>>, t: Seq<char>) -> bool {
    exists|j: int| 0 <= j < args.len() && args[j] == t
}

pub proof fn lemma_find_tok_at(args: Seq<Seq<char>>, t: Seq<char>, k: int)
    requires
        0 <= k < args.len(),
        args[k] == t,
        forall|j: int| 0 <= j < k ==> args[j] != t,
    ensures
        find_tok(args, t) == Some(k),
    decreases k,
{
    if k > 0 {
        lemma_find_tok_at(args.drop_first(), t, k - 1);
    }
}

pub proof fn lemma_find_tok_none(args: Seq<Seq<char>>, t: Seq<char>)
    requires
        forall|j: int| 0 <= j < args.len() ==> args[j] != t,
    ensures
        find_tok(args, t) is None,
    decreases args.len(),
{
    if args.len() > 0 {
        lemma_find_tok_none(args.drop_first(), t);
    }
}

/// Properties of a found position, for callers.
pub proof fn lemma_find_tok_props(args: Seq<Seq<char>>, t: Seq<char>)
    ensures
        find_tok(args, t) is Some ==> {
            let k = find_tok(args, t)->0;
            0 <= k < args.len() && args[k] == t
        },
        (find_tok(args, t) is Some) == contains_tok(args, t),
    decreases args.len(),
{
    if args.len() > 0 {
        lemma_find_tok_props(args.drop_first(), t);
        if args[0] == t {
        } else {
            assert(forall|j: int|
                0 <= j < args.drop_first().len() ==> args.drop_first()[j] == args[j + 1]);
            if contains_tok(args, t) {
                let j = choose|j: int| 0 <= j < args.len() && args[j] == t;
                assert(args.drop_first()[j - 1] == t);
            }
        }
    }
}

/// Finds the first token equal to `t`.
pub fn find_token(args: &[String], t: &str) -> (r: Option<usize>)
    ensures
        (r is Some) == (find_tok(args.deep_view(), t@) is Some),
        r is Some ==> Some(r->0 as int) == find_tok(args.deep_view(), t@),
        r is Some ==> r->0 < args@.len(),
{
    let n: usize = args.len();
    let mut i: usize = 0;
    while i < n
        invariant
            i <= n,
            n == args@.len(),
            args.deep_view().len() == n,
            forall|j: int| 0 <= j < i ==> args.deep_view()[j] != t@,
        decreases n - i,
    {
        if str_eq(args[i].as_str(), t) {
            proof {
                assert(args.deep_view()[i as int] == args@[i as int]@);
                lemma_find_tok_at(args.deep_view(), t@, i as int);
            }
            return Some(i);
        }
        proof {
            assert(args.deep_view()[i as int] == args@[i as int]@);
        }
        i = i + 1;
    }
    proof {
        lemma_find_tok_none(args.deep_view(), t@);
    }
    None
}

/// The record limit: the integer token right after `only`, when there is
/// one and it parses; otherwise no limit (deliberately forgiving).
pub open spec fn limit_spec(args: Seq<Seq<char>>) -> Option<nat> {
    match find_tok(args, "only"@) {
        Some(p) => {
            if p + 1 < args.len() && is_numeral(args[p + 1]) && seq_to_nat(args[p + 1])
                <= usize::MAX {
                Some(seq_to_nat(args[p + 1]))
            } else {
                None
            }
        },
        None => None,
    }
}

/// Extracts the record limit from the token list.
pub fn extract_only_clause(args: &[String]) -> (r: Option<usize>)
    ensures
        (r is Some) == (limit_spec(args.deep_view()) is Some),
        r is Some ==> r->0 as nat == limit_spec(args.deep_view())->0,
{
    let n: usize = args.len();
    match find_token(args, "only") {
        Some(p) => {
            if p < n && n - p >= 2 {
                proof {
                    assert(args.deep_view()[p + 1] == args@[p + 1]@);
                }
                parse_usize_token(args[p + 1].as_str())
            } else {
                None
            }
        },
        None => None,
    }
}

/// The target configuration name: the token right after `for`, defaulting
/// to `default`.
pub open spec fn target_spec(args: Seq<Seq<char>>) -> Seq<char> {
    match find_tok(args, "for"@) {
        Some(p) => {
            if p + 1 < args.len() {
                args[p + 1]
            } else {
                "default"@
            }
        },
        None => "default"@,
    }
}

/// Extracts the target configuration name from the token list.
pub fn extract_for_clause(args: &[String]) -> (r: String)
    ensures
        r@ == target_spec(args.deep_view()),
{
    let n: usize = args.len();
    match find_token(args, "for") {
        Some(p) => {
            if p < n && n - p >= 2 {
                proof {
                    assert(args.deep_view()[p + 1] == args@[p + 1]@);
                }
                args[p + 1].clone()
            } else {
                String::from_str("default")
            }
        },
        None => String::from_str("default"),
    }
}

/// Where the first clause keyword (`for`, `where` or `by`) stands, if any.
pub open spec fn first_clause_pos(args: Seq<Seq<char>>) -> Option<int> {
    let fp = find_tok(args, "for"@);
    let wp = find_tok(args, "where"@);
    let bp = find_tok(args, "by"@);
    min_opt(min_opt(fp, wp), bp)
}

pub open spec fn min_opt(a: Option<int>, b: Option<int>) -> Option<int> {
    match (a, b) {
        (Some(x), Some(y)) => Some(if x <= y { x } else { y }),
        (Some(x), None) => Some(x),
        (None, Some(y)) => Some(y),
        (None, None) => None,
    }
}

/// The route window: from just past `only` and its argument (or the start)
/// up to the first clause keyword (or the end), emptied when the bounds
/// cross, with any literal `crop` tokens dropped.
pub open spec fn route_window_spec(args: Seq<Seq<char>>) -> Seq<Seq<char>> {
    let start = match find_tok(args, "only"@) {
        Some(p) => p + 2,
        None => 0,
    };
    let stop = match first_clause_pos(args) {
        Some(m) => m,
        None => args.len() as int,
    };
    if start >= stop {
        Seq::<Seq<char>>::empty()
    } else {
        drop_crop(args.subrange(start, stop))
    }
}

/// `w` with every literal `crop` token removed.
pub open spec fn drop_crop(w: Seq<Seq<char>>) -> Seq<Seq<char>>
    decreases w.len(),
{
    if w.len() == 0 {
        Seq::<Seq<char>>::empty()
    } else if w[0] == "crop"@ {
        drop_crop(w.drop_first())
    } else {
        seq![w[0]] + drop_crop(w.drop_first())
    }
}

/// The filter window: strictly between `where` and a later `by`; to the end
/// when `by` is missing or stands before `where`; empty without `where`.
pub open spec fn filter_window_spec(args: Seq<Seq<char>>) -> Seq<Seq<char>> {
    match (find_tok(args, "where"@), find_tok(args, "by"@)) {
        (Some(w), Some(b)) => {
            if b > w {
                args.subrange(w + 1, b)
            } else {
                args.subrange(w + 1, args.len() as int)
            }
        },
        (Some(w), None) => args.subrange(w + 1, args.len() as int),
        _ => Seq::<Seq<char>>::empty(),
    }
}

/// The whitespace-split words of everything after `by`.
pub open spec fn sort_words_spec(args: Seq<Seq<char>>) -> Seq<Seq<char>> {
    match find_tok(args, "by"@) {
        Some(p) => split_ws_spec(join_spec(args.subrange(p + 1, args.len() as int), " "@)),
        None => Seq::<Seq<char>>::empty(),
    }
}

pub open spec fn sort_key_spec(args: Seq<Seq<char>>) -> Seq<char> {
    sort_words_spec(args)[0]
}

pub open spec fn sort_dir_spec(args: Seq<Seq<char>>) -> Seq<char> {
    if sort_words_spec(args).len() >= 2 {
        sort_words_spec(args)[1]
    } else {
        "asc"@
    }
}

/// Partitions the token list into the route window, the raw filter window
/// and the sort specification.  Fails only when `by` is present but no sort
/// key follows it.
pub fn split_args(args: &[String]) -> (r: Result<
    (Vec<String>, Vec<String>, Option<(String, String)>),
    String,
>)
    ensures
        (r is Err) == (find_tok(args.deep_view(), "by"@) is Some && sort_words_spec(
            args.deep_view(),
        ).len() == 0),
        r is Err ==> r->Err_0@ == "missing sort key after 'by'"@,
        r is Ok ==> (r->Ok_0).0.deep_view() == route_window_spec(args.deep_view()),
        r is Ok ==> (r->Ok_0).1.deep_view() == filter_window_spec(args.deep_view()),
        r is Ok ==> ((r->Ok_0).2 is Some) == (find_tok(args.deep_view(), "by"@) is Some),
        r is Ok && (r->Ok_0).2 is Some ==> ((r->Ok_0).2->0).0@ == sort_key_spec(args.deep_view())
            && ((r->Ok_0).2->0).1@ == sort_dir_spec(args.deep_view()),
{
    let ghost dv = args.deep_view();
    let n: usize = args.len();
    proof {
        assert(dv.len() == n);
    }
    let only_pos = find_token(args, "only");
    let for_pos = find_token(args, "for");
    let where_pos = find_token(args, "where");
    let by_pos = find_token(args, "by");

    // sort clause first: its absence of words is the one error
    let sort_clause: Option<(String, String)> = match by_pos {
        Some(p) => {
            let tail: &[String] = &args[p + 1..n];
            proof {
                assert(tail.deep_view() =~= dv.subrange(p + 1, n as int));
            }
            let joined = crate::text::join_strings(tail, " ");
            let joined_chars = str_to_chars(joined.as_str());
            let words = crate::text::split_whitespace_chars(&joined_chars);
            proof {
                assert(words.deep_view() == sort_words_spec(dv));
            }
            if words.len() == 0 {
                return Err(String::from_str("missing sort key after 'by'"));
            }
            let key = words[0].clone();
            let dir = if words.len() >= 2 {
                words[1].clone()
            } else {
                String::from_str("asc")
            };
            proof {
                assert(words.deep_view()[0] == words@[0]@);
                if words@.len() >= 2 {
                    assert(words.deep_view()[1] == words@[1]@);
                }
            }
            Some((key, dir))
        },
        None => None,
    };

    let start: usize = match only_pos {
        Some(p) => if n - p >= 2 {
            p + 2
        } else {
            n
        },
        None => 0,
    };
    let stop: usize = match (for_pos, where_pos, by_pos) {
        (None, None, None) => n,
        _ => {
            let mut m: usize = n;
            if let Some(p) = for_pos {
                if p < m {
                    m = p;
                }
            }
            if let Some(p) = where_pos {
                if p < m {
                    m = p;
                }
            }
            if let Some(p) = by_pos {
                if p < m {
                    m = p;
                }
            }
            m
        },
    };
    proof {
        let spec_start = match find_tok(dv, "only"@) {
            Some(p) => p + 2,
            None => 0int,
        };
        let spec_stop = match first_clause_pos(dv) {
            Some(m) => m,
            None => dv.len() as int,
        };
        lemma_find_tok_props(dv, "for"@);
        lemma_find_tok_props(dv, "where"@);
        lemma_find_tok_props(dv, "by"@);
        lemma_find_tok_props(dv, "only"@);
        assert(spec_stop == stop as int);
    }

    let mut route_parts: Vec<String> = Vec::new();
    if start < stop {
        let ghost window = dv.subrange(start as int, stop as int);
        let mut i: usize = start;
        proof {
            assert(window.skip(0) =~= window);
        }
        while i < stop
            invariant
                start <= i <= stop <= n,
                n == args@.len(),
                dv == args.deep_view(),
                drop_crop(dv.subrange(start as int, stop as int)) == route_parts.deep_view()
                    + drop_crop(dv.subrange(start as int, stop as int).skip(i - start)),
            decreases stop - i,
        {
            proof {
                let window = dv.subrange(start as int, stop as int);
                assert(window.skip(i - start)[0] == dv[i as int]);
                assert(window.skip(i - start).drop_first() =~= window.skip(i + 1 - start));
                assert(dv[i as int] == args@[i as int]@);
            }
            if !str_eq(args[i].as_str(), "crop") {
                let ghost prev = route_parts.deep_view();
                route_parts.push(args[i].clone());
                proof {
                    assert(route_parts.deep_view() =~~= prev + seq![dv[i as int]]);
                    let window = dv.subrange(start as int, stop as int);
                    assert(route_parts.deep_view() + drop_crop(window.skip(i + 1 - start)) =~~= prev
                        + (seq![window.skip(i - start)[0]] + drop_crop(
                        window.skip(i - start).drop_first(),
                    )));
                }
            }
            i = i + 1;
        }
        proof {
            let window = dv.subrange(start as int, stop as int);
            assert(window.skip(stop - start) =~= Seq::<Seq<char>>::empty());
            assert(route_parts.deep_view() + Seq::<Seq<char>>::empty() =~= route_parts.deep_view());
        }
    }
    proof {
        assert(route_parts.deep_view() == route_window_spec(dv));
    }

    let mut filter_args: Vec<String> = Vec::new();
    let (fstart, fstop): (usize, usize) = match (where_pos, by_pos) {
        (Some(w), Some(b)) => if b > w {
            (w + 1, b)
        } else {
            (w + 1, n)
        },
        (Some(w), None) => (w + 1, n),
        _ => (0, 0),
    };
    let mut i: usize = fstart;
    proof {
        assert(filter_args.deep_view() =~= dv.subrange(fstart as int, fstart as int));
    }
    while i < fstop
        invariant
            fstart <= i <= fstop <= n,
            n == args@.len(),
            dv == args.deep_view(),
            filter_args.deep_view() == dv.subrange(fstart as int, i as int),
        decreases fstop - i,
    {
        let ghost prev = filter_args.deep_view();
        proof {
            assert(dv[i as int] == args@[i as int]@);
        }
        filter_args.push(args[i].clone());
        i = i + 1;
        proof {
            assert(filter_args.deep_view() =~~= prev + seq![dv[i - 1]]);
            assert(prev + seq![dv[i - 1]] =~~= dv.subrange(fstart as int, i as int));
        }
    }
    proof {
        if fstart == 0 && fstop == 0 {
            assert(dv.subrange(0, 0) =~= Seq::<Seq<char>>::empty());
        }
        assert(filter_args.deep_view() == filter_window_spec(dv));
    }

    Ok((route_parts, filter_args, sort_clause))
}

/// `drop_crop` touches nothing when no `crop` token is present.
pub proof fn lemma_drop_crop_id(w: Seq<Seq<char>>)
    requires
        forall|i: int| 0 <= i < w.len() ==> #[trigger] w[i] != "crop"@,
    ensures
        drop_crop(w) == w,
    decreases w.len(),
{
    if w.len() > 0 {
        assert(forall|i: int|
            0 <= i < w.drop_first().len() ==> #[trigger] w.drop_first()[i] == w[i + 1]);
        lemma_drop_crop_id(w.drop_first());
        assert(seq![w[0]] + w.drop_first() =~= w);
    }
}

/// A token list without structural keywords passes through the splitter
/// untouched: the route window is the whole input, the filter window is
/// empty, there is no sort, no limit and no named target.
pub proof fn lemma_plain_tokens_split(args: Seq<Seq<char>>)
    requires
        forall|i: int|
            0 <= i < args.len() ==> (#[trigger] args[i]) != "only"@ && args[i] != "for"@ && args[i]
                != "where"@ && args[i] != "by"@ && args[i] != "crop"@,
    ensures
        route_window_spec(args) == args,
        filter_window_spec(args) == Seq::<Seq<char>>::empty(),
        find_tok(args, "by"@) is None,
        limit_spec(args) is None,
        target_spec(args) == "default"@,
{
    lemma_find_tok_none(args, "only"@);
    lemma_find_tok_none(args, "for"@);
    lemma_find_tok_none(args, "where"@);
    lemma_find_tok_none(args, "by"@);
    if args.len() == 0 {
        assert(route_window_spec(args) =~= args);
    } else {
        assert(args.subrange(0, args.len() as int) =~= args);
        lemma_drop_crop_id(args);
    }
}

/// The output format and quiet flag taken from the leading option tokens:
/// `--yaml` selects YAML (JSON is the default), `--quiet` silences the
/// banner.
pub fn parse_args(args: &[String]) -> (r: (&'static str, bool))
    ensures
        r.0@ == if contains_tok(args.deep_view(), "--yaml"@) {
            "--yaml"@
        } else {
            "--json"@
        },
        r.1 == contains_tok(args.deep_view(), "--quiet"@),
{
    proof {
        lemma_find_tok_props(args.deep_view(), "--yaml"@);
        lemma_find_tok_props(args.deep_view(), "--quiet"@);
    }
    let format: &'static str = if find_token(args, "--yaml").is_some() {
        "--yaml"
    } else {
        "--json"
    };
    let quiet: bool = find_token(args, "--quiet").is_some();
    (format, quiet)
}

/// The API base URL selected by the environment name: production and qa
/// have their own hosts, anything else goes to the sandbox.
pub fn get_base_url(environment: &str) -> (r: &'static str)
    ensures
        r@ == if environment@ == "production"@ {
            "https://api-payabli.com"@
        } else if environment@ == "qa"@ {
            "https://api-qa.payabli.com"@
        } else {
            "https://api-sandbox.payabli.com"@
        },
{
    if str_eq(environment, "production") {
        "https://api-payabli.com"
    } else if str_eq(environment, "qa") {
        "https://api-qa.payabli.com"
    } else {
        "https://api-sandbox.payabli.com"
    }
}

} // verus!
