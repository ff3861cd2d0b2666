//! The filter-clause grammar: comma-separated clauses of the form
//! `field [operator] value`, parsed against a fixed operator-alias table
//! into normalized `field(op)` / value pairs.  Parsing is fail-fast: the
//! first clause that does not parse aborts the whole list with its error.
use vstd::prelude::*;
use crate::text::{
    chars_to_string, join_spec, push_all, split_char_spec, split_on_char, split_ws_spec,
    split_whitespace_chars, str_eq, str_to_chars, trim_chars, trim_spec,
};

verus! {

/// The operator-alias table: each listed symbol or word resolves to exactly
/// one canonical operator code; anything else resolves to nothing.
pub open spec fn condition_spec(s: Seq<char>) -> Option<Seq<char>> {
    if s == "="@ || s == "eq"@ {
        Some("eq"@)
    } else if s == ">"@ || s == "gt"@ {
        Some("gt"@)
    } else if s == ">="@ || s == "ge"@ {
        Some("ge"@)
    } else if s == "<"@ || s == "lt"@ {
        Some("lt"@)
    } else if s == "<="@ || s == "le"@ {
        Some("le"@)
    } else if s == "!="@ || s == "ne"@ {
        Some("ne"@)
    } else if s == "contains"@ || s == "ct"@ {
        Some("ct"@)
    } else if s == "not_contains"@ || s == "nct"@ {
        Some("nct"@)
    } else if s == "in"@ {
        Some("in"@)
    } else if s == "not_in"@ || s == "nin"@ {
        Some("nin"@)
    } else {
        None
    }
}

/// Resolves an operator alias to its canonical code.
pub fn get_condition(arg: &str) -> (r: Option<&'static str>)
    ensures
        (r is Some) == (condition_spec(arg@) is Some),
        r is Some ==> r->0@ == condition_spec(arg@)->0,
{
    if str_eq(arg, "=") || str_eq(arg, "eq") {
        Some("eq")
    } else if str_eq(arg, ">") || str_eq(arg, "gt") {
        Some("gt")
    } else if str_eq(arg, ">=") || str_eq(arg, "ge") {
        Some("ge")
    } else if str_eq(arg, "<") || str_eq(arg, "lt") {
        Some("lt")
    } else if str_eq(arg, "<=") || str_eq(arg, "le") {
        Some("le")
    } else if str_eq(arg, "!=") || str_eq(arg, "ne") {
        Some("ne")
    } else if str_eq(arg, "contains") || str_eq(arg, "ct") {
        Some("ct")
    } else if str_eq(arg, "not_contains") || str_eq(arg, "nct") {
        Some("nct")
    } else if str_eq(arg, "in") {
        Some("in")
    } else if str_eq(arg, "not_in") || str_eq(arg, "nin") {
        Some("nin")
    } else {
        None
    }
}

/// The alias table is total on its sixteen listed aliases, maps each to its
/// one canonical code, covers all ten codes, and sends every other word to
/// no match.
pub proof fn lemma_condition_alias_table()
    ensures
        forall|s: Seq<char>|
            (#[trigger] condition_spec(s)) is Some <==> (s == "="@ || s == "eq"@ || s == ">"@ || s
                == "gt"@ || s == ">="@ || s == "ge"@ || s == "<"@ || s == "lt"@ || s == "<="@ || s
                == "le"@ || s == "!="@ || s == "ne"@ || s == "contains"@ || s == "ct"@ || s
                == "not_contains"@ || s == "nct"@ || s == "in"@ || s == "not_in"@ || s == "nin"@),
        condition_spec("="@) == Some("eq"@) && condition_spec("eq"@) == Some("eq"@),
        condition_spec(">"@) == Some("gt"@) && condition_spec("gt"@) == Some("gt"@),
        condition_spec(">="@) == Some("ge"@) && condition_spec("ge"@) == Some("ge"@),
        condition_spec("<"@) == Some("lt"@) && condition_spec("lt"@) == Some("lt"@),
        condition_spec("<="@) == Some("le"@) && condition_spec("le"@) == Some("le"@),
        condition_spec("!="@) == Some("ne"@) && condition_spec("ne"@) == Some("ne"@),
        condition_spec("contains"@) == Some("ct"@) && condition_spec("ct"@) == Some("ct"@),
        condition_spec("not_contains"@) == Some("nct"@) && condition_spec("nct"@) == Some("nct"@),
        condition_spec("in"@) == Some("in"@),
        condition_spec("not_in"@) == Some("nin"@) && condition_spec("nin"@) == Some("nin"@),
        forall|s: Seq<char>|
            (#[trigger] condition_spec(s)) is Some ==> (condition_spec(s)->0 == "eq"@
                || condition_spec(s)->0 == "gt"@ || condition_spec(s)->0 == "ge"@
                || condition_spec(s)->0 == "lt"@ || condition_spec(s)->0 == "le"@
                || condition_spec(s)->0 == "ne"@ || condition_spec(s)->0 == "ct"@
                || condition_spec(s)->0 == "nct"@ || condition_spec(s)->0 == "in"@
                || condition_spec(s)->0 == "nin"@),
{
    reveal_strlit("=");
    reveal_strlit("eq");
    reveal_strlit(">");
    reveal_strlit("gt");
    reveal_strlit(">=");
    reveal_strlit("ge");
    reveal_strlit("<");
    reveal_strlit("lt");
    reveal_strlit("<=");
    reveal_strlit("le");
    reveal_strlit("!=");
    reveal_strlit("ne");
    reveal_strlit("contains");
    reveal_strlit("ct");
    reveal_strlit("not_contains");
    reveal_strlit("nct");
    reveal_strlit("in");
    reveal_strlit("not_in");
    reveal_strlit("nin");
    assert("="@.len() == 1 && "="@[0] == '=');
    assert("eq"@.len() == 2 && "eq"@[0] == 'e');
    assert(">"@.len() == 1 && ">"@[0] == '>');
    assert("gt"@.len() == 2 && "gt"@[0] == 'g' && "gt"@[1] == 't');
    assert(">="@.len() == 2 && ">="@[0] == '>');
    assert("ge"@.len() == 2 && "ge"@[0] == 'g' && "ge"@[1] == 'e');
    assert("<"@.len() == 1 && "<"@[0] == '<');
    assert("lt"@.len() == 2 && "lt"@[0] == 'l' && "lt"@[1] == 't');
    assert("<="@.len() == 2 && "<="@[0] == '<');
    assert("le"@.len() == 2 && "le"@[0] == 'l' && "le"@[1] == 'e');
    assert("!="@.len() == 2 && "!="@[0] == '!');
    assert("ne"@.len() == 2 && "ne"@[0] == 'n' && "ne"@[1] == 'e');
    assert("contains"@.len() == 8 && "contains"@[0] == 'c');
    assert("ct"@.len() == 2 && "ct"@[0] == 'c');
    assert("not_contains"@.len() == 12 && "not_contains"@[0] == 'n');
    assert("nct"@.len() == 3 && "nct"@[0] == 'n' && "nct"@[1] == 'c');
    assert("in"@.len() == 2 && "in"@[0] == 'i');
    assert("not_in"@.len() == 6 && "not_in"@[0] == 'n');
    assert("nin"@.len() == 3 && "nin"@[0] == 'n' && "nin"@[1] == 'i');
}

/// `field(op)`.
pub open spec fn normalized_field(field: Seq<char>, cond: Seq<char>) -> Seq<char> {
    field + "("@ + cond + ")"@
}

/// The error reported for an unknown operator alias.
pub open spec fn err_condition(cond: Seq<char>, field: Seq<char>) -> Seq<char> {
    "Invalid condition '"@ + cond + "' for field '"@ + field + "'"@
}

/// The error reported for a clause of the wrong shape.
pub open spec fn err_clause(clause: Seq<char>) -> Seq<char> {
    "Invalid filter clause: '"@ + clause + "'"@
}

/// What parsing one clause yields: three words are field, operator and
/// value; two words default the operator to `eq`; anything else is an
/// error naming the clause, an unknown alias an error naming it and the
/// field.
pub open spec fn parse_filter_clause_spec(clause: Seq<char>) -> Result<
    (Seq<char>, Seq<char>),
    Seq<char>,
> {
    let words = split_ws_spec(clause);
    if words.len() == 3 {
        match condition_spec(words[1]) {
            Some(c) => Ok((normalized_field(words[0], c), words[2])),
            None => Err(err_condition(words[1], words[0])),
        }
    } else if words.len() == 2 {
        Ok((normalized_field(words[0], "eq"@), words[1]))
    } else {
        Err(err_clause(clause))
    }
}

/// Builds `field(op)`.
fn build_field(field: &str, cond: &str) -> (r: String)
    ensures
        r@ == normalized_field(field@, cond@),
{
    let mut out: Vec<char> = str_to_chars(field);
    let open = str_to_chars("(");
    let cv = str_to_chars(cond);
    let close = str_to_chars(")");
    push_all(&mut out, &open);
    push_all(&mut out, &cv);
    push_all(&mut out, &close);
    chars_to_string(&out)
}

/// Parses one filter clause.
pub fn parse_filter_clause(clause: &str) -> (r: Result<(String, String), String>)
    ensures
        (r is Ok) == (parse_filter_clause_spec(clause@) is Ok),
        r is Ok ==> (r->Ok_0).0@ == (parse_filter_clause_spec(clause@)->Ok_0).0,
        r is Ok ==> (r->Ok_0).1@ == (parse_filter_clause_spec(clause@)->Ok_0).1,
        r is Err ==> r->Err_0@ == parse_filter_clause_spec(clause@)->Err_0,
{
    let chars = str_to_chars(clause);
    let words = split_whitespace_chars(&chars);
    proof {
        assert(words.deep_view() == split_ws_spec(clause@));
        if words@.len() > 0 {
            assert(words.deep_view()[0] == words@[0]@);
        }
        if words@.len() > 1 {
            assert(words.deep_view()[1] == words@[1]@);
        }
        if words@.len() > 2 {
            assert(words.deep_view()[2] == words@[2]@);
        }
    }
    if words.len() == 3 {
        match get_condition(words[1].as_str()) {
            Some(cond) => Ok((build_field(words[0].as_str(), cond), words[2].clone())),
            None => {
                let mut msg = str_to_chars("Invalid condition '");
                let c1 = str_to_chars(words[1].as_str());
                let mid = str_to_chars("' for field '");
                let c0 = str_to_chars(words[0].as_str());
                let tail = str_to_chars("'");
                push_all(&mut msg, &c1);
                push_all(&mut msg, &mid);
                push_all(&mut msg, &c0);
                push_all(&mut msg, &tail);
                Err(chars_to_string(&msg))
            },
        }
    } else if words.len() == 2 {
        proof {
            reveal_strlit("eq");
        }
        Ok((build_field(words[0].as_str(), "eq"), words[1].clone()))
    } else {
        let mut msg = str_to_chars("Invalid filter clause: '");
        let cv = str_to_chars(clause);
        let tail = str_to_chars("'");
        push_all(&mut msg, &cv);
        push_all(&mut msg, &tail);
        Err(chars_to_string(&msg))
    }
}

/// Parsing a list of clause segments, fail-fast and in order, skipping
/// segments that trim to nothing.
pub open spec fn parse_clauses_spec(segs: Seq<Seq<char>>) -> Result<
    Seq<(Seq<char>, Seq<char>)>,
    Seq<char>,
>
    decreases segs.len(),
{
    if segs.len() == 0 {
        Ok(Seq::<(Seq<char>, Seq<char>)>::empty())
    } else {
        let t = trim_spec(segs[0]);
        if t.len() == 0 {
            parse_clauses_spec(segs.drop_first())
        } else {
            match parse_filter_clause_spec(t) {
                Err(e) => Err(e),
                Ok(p) => match parse_clauses_spec(segs.drop_first()) {
                    Err(e) => Err(e),
                    Ok(rest) => Ok(seq![p] + rest),
                },
            }
        }
    }
}

/// What the whole filter window parses to: the tokens joined by spaces,
/// split on commas, each surviving clause parsed independently.
pub open spec fn parse_filters_spec(args: Seq<Seq<char>>) -> Result<
    Seq<(Seq<char>, Seq<char>)>,
    Seq<char>,
> {
    parse_clauses_spec(split_char_spec(join_spec(args, " "@), ','))
}

/// Parses the filter window into normalized `(field(op), value)` pairs.
/// All clauses must parse: the first failure aborts the list.
pub fn parse_filters(args: &[String]) -> (r: Result<Vec<(String, String)>, String>)
    ensures
        (r is Ok) == (parse_filters_spec(args.deep_view()) is Ok),
        r is Ok ==> (r->Ok_0).deep_view() == parse_filters_spec(args.deep_view())->Ok_0,
        r is Err ==> r->Err_0@ == parse_filters_spec(args.deep_view())->Err_0,
{
    let joined = crate::text::join_strings(args, " ");
    let joined_chars = str_to_chars(joined.as_str());
    let segs: Vec<Vec<char>> = split_on_char(&joined_chars, ',');
    let ghost segs_spec = split_char_spec(join_spec(args.deep_view(), " "@), ',');
    proof {
        assert(segs.deep_view() == segs_spec);
    }
    let mut out: Vec<(String, String)> = Vec::new();
    let n: usize = segs.len();
    let mut i: usize = 0;
    proof {
        assert(segs_spec.skip(0) =~= segs_spec);
    }
    while i < n
        invariant
            i <= n,
            n == segs@.len(),
            segs.deep_view() == segs_spec,
            segs.deep_view().len() == n,
            segs_spec == split_char_spec(join_spec(args.deep_view(), " "@), ','),
            parse_clauses_spec(segs_spec) == match parse_clauses_spec(
                segs_spec.skip(i as int),
            ) {
                Ok(rest) => Ok::<Seq<(Seq<char>, Seq<char>)>, Seq<char>>(out.deep_view() + rest),
                Err(e) => Err(e),
            },
        decreases n - i,
    {
        let trimmed = trim_chars(&segs[i]);
        proof {
            let tail = segs_spec.skip(i as int);
            assert(tail[0] == segs_spec[i as int]);
            assert(segs@[i as int].deep_view() =~= segs@[i as int]@);
            assert(segs_spec[i as int] == segs@[i as int]@);
            assert(tail.drop_first() =~= segs_spec.skip(i + 1));
        }
        if trimmed.len() > 0 {
            let clause = chars_to_string(&trimmed);
            match parse_filter_clause(clause.as_str()) {
                Ok(p) => {
                    let ghost prev = out.deep_view();
                    out.push(p);
                    proof {
                        assert(out.deep_view() =~~= prev + seq![
                            (p.0@, p.1@),
                        ]);
                        if parse_clauses_spec(segs_spec.skip(i + 1)) is Ok {
                            assert(prev + (seq![(p.0@, p.1@)] + parse_clauses_spec(
                                segs_spec.skip(i + 1),
                            )->Ok_0) =~= (prev + seq![(p.0@, p.1@)]) + parse_clauses_spec(
                                segs_spec.skip(i + 1),
                            )->Ok_0);
                        }
                    }
                },
                Err(e) => {
                    proof {
                        let tail = segs_spec.skip(i as int);
                        assert(trim_spec(tail[0]) == trimmed@);
                        assert(clause@ == trimmed@);
                        assert(parse_filter_clause_spec(trim_spec(tail[0])) is Err);
                        assert(parse_clauses_spec(tail) == Err::<
                            Seq<(Seq<char>, Seq<char>)>,
                            Seq<char>,
                        >(e@));
                    }
                    return Err(e);
                },
            }
        }
        i = i + 1;
    }
    proof {
        assert(segs_spec.skip(n as int) =~= Seq::<Seq<char>>::empty());
        assert(out.deep_view() + Seq::<(Seq<char>, Seq<char>)>::empty() =~= out.deep_view());
    }
    Ok(out)
}

} // verus!
