//! A JSON-like value tree and dot-separated path resolution against it,
//! used by callers to sort and crop response records.
use vstd::prelude::*;
use crate::text::{split_char_spec, str_eq, str_to_chars};

verus! {

/// A JSON-like value: the tree shape this crate's path resolver walks.
/// Object members keep their order; lookup takes the first member with a
/// matching name.
#[derive(Debug, PartialEq)]
pub enum JsonValue {
    Null,
    Bool(bool),
    Int(i64),
    Str(String),
    Arr(Vec<JsonValue>),
    Obj(Vec<(String, JsonValue)>),
}

/// The first member of `fields` named `key`.
pub open spec fn lookup_fields(fields: Seq<(String, JsonValue)>, key: Seq<char>) -> Option<
    JsonValue,
>
    decreases fields.len(),
{
    if fields.len() == 0 {
        None
    } else if fields[0].0@ == key {
        Some(fields[0].1)
    } else {
        lookup_fields(fields.drop_first(), key)
    }
}

/// One lookup step: object members by name, nothing else.
pub open spec fn get_field(v: JsonValue, key: Seq<char>) -> Option<JsonValue> {
    match v {
        JsonValue::Obj(fields) => lookup_fields(fields@, key),
        _ => None,
    }
}

/// Walks a path component by component; absent as soon as a component is
/// missing or the node is not an object.
pub open spec fn path_lookup(v: JsonValue, path: Seq<Seq<char>>) -> Option<JsonValue>
    decreases path.len(),
{
    if path.len() == 0 {
        Some(v)
    } else {
        match get_field(v, path[0]) {
            None => None,
            Some(w) => path_lookup(w, path.drop_first()),
        }
    }
}

/// Resolves a dot-separated key path against a value tree, yielding the
/// sub-value at that path or nothing when any component is absent.
pub fn get_nested_value<'a>(value: &'a JsonValue, key: &str) -> (r: Option<&'a JsonValue>)
    ensures
        (r is Some) == (path_lookup(*value, split_char_spec(key@, '.')) is Some),
        r is Some ==> Some(*r->0) == path_lookup(*value, split_char_spec(key@, '.')),
{
    let key_chars = str_to_chars(key);
    let segs: Vec<Vec<char>> = crate::text::split_on_char(&key_chars, '.');
    let ghost path = split_char_spec(key@, '.');
    let mut cur: &JsonValue = value;
    let n: usize = segs.len();
    let mut i: usize = 0;
    proof {
        assert(path.skip(0) =~= path);
    }
    while i < n
        invariant
            i <= n,
            n == segs@.len(),
            segs.deep_view() == path,
            path == split_char_spec(key@, '.'),
            path_lookup(*value, path) == path_lookup(*cur, path.skip(i as int)),
        decreases n - i,
    {
        proof {
            let tail = path.skip(i as int);
            assert(tail[0] == path[i as int]);
            assert(segs@[i as int].deep_view() =~= segs@[i as int]@);
            assert(tail.drop_first() =~= path.skip(i + 1));
        }
        let seg: String = crate::text::chars_to_string(&segs[i]);
        match cur {
            JsonValue::Obj(fields) => {
                match find_field(fields, seg.as_str()) {
                    Some(w) => {
                        cur = w;
                    },
                    None => {
                        return None;
                    },
                }
            },
            _ => {
                return None;
            },
        }
        i = i + 1;
    }
    proof {
        assert(path.skip(n as int) =~= Seq::<Seq<char>>::empty());
    }
    Some(cur)
}

/// The first member of `fields` named `key`, by linear search.
fn find_field<'a>(fields: &'a Vec<(String, JsonValue)>, key: &str) -> (r: Option<&'a JsonValue>)
    ensures
        (r is Some) == (lookup_fields(fields@, key@) is Some),
        r is Some ==> Some(*r->0) == lookup_fields(fields@, key@),
{
    let m: usize = fields.len();
    let mut j: usize = 0;
    while j < m
        invariant
            j <= m,
            m == fields@.len(),
            forall|k: int| 0 <= k < j ==> fields@[k].0@ != key@,
        decreases m - j,
    {
        if str_eq(fields[j].0.as_str(), key) {
            proof {
                lemma_lookup_fields_at(fields@, key@, j as int);
            }
            return Some(&fields[j].1);
        }
        j = j + 1;
    }
    proof {
        lemma_lookup_fields_none(fields@, key@);
    }
    None
}

proof fn lemma_lookup_fields_at(fields: Seq<(String, JsonValue)>, key: Seq<char>, j: int)
    requires
        0 <= j < fields.len(),
        fields[j].0@ == key,
        forall|k: int| 0 <= k < j ==> fields[k].0@ != key,
    ensures
        lookup_fields(fields, key) == Some(fields[j].1),
    decreases j,
{
    if j > 0 {
        lemma_lookup_fields_at(fields.drop_first(), key, j - 1);
    }
}

proof fn lemma_lookup_fields_none(fields: Seq<(String, JsonValue)>, key: Seq<char>)
    requires
        forall|k: int| 0 <= k < fields.len() ==> fields[k].0@ != key,
    ensures
        lookup_fields(fields, key) is None,
    decreases fields.len(),
{
    if fields.len() > 0 {
        lemma_lookup_fields_none(fields.drop_first(), key);
    }
}

} // verus!
