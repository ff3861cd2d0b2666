//! Character-level utilities: the string model the rest of the crate builds
//! on.  Strings are reasoned about through their views (`Seq<char>`); the
//! executable code works on `Vec<char>` and converts at the edges.
use vstd::prelude::*;

verus! {

/// Whitespace as this crate's tokenizer understands it.
pub open spec fn is_ws(c: char) -> bool {
    c == ' ' || c == '\t' || c == '\n' || c == '\r'
}

/// ASCII decimal digit.
pub open spec fn is_digit(c: char) -> bool {
    48 <= c as u32 && c as u32 <= 57
}

/// Numeric value of an ASCII digit.
pub open spec fn digit_val(c: char) -> nat {
    (c as u32 - 48) as nat
}

/// ASCII letter.
pub open spec fn is_letter(c: char) -> bool {
    (65 <= c as u32 && c as u32 <= 90) || (97 <= c as u32 && c as u32 <= 122)
}

/// A word character in the sense of the date-pattern scanner: letters,
/// digits and the underscore.
pub open spec fn is_word_char(c: char) -> bool {
    is_letter(c) || is_digit(c) || c == '_'
}

pub fn is_ws_char(c: char) -> (r: bool)
    ensures
        r == is_ws(c),
{
    c == ' ' || c == '\t' || c == '\n' || c == '\r'
}

pub fn is_digit_char(c: char) -> (r: bool)
    ensures
        r == is_digit(c),
{
    let u: u32 = c as u32;
    48 <= u && u <= 57
}

pub fn digit_char_val(c: char) -> (r: u32)
    requires
        is_digit(c),
    ensures
        r == digit_val(c),
{
    c as u32 - 48
}

pub fn is_letter_char(c: char) -> (r: bool)
    ensures
        r == is_letter(c),
{
    let u: u32 = c as u32;
    (65 <= u && u <= 90) || (97 <= u && u <= 122)
}

pub fn is_word_char_char(c: char) -> (r: bool)
    ensures
        r == is_word_char(c),
{
    is_letter_char(c) || is_digit_char(c) || c == '_'
}

/// The characters of a string as a vector, in order.
pub fn str_to_chars(s: &str) -> (v: Vec<char>)
    ensures
        v@ == s@,
{
    let n: usize = s.unicode_len();
    let mut v: Vec<char> = Vec::new();
    let mut i: usize = 0;
    while i < n
        invariant
            i <= n,
            n == s@.len(),
            v@ == s@.subrange(0, i as int),
        decreases n - i,
    {
        v.push(s.get_char(i));
        i = i + 1;
        proof {
            assert(v@ =~= s@.subrange(0, i as int));
        }
    }
    proof {
        assert(v@ =~= s@);
    }
    v
}

/// Relies on `String`'s `FromIterator` over characters: collecting an
/// in-order character iterator yields the string of exactly those characters.
#[verifier::external_body]
pub fn chars_to_string(v: &Vec<char>) -> (s: String)
    ensures
        s@ == v@,
{
    v.iter().collect()
}

/// String equality, decided character by character.
pub fn str_eq(a: &str, b: &str) -> (r: bool)
    ensures
        r == (a@ == b@),
{
    let na: usize = a.unicode_len();
    let nb: usize = b.unicode_len();
    if na != nb {
        return false;
    }
    let mut i: usize = 0;
    while i < na
        invariant
            i <= na,
            na == a@.len(),
            na == b@.len(),
            forall|j: int| 0 <= j < i ==> a@[j] == b@[j],
        decreases na - i,
    {
        if a.get_char(i) != b.get_char(i) {
            return false;
        }
        i = i + 1;
    }
    proof {
        assert(a@ =~= b@);
    }
    true
}

/// Does `pat` occur in `s` starting at index `i`?
pub open spec fn occurs_at(s: Seq<char>, pat: Seq<char>, i: int) -> bool {
    0 <= i && i + pat.len() <= s.len() && s.subrange(i, i + pat.len()) == pat
}

/// Does `pat` occur anywhere in `s`?
pub open spec fn contains_seq(s: Seq<char>, pat: Seq<char>) -> bool {
    exists|i: int| occurs_at(s, pat, i)
}

/// Leftmost, non-overlapping replacement of every occurrence of `from` in `s`
/// by `to`; the search continues after each replaced occurrence.
pub open spec fn replace_all_spec(s: Seq<char>, from: Seq<char>, to: Seq<char>) -> Seq<char>
    decreases s.len(),
{
    if from.len() == 0 || s.len() < from.len() {
        s
    } else if s.subrange(0, from.len() as int) == from {
        to + replace_all_spec(s.skip(from.len() as int), from, to)
    } else {
        seq![s[0]] + replace_all_spec(s.skip(1), from, to)
    }
}

/// A string without an occurrence of `from` is left unchanged.
pub proof fn lemma_replace_all_absent(s: Seq<char>, from: Seq<char>, to: Seq<char>)
    requires
        from.len() > 0,
        !contains_seq(s, from),
    ensures
        replace_all_spec(s, from, to) == s,
    decreases s.len(),
{
    if s.len() >= from.len() {
        assert(s.subrange(0, from.len() as int) != from) by {
            if s.subrange(0, from.len() as int) == from {
                assert(occurs_at(s, from, 0));
            }
        }
        assert(!contains_seq(s.skip(1), from)) by {
            if contains_seq(s.skip(1), from) {
                let i = choose|i: int| occurs_at(s.skip(1), from, i);
                assert(s.subrange(i + 1, i + 1 + from.len()) =~= s.skip(1).subrange(
                    i,
                    i + from.len(),
                ));
                assert(occurs_at(s, from, i + 1));
            }
        }
        lemma_replace_all_absent(s.skip(1), from, to);
        assert(seq![s[0]] + s.skip(1) =~= s);
    }
}

/// If every character of `s` satisfies `in_set` and some character of `from`
/// does not, then `from` does not occur in `s`.
pub proof fn lemma_no_occurrence_outside_charset(
    s: Seq<char>,
    from: Seq<char>,
    in_set: spec_fn(char) -> bool,
    j: int,
)
    requires
        forall|i: int| 0 <= i < s.len() ==> in_set(s[i]),
        0 <= j < from.len(),
        !in_set(from[j]),
    ensures
        !contains_seq(s, from),
{
    if contains_seq(s, from) {
        let i = choose|i: int| occurs_at(s, from, i);
        assert(s.subrange(i, i + from.len())[j] == s[i + j]);
    }
}

/// Whether `pat` occurs in `s` at position `i`, decided by comparing
/// characters.
pub fn starts_with_at(s: &Vec<char>, i: usize, pat: &Vec<char>) -> (r: bool)
    requires
        i <= s@.len(),
    ensures
        r == occurs_at(s@, pat@, i as int),
{
    if pat.len() > s.len() - i {
        return false;
    }
    let mut k: usize = 0;
    while k < pat.len()
        invariant
            k <= pat@.len(),
            i + pat@.len() <= s@.len(),
            s@.len() <= usize::MAX,
            forall|j: int| 0 <= j < k ==> s@[i + j] == pat@[j],
        decreases pat@.len() - k,
    {
        if s[i + k] != pat[k] {
            proof {
                assert(s@.subrange(i as int, i + pat@.len())[k as int] == s@[i + k]);
            }
            return false;
        }
        k = k + 1;
    }
    proof {
        assert(s@.subrange(i as int, i + pat@.len()) =~= pat@);
    }
    true
}

/// Replaces every occurrence of `from` in `s` by `to`, leftmost first and
/// without overlap.
pub fn replace_all(s: &Vec<char>, from: &Vec<char>, to: &Vec<char>) -> (r: Vec<char>)
    ensures
        r@ == replace_all_spec(s@, from@, to@),
{
    if from.len() == 0 {
        let mut out: Vec<char> = Vec::new();
        push_all(&mut out, s);
        return out;
    }
    let mut out: Vec<char> = Vec::new();
    let mut i: usize = 0;
    proof {
        assert(s@.skip(0) =~= s@);
        assert(Seq::<char>::empty() + replace_all_spec(s@, from@, to@) =~= replace_all_spec(
            s@,
            from@,
            to@,
        ));
    }
    while i < s.len()
        invariant
            i <= s@.len(),
            from@.len() > 0,
            replace_all_spec(s@, from@, to@) == out@ + replace_all_spec(
                s@.skip(i as int),
                from@,
                to@,
            ),
        decreases s@.len() - i,
    {
        if starts_with_at(s, i, from) {
            push_all(&mut out, to);
            proof {
                assert(s@.skip(i as int).subrange(0, from@.len() as int) =~= s@.subrange(
                    i as int,
                    i + from@.len(),
                ));
                assert(s@.skip(i as int).skip(from@.len() as int) =~= s@.skip(
                    i + from@.len(),
                ));
            }
            i = i + from.len();
        } else {
            out.push(s[i]);
            proof {
                if s@.skip(i as int).len() >= from@.len() {
                    assert(s@.skip(i as int).subrange(0, from@.len() as int) =~= s@.subrange(
                        i as int,
                        i + from@.len(),
                    ));
                }
                assert(s@.skip(i as int).skip(1) =~= s@.skip(i + 1));
                assert(seq![s@.skip(i as int)[0]] =~= seq![s@[i as int]]);
            }
            i = i + 1;
        }
    }
    proof {
        assert(s@.skip(i as int) =~= Seq::<char>::empty());
        assert(out@ + Seq::<char>::empty() =~= out@);
    }
    out
}

/// Appends every character of `src` to `dst`.
pub fn push_all(dst: &mut Vec<char>, src: &Vec<char>)
    ensures
        final(dst)@ == old(dst)@ + src@,
{
    let mut i: usize = 0;
    while i < src.len()
        invariant
            i <= src@.len(),
            dst@ == old(dst)@ + src@.subrange(0, i as int),
        decreases src@.len() - i,
    {
        dst.push(src[i]);
        i = i + 1;
        proof {
            assert(dst@ =~= old(dst)@ + src@.subrange(0, i as int));
        }
    }
    proof {
        assert(dst@ =~= old(dst)@ + src@);
    }
}

/// The maximal whitespace-free words of `s`, in order.
pub open spec fn split_ws_spec(s: Seq<char>) -> Seq<Seq<char>>
    decreases s.len(),
{
    if s.len() == 0 {
        Seq::<Seq<char>>::empty()
    } else if is_ws(s[0]) {
        split_ws_spec(s.drop_first())
    } else {
        let rest = split_ws_spec(s.drop_first());
        if s.len() > 1 && !is_ws(s[1]) {
            seq![seq![s[0]] + rest[0]] + rest.drop_first()
        } else {
            seq![seq![s[0]]] + rest
        }
    }
}

/// Peels the first word off `split_ws_spec` when its extent is known.
pub proof fn lemma_split_ws_word(s: Seq<char>, k: int)
    requires
        1 <= k <= s.len(),
        forall|i: int| 0 <= i < k ==> !is_ws(s[i]),
        k == s.len() || is_ws(s[k]),
    ensures
        split_ws_spec(s) == seq![s.take(k)] + split_ws_spec(s.skip(k)),
    decreases k,
{
    let rest = split_ws_spec(s.drop_first());
    if k == 1 {
        if s.len() > 1 {
            assert(is_ws(s[1]));
            assert(split_ws_spec(s) == seq![seq![s[0]]] + rest);
            assert(s.take(1) =~= seq![s[0]]);
            assert(s.skip(1) =~= s.drop_first());
        } else {
            assert(s.take(1) =~= seq![s[0]]);
            assert(s.skip(1) =~= s.drop_first());
        }
    } else {
        assert(!is_ws(s[1]));
        lemma_split_ws_word(s.drop_first(), k - 1);
        assert(s.drop_first().take(k - 1) =~= s.subrange(1, k));
        assert(s.drop_first().skip(k - 1) =~= s.skip(k));
        assert(rest == seq![s.subrange(1, k)] + split_ws_spec(s.skip(k)));
        assert(seq![s[0]] + rest[0] =~= s.take(k));
        assert(rest.drop_first() =~= split_ws_spec(s.skip(k)));
    }
}

/// Splits `chars` into its whitespace-separated words.
pub fn split_whitespace_chars(s: &Vec<char>) -> (r: Vec<String>)
    ensures
        r.deep_view() == split_ws_spec(s@),
{
    let n: usize = s.len();
    let mut out: Vec<String> = Vec::new();
    let mut i: usize = 0;
    proof {
        assert(s@.skip(0) =~= s@);
        assert(out.deep_view() + split_ws_spec(s@) =~= split_ws_spec(s@));
    }
    while i < n
        invariant
            i <= n,
            n == s@.len(),
            split_ws_spec(s@) == out.deep_view() + split_ws_spec(s@.skip(i as int)),
        decreases s@.len() - i,
    {
        if is_ws_char(s[i]) {
            proof {
                assert(s@.skip(i as int).drop_first() =~= s@.skip(i + 1));
            }
            i = i + 1;
        } else {
            let mut j: usize = i + 1;
            while j < n && !is_ws_char(s[j])
                invariant
                    i < j <= n,
                    n == s@.len(),
                    forall|m: int| i <= m < j ==> !is_ws(s@[m]),
                decreases s@.len() - j,
            {
                j = j + 1;
            }
            let mut word: Vec<char> = Vec::new();
            let mut m: usize = i;
            while m < j
                invariant
                    i <= m <= j <= s@.len(),
                    word@ == s@.subrange(i as int, m as int),
                decreases j - m,
            {
                word.push(s[m]);
                m = m + 1;
                proof {
                    assert(word@ =~= s@.subrange(i as int, m as int));
                }
            }
            let ghost old_out = out.deep_view();
            out.push(chars_to_string(&word));
            proof {
                lemma_split_ws_word(s@.skip(i as int), j - i);
                assert(s@.skip(i as int).take(j - i) =~= s@.subrange(i as int, j as int));
                assert(s@.skip(i as int).skip(j - i) =~= s@.skip(j as int));
                assert(out.deep_view() =~~= old_out + seq![word@]);
                assert(out.deep_view() + split_ws_spec(s@.skip(j as int)) =~~= old_out + (seq![
                    s@.skip(i as int).take(j - i),
                ] + split_ws_spec(s@.skip(i as int).skip(j - i))));
            }
            i = j;
        }
    }
    proof {
        assert(s@.skip(i as int) =~= Seq::<char>::empty());
        assert(out.deep_view() + Seq::<Seq<char>>::empty() =~= out.deep_view());
    }
    out
}

/// The segments of `s` between occurrences of the separator `sep`; empty
/// segments are kept, and an empty input yields one empty segment.
pub open spec fn split_char_spec(s: Seq<char>, sep: char) -> Seq<Seq<char>>
    decreases s.len(),
{
    if s.len() == 0 {
        seq![Seq::<char>::empty()]
    } else if s[0] == sep {
        seq![Seq::<char>::empty()] + split_char_spec(s.drop_first(), sep)
    } else {
        let rest = split_char_spec(s.drop_first(), sep);
        seq![seq![s[0]] + rest[0]] + rest.drop_first()
    }
}

/// `split_char_spec` always yields at least one segment.
pub proof fn lemma_split_char_len(s: Seq<char>, sep: char)
    ensures
        split_char_spec(s, sep).len() >= 1,
    decreases s.len(),
{
    if s.len() > 0 && s[0] != sep {
        lemma_split_char_len(s.drop_first(), sep);
    }
}

/// Peels the first segment off `split_char_spec` when its extent is known.
pub proof fn lemma_split_char_seg(s: Seq<char>, sep: char, k: int)
    requires
        0 <= k <= s.len(),
        forall|i: int| 0 <= i < k ==> s[i] != sep,
        k == s.len() || s[k] == sep,
    ensures
        k == s.len() ==> split_char_spec(s, sep) == seq![s],
        k < s.len() ==> split_char_spec(s, sep) == seq![s.take(k)] + split_char_spec(
            s.skip(k + 1),
            sep,
        ),
    decreases k,
{
    if k == 0 {
        if s.len() == 0 {
            assert(split_char_spec(s, sep) =~~= seq![s]);
        } else {
            assert(s[0] == sep);
            assert(s.take(0) =~= Seq::<char>::empty());
            assert(s.skip(1) =~= s.drop_first());
        }
    } else {
        lemma_split_char_seg(s.drop_first(), sep, k - 1);
        let rest = split_char_spec(s.drop_first(), sep);
        if k == s.len() {
            assert(rest == seq![s.drop_first()]);
            assert(seq![s[0]] + rest[0] =~= s);
            assert(split_char_spec(s, sep) =~= seq![s]);
        } else {
            assert(s.drop_first().take(k - 1) =~= s.subrange(1, k));
            assert(s.drop_first().skip(k) =~= s.skip(k + 1));
            assert(rest == seq![s.subrange(1, k)] + split_char_spec(s.skip(k + 1), sep));
            assert(seq![s[0]] + rest[0] =~= s.take(k));
            assert(rest.drop_first() =~= split_char_spec(s.skip(k + 1), sep));
        }
    }
}

/// Splits `chars` at every occurrence of `sep`, keeping empty segments.
pub fn split_on_char(s: &Vec<char>, sep: char) -> (r: Vec<Vec<char>>)
    ensures
        r.deep_view() == split_char_spec(s@, sep),
{
    let n: usize = s.len();
    let mut out: Vec<Vec<char>> = Vec::new();
    let mut start: usize = 0;
    let mut j: usize = 0;
    proof {
        assert(s@.skip(0) =~= s@);
        assert(out.deep_view() + split_char_spec(s@, sep) =~= split_char_spec(s@, sep));
    }
    while j < n
        invariant
            start <= j <= n,
            n == s@.len(),
            forall|m: int| start <= m < j ==> s@[m] != sep,
            split_char_spec(s@, sep) == out.deep_view() + split_char_spec(
                s@.skip(start as int),
                sep,
            ),
        decreases s@.len() - j,
    {
        if s[j] == sep {
            let mut seg: Vec<char> = Vec::new();
            let mut m: usize = start;
            while m < j
                invariant
                    start <= m <= j <= s@.len(),
                    seg@ == s@.subrange(start as int, m as int),
                decreases j - m,
            {
                seg.push(s[m]);
                m = m + 1;
                proof {
                    assert(seg@ =~= s@.subrange(start as int, m as int));
                }
            }
            let ghost old_out = out.deep_view();
            out.push(seg);
            proof {
                lemma_split_char_seg(s@.skip(start as int), sep, j - start);
                assert(s@.skip(start as int).take(j - start) =~= s@.subrange(
                    start as int,
                    j as int,
                ));
                assert(s@.skip(start as int).skip(j - start + 1) =~= s@.skip(j + 1));
                assert(out.deep_view() =~~= old_out + seq![s@.subrange(start as int, j as int)]);
                assert(out.deep_view() + split_char_spec(s@.skip(j + 1), sep) =~~= old_out
                    + (seq![s@.skip(start as int).take(j - start)] + split_char_spec(
                    s@.skip(start as int).skip(j - start + 1),
                    sep,
                )));
            }
            start = j + 1;
            j = j + 1;
        } else {
            j = j + 1;
        }
    }
    let mut seg: Vec<char> = Vec::new();
    let mut m: usize = start;
    while m < j
        invariant
            start <= m <= j <= s@.len(),
            j == s@.len(),
            seg@ == s@.subrange(start as int, m as int),
        decreases j - m,
    {
        seg.push(s[m]);
        m = m + 1;
        proof {
            assert(seg@ =~= s@.subrange(start as int, m as int));
        }
    }
    let ghost old_out = out.deep_view();
    out.push(seg);
    proof {
        lemma_split_char_seg(s@.skip(start as int), sep, s@.len() - start);
        assert(s@.skip(start as int) =~= s@.subrange(start as int, s@.len() as int));
        assert(out.deep_view() =~~= old_out + seq![s@.subrange(start as int, s@.len() as int)]);
    }
    out
}

/// Count of whitespace characters at the front of `s`.
pub open spec fn leading_ws_count(s: Seq<char>) -> nat
    decreases s.len(),
{
    if s.len() == 0 || !is_ws(s[0]) {
        0
    } else {
        1 + leading_ws_count(s.drop_first())
    }
}

/// Count of whitespace characters at the back of `s`.
pub open spec fn trailing_ws_count(s: Seq<char>) -> nat
    decreases s.len(),
{
    if s.len() == 0 || !is_ws(s.last()) {
        0
    } else {
        1 + trailing_ws_count(s.drop_last())
    }
}

/// `s` with leading and trailing whitespace removed.
pub open spec fn trim_spec(s: Seq<char>) -> Seq<char> {
    if leading_ws_count(s) == s.len() {
        Seq::<char>::empty()
    } else {
        s.subrange(leading_ws_count(s) as int, s.len() - trailing_ws_count(s))
    }
}

pub proof fn lemma_leading_ws_is(s: Seq<char>, k: int)
    requires
        0 <= k <= s.len(),
        forall|i: int| 0 <= i < k ==> is_ws(s[i]),
        k == s.len() || !is_ws(s[k]),
    ensures
        leading_ws_count(s) == k,
    decreases k,
{
    if k > 0 {
        lemma_leading_ws_is(s.drop_first(), k - 1);
    }
}

pub proof fn lemma_trailing_ws_is(s: Seq<char>, k: int)
    requires
        0 <= k <= s.len(),
        forall|i: int| s.len() - k <= i < s.len() ==> is_ws(s[i]),
        k == s.len() || !is_ws(s[s.len() - k - 1]),
    ensures
        trailing_ws_count(s) == k,
    decreases k,
{
    if k > 0 {
        assert(is_ws(s.last()));
        lemma_trailing_ws_is(s.drop_last(), k - 1);
    }
}

/// `chars` with leading and trailing whitespace removed.
pub fn trim_chars(s: &Vec<char>) -> (r: Vec<char>)
    ensures
        r@ == trim_spec(s@),
{
    let n: usize = s.len();
    let mut a: usize = 0;
    while a < n && is_ws_char(s[a])
        invariant
            a <= n,
            n == s@.len(),
            forall|i: int| 0 <= i < a ==> is_ws(s@[i]),
        decreases n - a,
    {
        a = a + 1;
    }
    proof {
        lemma_leading_ws_is(s@, a as int);
    }
    if a == n {
        let out: Vec<char> = Vec::new();
        return out;
    }
    let mut b: usize = n;
    while b > a && is_ws_char(s[b - 1])
        invariant
            a <= b <= n,
            n == s@.len(),
            forall|i: int| b <= i < n ==> is_ws(s@[i]),
        decreases b,
    {
        b = b - 1;
    }
    proof {
        assert(!is_ws(s@[a as int]));
        assert(b > a);
        assert(!is_ws(s@[b - 1]));
        lemma_trailing_ws_is(s@, n - b);
    }
    let mut out: Vec<char> = Vec::new();
    let mut m: usize = a;
    while m < b
        invariant
            a <= m <= b <= s@.len(),
            out@ == s@.subrange(a as int, m as int),
        decreases b - m,
    {
        out.push(s[m]);
        m = m + 1;
        proof {
            assert(out@ =~= s@.subrange(a as int, m as int));
        }
    }
    out
}

/// The nonnegative integer denoted by a sequence of decimal digits, most
/// significant first.
pub open spec fn seq_to_nat(s: Seq<char>) -> nat
    decreases s.len(),
{
    if s.len() == 0 {
        0
    } else {
        seq_to_nat(s.drop_last()) * 10 + digit_val(s.last())
    }
}

/// A nonempty, all-digit sequence.
pub open spec fn is_numeral(s: Seq<char>) -> bool {
    s.len() > 0 && forall|i: int| 0 <= i < s.len() ==> is_digit(s[i])
}

pub proof fn lemma_seq_to_nat_prefix_le(s: Seq<char>, i: int)
    requires
        0 <= i <= s.len(),
    ensures
        seq_to_nat(s.take(i)) <= seq_to_nat(s),
    decreases s.len() - i,
{
    if i == s.len() {
        assert(s.take(i) =~= s);
    } else {
        lemma_seq_to_nat_prefix_le(s, i + 1);
        assert(s.take(i + 1).drop_last() =~= s.take(i));
        assert(seq_to_nat(s.take(i + 1)) == seq_to_nat(s.take(i)) * 10 + digit_val(
            s.take(i + 1).last(),
        ));
    }
}

/// Parses a whole token as a nonnegative integer: succeeds exactly on
/// nonempty all-digit tokens whose value fits in `usize`.
pub fn parse_usize_token(s: &str) -> (r: Option<usize>)
    ensures
        r is Some <==> is_numeral(s@) && seq_to_nat(s@) <= usize::MAX,
        r is Some ==> r->0 == seq_to_nat(s@),
{
    let n: usize = s.unicode_len();
    if n == 0 {
        return None;
    }
    let mut acc: usize = 0;
    let mut i: usize = 0;
    while i < n
        invariant
            0 < n == s@.len(),
            i <= n,
            forall|j: int| 0 <= j < i ==> is_digit(s@[j]),
            acc == seq_to_nat(s@.take(i as int)),
        decreases n - i,
    {
        let c = s.get_char(i);
        if !is_digit_char(c) {
            return None;
        }
        let d: u32 = digit_char_val(c);
        let step: Option<usize> = match acc.checked_mul(10) {
            Some(x) => x.checked_add(d as usize),
            None => None,
        };
        proof {
            assert(s@.take(i + 1).drop_last() =~= s@.take(i as int));
            assert(s@.take(i + 1).last() == c);
            assert(seq_to_nat(s@.take(i + 1)) == seq_to_nat(s@.take(i as int)) * 10 + digit_val(
                c,
            ));
        }
        match step {
            Some(v) => {
                acc = v;
            },
            None => {
                proof {
                    lemma_seq_to_nat_prefix_le(s@, i + 1);
                }
                return None;
            },
        }
        i = i + 1;
    }
    proof {
        assert(s@.take(n as int) =~= s@);
    }
    Some(acc)
}

/// The parts joined by `sep`: no separator around an empty part list, none
/// at the ends.
pub open spec fn join_spec(parts: Seq<Seq<char>>, sep: Seq<char>) -> Seq<char>
    decreases parts.len(),
{
    if parts.len() == 0 {
        Seq::<char>::empty()
    } else if parts.len() == 1 {
        parts[0]
    } else {
        parts[0] + sep + join_spec(parts.drop_first(), sep)
    }
}

pub proof fn lemma_join_push(parts: Seq<Seq<char>>, sep: Seq<char>, x: Seq<char>)
    requires
        parts.len() >= 1,
    ensures
        join_spec(parts.push(x), sep) == join_spec(parts, sep) + sep + x,
    decreases parts.len(),
{
    let p = parts.push(x);
    assert(p.drop_first() =~= parts.drop_first().push(x));
    if parts.len() == 1 {
        assert(p.drop_first() =~= seq![x]);
        assert(join_spec(p, sep) == parts[0] + sep + x);
    } else {
        lemma_join_push(parts.drop_first(), sep, x);
        assert(join_spec(p, sep) == p[0] + sep + join_spec(parts.drop_first().push(x), sep));
        assert(parts[0] + sep + (join_spec(parts.drop_first(), sep) + sep + x) =~= (parts[0] + sep
            + join_spec(parts.drop_first(), sep)) + sep + x);
    }
}

/// Joins `parts` with the separator `sep`.
pub fn join_strings(parts: &[String], sep: &str) -> (r: String)
    ensures
        r@ == join_spec(parts.deep_view(), sep@),
{
    let sep_chars = str_to_chars(sep);
    let mut acc: Vec<char> = Vec::new();
    let mut k: usize = 0;
    while k < parts.len()
        invariant
            k <= parts.deep_view().len(),
            parts.deep_view().len() == parts@.len(),
            sep_chars@ == sep@,
            k == 0 ==> acc@ == Seq::<char>::empty(),
            k >= 1 ==> acc@ == join_spec(parts.deep_view().take(k as int), sep@),
        decreases parts@.len() - k,
    {
        if k > 0 {
            push_all(&mut acc, &sep_chars);
        }
        let part_chars = str_to_chars(parts[k].as_str());
        push_all(&mut acc, &part_chars);
        proof {
            let dv = parts.deep_view();
            assert(dv[k as int] == parts@[k as int]@);
            assert(dv.take(k + 1) =~= dv.take(k as int).push(dv[k as int]));
            if k == 0 {
                assert(dv.take(1) =~= seq![dv[0]]);
                assert(acc@ =~= dv[0]);
            } else {
                lemma_join_push(dv.take(k as int), sep@, dv[k as int]);
            }
        }
        k = k + 1;
    }
    proof {
        if parts@.len() == 0 {
            assert(acc@ =~= join_spec(parts.deep_view(), sep@));
        } else {
            assert(parts.deep_view().take(parts@.len() as int) =~= parts.deep_view());
        }
    }
    chars_to_string(&acc)
}

} // verus!
