//! Recognising a structured literal in a string: a cheap check for `(`, then a
//! split into tokens, each an optional `/` followed by a run of ASCII letters,
//! digits and dots.
use crate::decoder::{decode_at, decode_value_at, is_tag, words};
use crate::error::ConfigError;
use crate::number::Number;
use crate::values::Structured;
use vstd::prelude::*;
use vstd::string::StrSliceExecFns;

verus! {

pub open spec fn is_word_char(c: char) -> bool {
    ('a' <= c <= 'z') || ('A' <= c <= 'Z') || ('0' <= c <= '9') || c == '.'
}

/// The end of the run of word characters that starts at `k`.
pub open spec fn run_end(s: Seq<char>, k: int) -> int
    decreases s.len() - k,
{
    if 0 <= k < s.len() && is_word_char(s[k]) {
        run_end(s, k + 1)
    } else {
        k
    }
}

pub proof fn lemma_run_end(s: Seq<char>, k: int)
    requires
        0 <= k <= s.len(),
    ensures
        k <= run_end(s, k) <= s.len(),
        forall|j: int| k <= j < run_end(s, k) ==> is_word_char(#[trigger] s[j]),
        run_end(s, k) < s.len() ==> !is_word_char(s[run_end(s, k)]),
    decreases s.len() - k,
{
    if k < s.len() && is_word_char(s[k]) {
        lemma_run_end(s, k + 1);
    }
}

/// The tokens of `s` from position `k` on, leftmost first, each as long as it
/// can be.
pub open spec fn tokens_from(s: Seq<char>, k: int) -> Seq<Seq<char>>
    decreases s.len() - k,
    via tokens_from_decreases
{
    if k < 0 || k >= s.len() {
        seq![]
    } else if is_word_char(s[k]) {
        let e = run_end(s, k);
        seq![s.subrange(k, e)] + tokens_from(s, e)
    } else if s[k] == '/' && k + 1 < s.len() && is_word_char(s[k + 1]) {
        let e = run_end(s, k + 1);
        seq![s.subrange(k, e)] + tokens_from(s, e)
    } else {
        tokens_from(s, k + 1)
    }
}

#[via_fn]
proof fn tokens_from_decreases(s: Seq<char>, k: int) {
    if 0 <= k < s.len() {
        lemma_run_end(s, k);
        if k + 1 < s.len() {
            lemma_run_end(s, k + 1);
        }
    }
}

/// The tokens of `s`.
pub open spec fn tokens(s: Seq<char>) -> Seq<Seq<char>> {
    tokens_from(s, 0)
}

/// What a string denotes: `None` where it is kept as text, the structured
/// value where its first token names one, or the error in its arguments.
pub open spec fn literal_of(s: Seq<char>) -> Result<Option<Structured<Seq<char>>>, ConfigError> {
    let t = tokens(s);
    if t.len() == 0 || !is_tag(t[0]) {
        Ok(None)
    } else {
        match decode_at(t, 0) {
            Ok(v) => Ok(Some(v)),
            Err(e) => Err(e),
        }
    }
}

/// What a string value of a document becomes: text without `(` is kept
/// without looking further.
pub open spec fn scan_of(s: Seq<char>) -> Result<Option<Structured<Seq<char>>>, ConfigError> {
    if !s.contains('(') {
        Ok(None)
    } else {
        literal_of(s)
    }
}

pub open spec fn agrees_opt(
    r: Result<Option<Structured<Number>>, ConfigError>,
    s: Result<Option<Structured<Seq<char>>>, ConfigError>,
) -> bool {
    match r {
        Ok(None) => s == Ok::<Option<Structured<Seq<char>>>, ConfigError>(None),
        Ok(Some(v)) => s == Ok::<Option<Structured<Seq<char>>>, ConfigError>(Some(v@)),
        Err(e) => s == Err::<Option<Structured<Seq<char>>>, ConfigError>(e),
    }
}

fn word_char(c: char) -> (r: bool)
    ensures
        r == is_word_char(c),
{
    ('a' <= c && c <= 'z') || ('A' <= c && c <= 'Z') || ('0' <= c && c <= '9') || c == '.'
}

/// Splits `s` into its tokens.
pub fn tokenize(s: &str) -> (r: Vec<String>)
    ensures
        words(r@) == tokens(s@),
{
    let n = s.unicode_len();
    let mut out: Vec<String> = Vec::new();
    let mut k: usize = 0;
    assert(words(out@) =~= seq![]);
    while k < n
        invariant
            k <= n,
            n == s@.len(),
            words(out@) + tokens_from(s@, k as int) == tokens(s@),
        decreases n - k,
    {
        let c = s.get_char(k);
        let start = k;
        let mut j: usize = k;
        if !word_char(c) {
            if c == '/' && k + 1 < n && word_char(s.get_char(k + 1)) {
                j = k + 1;
            } else {
                assert(tokens_from(s@, k as int) == tokens_from(s@, k + 1));
                k = k + 1;
                continue;
            }
        }
        let ghost j0 = j as int;
        proof {
            lemma_run_end(s@, j0);
        }
        while j < n
            invariant
                j0 <= j <= n,
                n == s@.len(),
                run_end(s@, j as int) == run_end(s@, j0),
            ensures
                j == run_end(s@, j0),
            decreases n - j,
        {
            if !word_char(s.get_char(j)) {
                break;
            }
            j = j + 1;
        }
        let tok = s.substring_char(start, j).to_owned();
        let ghost old_out = words(out@);
        out.push(tok);
        assert(words(out@) =~= old_out + seq![s@.subrange(start as int, j as int)]);
        assert(tokens_from(s@, start as int) == seq![s@.subrange(start as int, j as int)]
            + tokens_from(s@, j as int));
        assert(words(out@) + tokens_from(s@, j as int) =~= old_out + tokens_from(
            s@,
            start as int,
        ));
        k = j;
    }
    assert(words(out@) =~= words(out@) + tokens_from(s@, k as int));
    out
}

fn has_open_paren(s: &str) -> (r: bool)
    ensures
        r == s@.contains('('),
{
    let n = s.unicode_len();
    let mut k: usize = 0;
    while k < n
        invariant
            k <= n,
            n == s@.len(),
            forall|j: int| 0 <= j < k ==> #[trigger] s@[j] != '(',
        decreases n - k,
    {
        if s.get_char(k) == '(' {
            return true;
        }
        k = k + 1;
    }
    false
}

/// Reads the structured value that `value` spells, if it holds a `(` and its
/// first token names one; `None` keeps the string as it is.
pub fn encode_godot_types(value: &str) -> (r: Result<Option<Structured<Number>>, ConfigError>)
    ensures
        agrees_opt(r, scan_of(value@)),
        !value@.contains('(') ==> r matches Ok(None),
        r matches Err(e) ==> e == ConfigError::MalformedLiteral,
{
    if !has_open_paren(value) {
        return Ok(None);
    }
    let t = tokenize(value);
    if t.len() == 0 {
        return Ok(None);
    }
    let first = &t[0];
    assert(words(t@)[0] == first@);
    let known = first.eq(&"Vector2".to_owned()) || first.eq(&"Vector3".to_owned()) || first.eq(
        &"Color".to_owned(),
    ) || first.eq(&"Rect2".to_owned()) || first.eq(&"Plane".to_owned()) || first.eq(
        &"Transform2D".to_owned(),
    ) || first.eq(&"Basis".to_owned()) || first.eq(&"Transform".to_owned());
    if !known {
        return Ok(None);
    }
    match decode_value_at(&t, 0) {
        Ok(v) => Ok(Some(v)),
        Err(e) => Err(e),
    }
}

/// What a string value becomes in the tree: `None` keeps it as text. A string
/// without `(` is always kept as it is.
pub fn scan(raw: &str) -> (r: Result<Option<Structured<Number>>, ConfigError>)
    ensures
        agrees_opt(r, scan_of(raw@)),
        r matches Err(e) ==> e == ConfigError::MalformedLiteral,
        !raw@.contains('(') ==> r matches Ok(None),
{
    encode_godot_types(raw)
}

} // verus!
