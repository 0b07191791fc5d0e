//! Numeric literals: the textual float syntax accepted by `f32::from_str`.
use vstd::prelude::*;
use vstd::string::StrSliceExecFns;

verus! {

pub open spec fn is_digit(c: char) -> bool {
    '0' <= c <= '9'
}

pub open spec fn is_sign(c: char) -> bool {
    c == '+' || c == '-'
}

pub open spec fn is_exp_mark(c: char) -> bool {
    c == 'e' || c == 'E'
}

/// `c` is the lowercase ASCII letter `l` or its uppercase form.
pub open spec fn same_letter(c: char, l: char) -> bool {
    c == l || (c as u32) + 32 == (l as u32)
}

/// `s` spells the lowercase word `w`, ignoring ASCII case.
pub open spec fn spells(s: Seq<char>, w: Seq<char>) -> bool {
    s.len() == w.len() && forall|i: int| 0 <= i < s.len() ==> same_letter(#[trigger] s[i], w[i])
}

pub open spec fn is_special(b: Seq<char>) -> bool {
    spells(b, seq!['i', 'n', 'f']) || spells(b, seq!['i', 'n', 'f', 'i', 'n', 'i', 't', 'y'])
        || spells(b, seq!['n', 'a', 'n'])
}

/// Digits with at most one decimal point, and at least one digit.
pub open spec fn is_mantissa(m: Seq<char>) -> bool {
    &&& forall|i: int| 0 <= i < m.len() ==> is_digit(#[trigger] m[i]) || m[i] == '.'
    &&& forall|i: int, j: int|
        0 <= i < m.len() && 0 <= j < m.len() && #[trigger] m[i] == '.' && #[trigger] m[j] == '.'
            ==> i == j
    &&& exists|i: int| 0 <= i < m.len() && is_digit(#[trigger] m[i])
}

/// An optional sign followed by one or more digits.
pub open spec fn is_exponent(x: Seq<char>) -> bool {
    let d = unsigned(x);
    d.len() > 0 && forall|i: int| 0 <= i < d.len() ==> is_digit(#[trigger] d[i])
}

/// `s` without its leading sign, if it has one.
pub open spec fn unsigned(s: Seq<char>) -> Seq<char> {
    if s.len() > 0 && is_sign(s[0]) {
        s.subrange(1, s.len() as int)
    } else {
        s
    }
}

pub open spec fn is_decimal(b: Seq<char>) -> bool {
    exists|k: int|
        0 <= k <= b.len() && #[trigger] is_mantissa(b.subrange(0, k)) && (k == b.len() || (
        is_exp_mark(b[k]) && is_exponent(b.subrange(k + 1, b.len() as int))))
}

/// The float syntax: an optional sign, then `inf`, `infinity` or `nan` in any
/// case, or a decimal number with an optional exponent.
pub open spec fn is_float_text(s: Seq<char>) -> bool {
    is_special(unsigned(s)) || is_decimal(unsigned(s))
}

fn spells_at(s: &str, lo: usize, w: &[char]) -> (r: bool)
    requires
        lo <= s@.len(),
        forall|i: int| 0 <= i < w@.len() ==> 'a' <= #[trigger] w@[i] <= 'z',
    ensures
        r == spells(s@.subrange(lo as int, s@.len() as int), w@),
{
    let n = s.unicode_len();
    if n - lo != w.len() {
        return false;
    }
    let ghost b = s@.subrange(lo as int, s@.len() as int);
    let mut i: usize = 0;
    while i < w.len()
        invariant
            lo <= n,
            n == s@.len(),
            n - lo == w@.len(),
            i <= w@.len(),
            b == s@.subrange(lo as int, s@.len() as int),
            forall|j: int| 0 <= j < i ==> same_letter(#[trigger] b[j], w@[j]),
        decreases w@.len() - i,
    {
        let c = s.get_char(lo + i);
        let l = w[i];
        if !(c == l || (c as u32) + 32 == (l as u32)) {
            assert(!same_letter(b[i as int], w@[i as int]));
            return false;
        }
        i = i + 1;
    }
    true
}

fn mantissa_ok(s: &str, lo: usize, hi: usize) -> (r: bool)
    requires
        lo <= hi <= s@.len(),
    ensures
        r == is_mantissa(s@.subrange(lo as int, hi as int)),
{
    let ghost m = s@.subrange(lo as int, hi as int);
    let mut i: usize = lo;
    let mut dot: Option<usize> = None;
    let mut digit: Option<usize> = None;
    while i < hi
        invariant
            lo <= i <= hi <= s@.len(),
            m == s@.subrange(lo as int, hi as int),
            forall|j: int| 0 <= j < i - lo ==> is_digit(#[trigger] m[j]) || m[j] == '.',
            match dot {
                None => forall|j: int| 0 <= j < i - lo ==> #[trigger] m[j] != '.',
                Some(d) => lo <= d < i && m[d - lo] == '.' && forall|j: int|
                    0 <= j < i - lo && #[trigger] m[j] == '.' ==> j == d - lo,
            },
            match digit {
                None => forall|j: int| 0 <= j < i - lo ==> !is_digit(#[trigger] m[j]),
                Some(d) => lo <= d < i && is_digit(m[d - lo]),
            },
        decreases hi - i,
    {
        let c = s.get_char(i);
        if c == '.' {
            if dot.is_some() {
                let d = dot.unwrap();
                assert(m[d - lo] == '.' && m[i - lo] == '.');
                return false;
            }
            dot = Some(i);
        } else if '0' <= c && c <= '9' {
            digit = Some(i);
        } else {
            assert(!(is_digit(m[i - lo]) || m[i - lo] == '.'));
            return false;
        }
        i = i + 1;
    }
    match digit {
        Some(d) => {
            assert(is_digit(m[d - lo]));
            true
        },
        None => false,
    }
}

fn exponent_ok(s: &str, lo: usize, hi: usize) -> (r: bool)
    requires
        lo <= hi <= s@.len(),
    ensures
        r == is_exponent(s@.subrange(lo as int, hi as int)),
{
    let ghost x = s@.subrange(lo as int, hi as int);
    let mut start = lo;
    if lo < hi {
        let c = s.get_char(lo);
        if c == '+' || c == '-' {
            start = lo + 1;
        }
    }
    let ghost d = s@.subrange(start as int, hi as int);
    assert(d =~= unsigned(x));
    if start == hi {
        return false;
    }
    let mut i: usize = start;
    while i < hi
        invariant
            start <= i <= hi <= s@.len(),
            d == s@.subrange(start as int, hi as int),
            x == s@.subrange(lo as int, hi as int),
            d == unsigned(x),
            forall|j: int| 0 <= j < i - start ==> is_digit(#[trigger] d[j]),
        decreases hi - i,
    {
        let c = s.get_char(i);
        if !('0' <= c && c <= '9') {
            assert(!is_digit(d[i - start]));
            return false;
        }
        i = i + 1;
    }
    true
}

fn decimal_ok(s: &str, lo: usize) -> (r: bool)
    requires
        lo <= s@.len(),
    ensures
        r == is_decimal(s@.subrange(lo as int, s@.len() as int)),
{
    let n = s.unicode_len();
    let ghost b = s@.subrange(lo as int, n as int);
    let mut k: usize = lo;
    while k < n
        invariant
            lo <= k <= n,
            n == s@.len(),
            b == s@.subrange(lo as int, n as int),
            forall|j: int| 0 <= j < k - lo ==> !is_exp_mark(#[trigger] b[j]),
        ensures
            lo <= k <= n,
            forall|j: int| 0 <= j < k - lo ==> !is_exp_mark(#[trigger] b[j]),
            k < n ==> is_exp_mark(b[k - lo]),
        decreases n - k,
    {
        let c = s.get_char(k);
        if c == 'e' || c == 'E' {
            break;
        }
        k = k + 1;
    }
    let ghost kk = (k - lo) as int;
    assert(b.subrange(0, kk) =~= s@.subrange(lo as int, k as int));
    let m = mantissa_ok(s, lo, k);
    let r = if k == n {
        m
    } else {
        assert(b.subrange(kk + 1, b.len() as int) =~= s@.subrange(k + 1, n as int));
        m && exponent_ok(s, k + 1, n)
    };
    if r {
        assert(is_mantissa(b.subrange(0, kk)));
    } else {
        assert forall|k2: int| 0 <= k2 <= b.len() && #[trigger] is_mantissa(b.subrange(0, k2))
            implies !(k2 == b.len() || (is_exp_mark(b[k2]) && is_exponent(
            b.subrange(k2 + 1, b.len() as int)))) by {
            if k2 < kk {
                assert(!is_exp_mark(b[k2]));
            } else if k2 > kk {
                let p = b.subrange(0, k2);
                assert(p[kk] == b[kk]);
                assert(!(is_digit(p[kk]) || p[kk] == '.'));
            }
        }
    }
    r
}

/// Whether `s` is a float literal in the syntax of `f32::from_str`.
pub fn is_float_literal(s: &str) -> (r: bool)
    ensures
        r == is_float_text(s@),
{
    let n = s.unicode_len();
    let mut lo: usize = 0;
    if n > 0 {
        let c = s.get_char(0);
        if c == '+' || c == '-' {
            lo = 1;
        }
    }
    let ghost b = s@.subrange(lo as int, n as int);
    assert(b =~= unsigned(s@));
    let w_inf: [char; 3] = ['i', 'n', 'f'];
    let w_infinity: [char; 8] = ['i', 'n', 'f', 'i', 'n', 'i', 't', 'y'];
    let w_nan: [char; 3] = ['n', 'a', 'n'];
    assert(w_inf@ =~= seq!['i', 'n', 'f']);
    assert(w_infinity@ =~= seq!['i', 'n', 'f', 'i', 'n', 'i', 't', 'y']);
    assert(w_nan@ =~= seq!['n', 'a', 'n']);
    spells_at(s, lo, &w_inf) || spells_at(s, lo, &w_infinity) || spells_at(s, lo, &w_nan)
        || decimal_ok(s, lo)
}

/// White space as `char::is_whitespace` has it: the Unicode `White_Space`
/// characters.
pub open spec fn is_space(c: char) -> bool {
    let u = c as u32;
    (9 <= u <= 13) || u == 32 || u == 0x85 || u == 0xA0 || u == 0x1680 || (0x2000 <= u <= 0x200A)
        || u == 0x2028 || u == 0x2029 || u == 0x202F || u == 0x205F || u == 0x3000
}

pub open spec fn trim_start(s: Seq<char>) -> Seq<char>
    decreases s.len(),
{
    if s.len() > 0 && is_space(s[0]) {
        trim_start(s.subrange(1, s.len() as int))
    } else {
        s
    }
}

pub open spec fn trim_end(s: Seq<char>) -> Seq<char>
    decreases s.len(),
{
    if s.len() > 0 && is_space(s[s.len() - 1]) {
        trim_end(s.subrange(0, s.len() - 1))
    } else {
        s
    }
}

/// `s` without its leading and trailing white space, as `str::trim` gives it.
pub open spec fn trimmed(s: Seq<char>) -> Seq<char> {
    trim_end(trim_start(s))
}

/// The text of a number argument denotes a number once trimmed.
pub open spec fn is_number(t: Seq<char>) -> bool {
    is_float_text(trimmed(t))
}

fn space_char(c: char) -> (r: bool)
    ensures
        r == is_space(c),
{
    let u = c as u32;
    (9 <= u && u <= 13) || u == 32 || u == 0x85 || u == 0xA0 || u == 0x1680 || (0x2000 <= u && u
        <= 0x200A) || u == 0x2028 || u == 0x2029 || u == 0x202F || u == 0x205F || u == 0x3000
}

/// `s` without its leading and trailing white space.
pub fn trim_text(s: &str) -> (r: &str)
    ensures
        r@ == trimmed(s@),
{
    let n = s.unicode_len();
    let mut lo: usize = 0;
    assert(s@.subrange(0, n as int) =~= s@);
    while lo < n
        invariant
            lo <= n,
            n == s@.len(),
            trim_start(s@) == trim_start(s@.subrange(lo as int, n as int)),
        ensures
            lo <= n,
            trim_start(s@) == s@.subrange(lo as int, n as int),
        decreases n - lo,
    {
        if !space_char(s.get_char(lo)) {
            break;
        }
        assert(s@.subrange(lo as int, n as int).subrange(1, n - lo) =~= s@.subrange(
            lo + 1,
            n as int,
        ));
        lo = lo + 1;
    }
    let ghost m = s@.subrange(lo as int, n as int);
    let mut hi: usize = n;
    while hi > lo
        invariant
            lo <= hi <= n,
            n == s@.len(),
            m == s@.subrange(lo as int, n as int),
            trim_end(m) == trim_end(s@.subrange(lo as int, hi as int)),
        ensures
            lo <= hi <= n,
            trim_end(m) == s@.subrange(lo as int, hi as int),
        decreases hi - lo,
    {
        if !space_char(s.get_char(hi - 1)) {
            break;
        }
        assert(s@.subrange(lo as int, hi as int).subrange(0, hi - 1 - lo) =~= s@.subrange(
            lo as int,
            hi - 1,
        ));
        hi = hi - 1;
    }
    s.substring_char(lo, hi)
}

/// A numeric literal, kept as the text that was read; its value is what
/// `f32::from_str` gives for that text.
#[derive(Debug, PartialEq)]
pub struct Number {
    pub text: String,
}

impl View for Number {
    type V = Seq<char>;

    open spec fn view(&self) -> Seq<char> {
        self.text@
    }
}

impl Number {
    /// Reads a numeric literal; `None` where the text is not one.
    pub fn parse(text: &str) -> (r: Option<Number>)
        ensures
            r.is_some() == is_float_text(text@),
            r matches Some(n) ==> n@ == text@,
    {
        if is_float_literal(text) {
            Some(Number { text: text.to_owned() })
        } else {
            None
        }
    }
}

} // verus!
