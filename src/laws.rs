//! Laws of the library: how literals decode, stated over token lists and over
//! the text of a string, and how nested tables are built.
use crate::decoder::{collect2, decode_at, is_tag};
use crate::error::ConfigError;
use crate::number::{is_float_text, is_number, is_space, trim_end, trim_start, trimmed};
use crate::scanner::{is_word_char, run_end, scan_of, tokens, tokens_from};
use crate::tree::{build_outcome, built, entries_built, entries_problem, problem, Doc, Tree};
use crate::values::{opaque, Color, Rect2, Structured, Vector2, Vector3};
use vstd::prelude::*;

verus! {

/// The names of the structured types are distinct.
pub proof fn lemma_tags_distinct()
    ensures
        "Vector2"@ != "Vector3"@,
        "Vector2"@ != "Color"@,
        "Vector2"@ != "Rect2"@,
        "Vector2"@ != "Plane"@,
        "Vector2"@ != "Transform2D"@,
        "Vector2"@ != "Basis"@,
        "Vector2"@ != "Transform"@,
        "Vector3"@ != "Color"@,
        "Vector3"@ != "Rect2"@,
        "Vector3"@ != "Plane"@,
        "Vector3"@ != "Transform2D"@,
        "Vector3"@ != "Basis"@,
        "Vector3"@ != "Transform"@,
        "Color"@ != "Rect2"@,
        "Color"@ != "Plane"@,
        "Color"@ != "Transform2D"@,
        "Color"@ != "Basis"@,
        "Color"@ != "Transform"@,
        "Rect2"@ != "Plane"@,
        "Rect2"@ != "Transform2D"@,
        "Rect2"@ != "Basis"@,
        "Rect2"@ != "Transform"@,
        "Plane"@ != "Transform2D"@,
        "Plane"@ != "Basis"@,
        "Plane"@ != "Transform"@,
        "Transform2D"@ != "Basis"@,
        "Transform2D"@ != "Transform"@,
        "Basis"@ != "Transform"@,
{
    reveal_strlit("Vector2");
    reveal_strlit("Vector3");
    reveal_strlit("Color");
    reveal_strlit("Rect2");
    reveal_strlit("Plane");
    reveal_strlit("Transform2D");
    reveal_strlit("Basis");
    reveal_strlit("Transform");
    assert("Vector2"@[6] != "Vector3"@[6]);
    assert("Vector2"@.len() != "Color"@.len());
    assert("Vector2"@.len() != "Rect2"@.len());
    assert("Vector2"@.len() != "Plane"@.len());
    assert("Vector2"@.len() != "Transform2D"@.len());
    assert("Vector2"@.len() != "Basis"@.len());
    assert("Vector2"@.len() != "Transform"@.len());
    assert("Vector3"@.len() != "Color"@.len());
    assert("Vector3"@.len() != "Rect2"@.len());
    assert("Vector3"@.len() != "Plane"@.len());
    assert("Vector3"@.len() != "Transform2D"@.len());
    assert("Vector3"@.len() != "Basis"@.len());
    assert("Vector3"@.len() != "Transform"@.len());
    assert("Color"@[0] != "Rect2"@[0]);
    assert("Color"@[0] != "Plane"@[0]);
    assert("Color"@.len() != "Transform2D"@.len());
    assert("Color"@[0] != "Basis"@[0]);
    assert("Color"@.len() != "Transform"@.len());
    assert("Rect2"@[0] != "Plane"@[0]);
    assert("Rect2"@.len() != "Transform2D"@.len());
    assert("Rect2"@[0] != "Basis"@[0]);
    assert("Rect2"@.len() != "Transform"@.len());
    assert("Plane"@.len() != "Transform2D"@.len());
    assert("Plane"@[0] != "Basis"@[0]);
    assert("Plane"@.len() != "Transform"@.len());
    assert("Transform2D"@.len() != "Basis"@.len());
    assert("Transform2D"@.len() != "Transform"@.len());
    assert("Basis"@.len() != "Transform"@.len());
}

/// No number is the name of a structured type.
pub proof fn lemma_number_is_no_tag(s: Seq<char>)
    requires
        is_float_text(s),
    ensures
        !is_tag(s),
{
    reveal_strlit("Vector2");
    reveal_strlit("Vector3");
    reveal_strlit("Color");
    reveal_strlit("Rect2");
    reveal_strlit("Plane");
    reveal_strlit("Transform2D");
    reveal_strlit("Basis");
    reveal_strlit("Transform");
    if is_tag(s) {
        let c = s[0];
        assert(c == 'V' || c == 'C' || c == 'R' || c == 'P' || c == 'T' || c == 'B');
        let u = crate::number::unsigned(s);
        assert(u =~= s);
        if crate::number::is_decimal(u) {
            let k = choose|k: int|
                0 <= k <= u.len() && #[trigger] crate::number::is_mantissa(u.subrange(0, k)) && (k
                    == u.len() || (crate::number::is_exp_mark(u[k]) && crate::number::is_exponent(
                    u.subrange(k + 1, u.len() as int))));
            if k == 0 {
                assert(!crate::number::is_mantissa(u.subrange(0, 0)));
            } else {
                assert(u.subrange(0, k)[0] == c);
            }
        } else {
            assert(crate::number::is_special(u));
        }
    }
}

/// A name of a structured type has no white space to trim.
pub proof fn lemma_tag_is_trimmed(s: Seq<char>)
    requires
        is_tag(s),
    ensures
        trimmed(s) == s,
{
    reveal_strlit("Vector2");
    reveal_strlit("Vector3");
    reveal_strlit("Color");
    reveal_strlit("Rect2");
    reveal_strlit("Plane");
    reveal_strlit("Transform2D");
    reveal_strlit("Basis");
    reveal_strlit("Transform");
    lemma_trim_plain(s);
}

/// Text that neither starts nor ends with white space is its own trim.
pub proof fn lemma_trim_plain(s: Seq<char>)
    requires
        s.len() > 0,
        !is_space(s[0]),
        !is_space(s[s.len() - 1]),
    ensures
        trimmed(s) == s,
{
    assert(trim_start(s) == s);
    assert(trim_end(s) == s);
}

/// No number argument is the name of a structured type.
pub proof fn lemma_number_text_is_no_tag(s: Seq<char>)
    requires
        is_number(s),
    ensures
        !is_tag(s),
{
    if is_tag(s) {
        lemma_tag_is_trimmed(s);
        lemma_number_is_no_tag(s);
    }
}

/// A number written with letters, digits and dots is its own trim.
pub proof fn lemma_word_number_is_trimmed(x: Seq<char>)
    requires
        is_float_text(x),
        forall|i: int| 0 <= i < x.len() ==> is_word_char(#[trigger] x[i]),
    ensures
        trimmed(x) == x,
        is_number(x),
{
    lemma_number_nonempty(x);
    assert(is_word_char(x[0]));
    assert(is_word_char(x[x.len() - 1]));
    lemma_trim_plain(x);
}

/// A 2D vector literal decodes to the vector of its two numbers.
pub proof fn law_vector2_fields(x: Seq<char>, y: Seq<char>)
    requires
        is_number(x),
        is_number(y),
    ensures
        decode_at(seq!["Vector2"@, x, y], 0) == Ok::<Structured<Seq<char>>, ConfigError>(
            Structured::Vector2(Vector2 { x: trimmed(x), y: trimmed(y) }),
        ),
{
}

/// A 3D vector literal decodes to the vector of its three numbers.
pub proof fn law_vector3_fields(x: Seq<char>, y: Seq<char>, z: Seq<char>)
    requires
        is_number(x),
        is_number(y),
        is_number(z),
    ensures
        decode_at(seq!["Vector3"@, x, y, z], 0) == Ok::<Structured<Seq<char>>, ConfigError>(
            Structured::Vector3(Vector3 { x: trimmed(x), y: trimmed(y), z: trimmed(z) }),
        ),
{
    lemma_tags_distinct();
}

/// A color with three channels is opaque; with four, the fourth is its alpha.
pub proof fn law_color_alpha(r: Seq<char>, g: Seq<char>, b: Seq<char>, a: Seq<char>)
    requires
        is_number(r),
        is_number(g),
        is_number(b),
        is_number(a),
    ensures
        decode_at(seq!["Color"@, r, g, b], 0) == Ok::<Structured<Seq<char>>, ConfigError>(
            Structured::Color(Color { r: trimmed(r), g: trimmed(g), b: trimmed(b), a: opaque() }),
        ),
        decode_at(seq!["Color"@, r, g, b, a], 0) == Ok::<Structured<Seq<char>>, ConfigError>(
            Structured::Color(Color { r: trimmed(r), g: trimmed(g), b: trimmed(b), a: trimmed(a) }),
        ),
{
    lemma_tags_distinct();
}

/// A rectangle literal takes its position and size from its two vectors.
pub proof fn law_rect2_fields(px: Seq<char>, py: Seq<char>, sx: Seq<char>, sy: Seq<char>)
    requires
        is_number(px),
        is_number(py),
        is_number(sx),
        is_number(sy),
    ensures
        decode_at(seq!["Rect2"@, "Vector2"@, px, py, "Vector2"@, sx, sy], 0) == Ok::<
            Structured<Seq<char>>,
            ConfigError,
        >(
            Structured::Rect2(
                Rect2 {
                    position: Vector2 { x: trimmed(px), y: trimmed(py) },
                    size: Vector2 { x: trimmed(sx), y: trimmed(sy) },
                },
            ),
        ),
{
    lemma_tags_distinct();
    lemma_number_text_is_no_tag(px);
    lemma_number_text_is_no_tag(py);
    lemma_number_text_is_no_tag(sx);
    lemma_number_text_is_no_tag(sy);
    let t = seq!["Rect2"@, "Vector2"@, px, py, "Vector2"@, sx, sy];
    let rest = t.subrange(1, 7);
    assert(rest =~= seq!["Vector2"@, px, py, "Vector2"@, sx, sy]);
    let v1 = Vector2 { x: trimmed(px), y: trimmed(py) };
    let v2 = Vector2 { x: trimmed(sx), y: trimmed(sy) };
    assert(collect2(rest, 6, seq![v1, v2]) == Ok::<Seq<Vector2<Seq<char>>>, ConfigError>(
        seq![v1, v2],
    ));
    assert(collect2(rest, 5, seq![v1, v2]) == collect2(rest, 6, seq![v1, v2]));
    assert(collect2(rest, 4, seq![v1, v2]) == collect2(rest, 5, seq![v1, v2]));
    assert(seq![v1].push(v2) =~= seq![v1, v2]);
    assert(collect2(rest, 3, seq![v1]) == collect2(rest, 4, seq![v1, v2]));
    assert(collect2(rest, 2, seq![v1]) == collect2(rest, 3, seq![v1]));
    assert(collect2(rest, 1, seq![v1]) == collect2(rest, 2, seq![v1]));
    assert(seq![].push(v1) =~= seq![v1]);
    assert(collect2(rest, 0, seq![]) == collect2(rest, 1, seq![v1]));
}

/// A literal with an argument that is not a number fails, with a
/// malformed-literal error.
pub proof fn law_malformed_vector2(x: Seq<char>, y: Seq<char>)
    requires
        !is_number(x) || !is_number(y),
    ensures
        decode_at(seq!["Vector2"@, x, y], 0) == Err::<Structured<Seq<char>>, ConfigError>(
            ConfigError::MalformedLiteral,
        ),
{
}

/// A table nested in a table becomes a mapping nested in a mapping, under the
/// same key, and its own entries are built in turn, at any depth.
pub proof fn law_nested_table(key: String, inner: Vec<(String, Doc)>, outer: Vec<(String, Doc)>, t: Tree)
    requires
        outer@ == seq![(key, Doc::Table(inner))],
        built(Doc::Table(outer), t),
    ensures
        t is Mapping,
        t->Mapping_0@.len() == 1,
        t->Mapping_0@[0].0@ == key@,
        t->Mapping_0@[0].1 is Mapping,
        entries_built(inner@, t->Mapping_0@[0].1->Mapping_0@),
{
    let ms = t->Mapping_0@;
    assert(outer@.subrange(0, 0) =~= seq![]);
    assert(entries_built(outer@, ms));
    assert(built(outer@[0].1, ms[0].1));
    assert(outer@[0].1 == Doc::Table(inner));
    assert(built(Doc::Table(inner), ms[0].1));
}

proof fn lemma_run_end_at(s: Seq<char>, k: int, e: int)
    requires
        0 <= k <= e <= s.len(),
        forall|j: int| k <= j < e ==> is_word_char(#[trigger] s[j]),
        e == s.len() || !is_word_char(s[e]),
    ensures
        run_end(s, k) == e,
    decreases e - k,
{
    if k < e {
        lemma_run_end_at(s, k + 1, e);
    }
}

proof fn lemma_tokens_run(s: Seq<char>, k: int, e: int)
    requires
        0 <= k < e <= s.len(),
        forall|j: int| k <= j < e ==> is_word_char(#[trigger] s[j]),
        e == s.len() || !is_word_char(s[e]),
    ensures
        tokens_from(s, k) == seq![s.subrange(k, e)] + tokens_from(s, e),
{
    lemma_run_end_at(s, k, e);
}

/// A number is never empty.
pub proof fn lemma_number_nonempty(x: Seq<char>)
    requires
        is_float_text(x),
    ensures
        x.len() > 0,
{
    if x.len() == 0 {
        let u = crate::number::unsigned(x);
        assert(u =~= x);
        assert(!crate::number::is_special(u));
        let k = choose|k: int|
            0 <= k <= u.len() && #[trigger] crate::number::is_mantissa(u.subrange(0, k)) && (k
                == u.len() || (crate::number::is_exp_mark(u[k]) && crate::number::is_exponent(
                u.subrange(k + 1, u.len() as int))));
        assert(!crate::number::is_mantissa(u.subrange(0, k)));
    }
}

/// The text of a 2D vector literal with the given coordinates.
pub open spec fn vector2_text(x: Seq<char>, y: Seq<char>) -> Seq<char> {
    "Vector2("@ + x + ", "@ + y + ")"@
}

/// A string `Vector2(x, y)`, whose coordinates are numbers written with
/// letters, digits and dots, is read as the vector of those two numbers.
pub proof fn law_vector2_text(x: Seq<char>, y: Seq<char>)
    requires
        is_float_text(x),
        is_float_text(y),
        forall|i: int| 0 <= i < x.len() ==> is_word_char(#[trigger] x[i]),
        forall|i: int| 0 <= i < y.len() ==> is_word_char(#[trigger] y[i]),
    ensures
        scan_of(vector2_text(x, y)) == Ok::<Option<Structured<Seq<char>>>, ConfigError>(
            Some(Structured::Vector2(Vector2 { x, y })),
        ),
{
    reveal_strlit("Vector2(");
    reveal_strlit(", ");
    reveal_strlit(")");
    reveal_strlit("Vector2");
    let s = vector2_text(x, y);
    let a = x.len() as int;
    let b = y.len() as int;
    lemma_number_nonempty(x);
    lemma_number_nonempty(y);
    lemma_word_number_is_trimmed(x);
    lemma_word_number_is_trimmed(y);
    assert(s.len() == 11 + a + b);
    assert forall|j: int| 0 <= j < 7 implies is_word_char(#[trigger] s[j]) by {}
    assert(s[7] == '(');
    assert forall|j: int| 8 <= j < 8 + a implies is_word_char(#[trigger] s[j]) by {
        assert(s[j] == x[j - 8]);
    }
    assert(s[8 + a] == ',');
    assert(s[9 + a] == ' ');
    assert forall|j: int| 10 + a <= j < 10 + a + b implies is_word_char(#[trigger] s[j]) by {
        assert(s[j] == y[j - 10 - a]);
    }
    assert(s[10 + a + b] == ')');
    lemma_tokens_run(s, 0, 7);
    lemma_tokens_run(s, 8, 8 + a);
    lemma_tokens_run(s, 10 + a, 10 + a + b);
    assert(tokens_from(s, 7) == tokens_from(s, 8));
    assert(tokens_from(s, 8 + a) == tokens_from(s, 9 + a));
    assert(tokens_from(s, 9 + a) == tokens_from(s, 10 + a));
    assert(tokens_from(s, 10 + a + b) == tokens_from(s, 11 + a + b));
    assert(tokens_from(s, 11 + a + b) =~= seq![]);
    assert(s.subrange(0, 7) =~= "Vector2"@);
    assert(s.subrange(8, 8 + a) =~= x);
    assert(s.subrange(10 + a, 10 + a + b) =~= y);
    assert(tokens(s) =~= seq!["Vector2"@, x, y]);
    assert(s.contains('('));
    law_vector2_fields(x, y);
}

/// The text of a color literal with the given channels, and an alpha if one
/// is given.
pub open spec fn color_text(r: Seq<char>, g: Seq<char>, b: Seq<char>, a: Option<Seq<char>>) -> Seq<
    char,
> {
    match a {
        None => "Color("@ + r + ", "@ + g + ", "@ + b + ")"@,
        Some(a) => "Color("@ + r + ", "@ + g + ", "@ + b + ", "@ + a + ")"@,
    }
}

proof fn lemma_color3_tokens(r: Seq<char>, g: Seq<char>, b: Seq<char>)
    requires
        is_float_text(r),
        is_float_text(g),
        is_float_text(b),
        forall|i: int| 0 <= i < r.len() ==> is_word_char(#[trigger] r[i]),
        forall|i: int| 0 <= i < g.len() ==> is_word_char(#[trigger] g[i]),
        forall|i: int| 0 <= i < b.len() ==> is_word_char(#[trigger] b[i]),
    ensures
        tokens(color_text(r, g, b, None)) == seq!["Color"@, r, g, b],
        color_text(r, g, b, None).contains('('),
{
    reveal_strlit("Color(");
    reveal_strlit(", ");
    reveal_strlit(")");
    reveal_strlit("Color");
    lemma_number_nonempty(r);
    lemma_number_nonempty(g);
    lemma_number_nonempty(b);
    let (lr, lg, lb) = (r.len() as int, g.len() as int, b.len() as int);
    let gs = 8 + lr;
    let bs = 10 + lr + lg;
    let be = bs + lb;
    let s3 = color_text(r, g, b, None);
    assert(s3.len() == be + 1);
    assert forall|j: int| 0 <= j < 5 implies is_word_char(#[trigger] s3[j]) by {}
    assert forall|j: int| 6 <= j < 6 + lr implies is_word_char(#[trigger] s3[j]) by {
        assert(s3[j] == r[j - 6]);
    }
    assert forall|j: int| gs <= j < gs + lg implies is_word_char(#[trigger] s3[j]) by {
        assert(s3[j] == g[j - gs]);
    }
    assert forall|j: int| bs <= j < be implies is_word_char(#[trigger] s3[j]) by {
        assert(s3[j] == b[j - bs]);
    }
    assert(s3[5] == '(');
    assert(s3[6 + lr] == ',' && s3[7 + lr] == ' ');
    assert(s3[gs + lg] == ',' && s3[gs + lg + 1] == ' ');
    assert(s3[be] == ')');
    lemma_tokens_run(s3, 0, 5);
    lemma_tokens_run(s3, 6, 6 + lr);
    lemma_tokens_run(s3, gs, gs + lg);
    lemma_tokens_run(s3, bs, be);
    assert(tokens_from(s3, 5) == tokens_from(s3, 6));
    assert(tokens_from(s3, 6 + lr) == tokens_from(s3, 7 + lr));
    assert(tokens_from(s3, 7 + lr) == tokens_from(s3, gs));
    assert(tokens_from(s3, gs + lg) == tokens_from(s3, gs + lg + 1));
    assert(tokens_from(s3, gs + lg + 1) == tokens_from(s3, bs));
    assert(tokens_from(s3, be) == tokens_from(s3, be + 1));
    assert(tokens_from(s3, be + 1) =~= seq![]);
    assert(s3.subrange(0, 5) =~= "Color"@);
    assert(s3.subrange(6, 6 + lr) =~= r);
    assert(s3.subrange(gs, gs + lg) =~= g);
    assert(s3.subrange(bs, be) =~= b);
    assert(tokens(s3) =~= seq!["Color"@, r, g, b]);
    assert(s3.contains('('));
}

proof fn lemma_color4_tokens(r: Seq<char>, g: Seq<char>, b: Seq<char>, a: Seq<char>)
    requires
        is_float_text(r),
        is_float_text(g),
        is_float_text(b),
        forall|i: int| 0 <= i < r.len() ==> is_word_char(#[trigger] r[i]),
        forall|i: int| 0 <= i < g.len() ==> is_word_char(#[trigger] g[i]),
        forall|i: int| 0 <= i < b.len() ==> is_word_char(#[trigger] b[i]),
        is_float_text(a),
        forall|i: int| 0 <= i < a.len() ==> is_word_char(#[trigger] a[i]),
    ensures
        tokens(color_text(r, g, b, Some(a))) == seq!["Color"@, r, g, b, a],
        color_text(r, g, b, Some(a)).contains('('),
{
    reveal_strlit("Color(");
    reveal_strlit(", ");
    reveal_strlit(")");
    reveal_strlit("Color");
    lemma_number_nonempty(r);
    lemma_number_nonempty(g);
    lemma_number_nonempty(b);
    lemma_number_nonempty(a);
    let (lr, lg, lb, la) = (r.len() as int, g.len() as int, b.len() as int, a.len() as int);
    let gs = 8 + lr;
    let bs = 10 + lr + lg;
    let be = bs + lb;
    let s4 = color_text(r, g, b, Some(a));
    assert(s4.len() == be + la + 3);
    assert forall|j: int| 0 <= j < 5 implies is_word_char(#[trigger] s4[j]) by {}
    assert forall|j: int| 6 <= j < 6 + lr implies is_word_char(#[trigger] s4[j]) by {
        assert(s4[j] == r[j - 6]);
    }
    assert forall|j: int| gs <= j < gs + lg implies is_word_char(#[trigger] s4[j]) by {
        assert(s4[j] == g[j - gs]);
    }
    assert forall|j: int| bs <= j < be implies is_word_char(#[trigger] s4[j]) by {
        assert(s4[j] == b[j - bs]);
    }
    assert forall|j: int| be + 2 <= j < be + 2 + la implies is_word_char(#[trigger] s4[j]) by {
        assert(s4[j] == a[j - be - 2]);
    }
    assert(s4[5] == '(');
    assert(s4[6 + lr] == ',' && s4[7 + lr] == ' ');
    assert(s4[gs + lg] == ',' && s4[gs + lg + 1] == ' ');
    assert(s4[be] == ',' && s4[be + 1] == ' ' && s4[be + 2 + la] == ')');
    lemma_tokens_run(s4, 0, 5);
    lemma_tokens_run(s4, 6, 6 + lr);
    lemma_tokens_run(s4, gs, gs + lg);
    lemma_tokens_run(s4, bs, be);
    lemma_tokens_run(s4, be + 2, be + 2 + la);
    assert(tokens_from(s4, 5) == tokens_from(s4, 6));
    assert(tokens_from(s4, 6 + lr) == tokens_from(s4, 7 + lr));
    assert(tokens_from(s4, 7 + lr) == tokens_from(s4, gs));
    assert(tokens_from(s4, gs + lg) == tokens_from(s4, gs + lg + 1));
    assert(tokens_from(s4, gs + lg + 1) == tokens_from(s4, bs));
    assert(tokens_from(s4, be) == tokens_from(s4, be + 1));
    assert(tokens_from(s4, be + 1) == tokens_from(s4, be + 2));
    assert(tokens_from(s4, be + 2 + la) == tokens_from(s4, be + 3 + la));
    assert(tokens_from(s4, be + 3 + la) =~= seq![]);
    assert(s4.subrange(0, 5) =~= "Color"@);
    assert(s4.subrange(6, 6 + lr) =~= r);
    assert(s4.subrange(gs, gs + lg) =~= g);
    assert(s4.subrange(bs, be) =~= b);
    assert(s4.subrange(be + 2, be + 2 + la) =~= a);
    assert(tokens(s4) =~= seq!["Color"@, r, g, b, a]);
    assert(s4.contains('('));
}

/// A string `Color(r, g, b)` is read as an opaque color, and a string
/// `Color(r, g, b, a)` as the color with alpha `a`, where the numbers are
/// written with letters, digits and dots.
pub proof fn law_color_text(r: Seq<char>, g: Seq<char>, b: Seq<char>, a: Seq<char>)
    requires
        is_float_text(r),
        is_float_text(g),
        is_float_text(b),
        forall|i: int| 0 <= i < r.len() ==> is_word_char(#[trigger] r[i]),
        forall|i: int| 0 <= i < g.len() ==> is_word_char(#[trigger] g[i]),
        forall|i: int| 0 <= i < b.len() ==> is_word_char(#[trigger] b[i]),
        is_float_text(a),
        forall|i: int| 0 <= i < a.len() ==> is_word_char(#[trigger] a[i]),
    ensures
        scan_of(color_text(r, g, b, None)) == Ok::<Option<Structured<Seq<char>>>, ConfigError>(
            Some(Structured::Color(Color { r, g, b, a: opaque() })),
        ),
        scan_of(color_text(r, g, b, Some(a))) == Ok::<Option<Structured<Seq<char>>>, ConfigError>(
            Some(Structured::Color(Color { r, g, b, a })),
        ),
{
    reveal_strlit("Color");
    lemma_word_number_is_trimmed(r);
    lemma_word_number_is_trimmed(g);
    lemma_word_number_is_trimmed(b);
    lemma_word_number_is_trimmed(a);
    lemma_color3_tokens(r, g, b);
    lemma_color4_tokens(r, g, b, a);
    lemma_tags_distinct();
    law_color_alpha(r, g, b, a);
}
/// The text of a rectangle literal with the given position and size.
pub open spec fn rect2_text(px: Seq<char>, py: Seq<char>, sx: Seq<char>, sy: Seq<char>) -> Seq<
    char,
> {
    "Rect2(Vector2("@ + px + ", "@ + py + "), Vector2("@ + sx + ", "@ + sy + "))"@
}

#[verifier::rlimit(40)]
proof fn lemma_rect2_tokens(px: Seq<char>, py: Seq<char>, sx: Seq<char>, sy: Seq<char>)
    requires
        is_float_text(px),
        is_float_text(py),
        is_float_text(sx),
        is_float_text(sy),
        forall|i: int| 0 <= i < px.len() ==> is_word_char(#[trigger] px[i]),
        forall|i: int| 0 <= i < py.len() ==> is_word_char(#[trigger] py[i]),
        forall|i: int| 0 <= i < sx.len() ==> is_word_char(#[trigger] sx[i]),
        forall|i: int| 0 <= i < sy.len() ==> is_word_char(#[trigger] sy[i]),
    ensures
        tokens(rect2_text(px, py, sx, sy)) == seq!["Rect2"@, "Vector2"@, px, py, "Vector2"@, sx, sy],
        rect2_text(px, py, sx, sy).contains('('),
{
    reveal_strlit("Rect2(Vector2(");
    reveal_strlit(", ");
    reveal_strlit("), Vector2(");
    reveal_strlit("))");
    reveal_strlit("Rect2");
    reveal_strlit("Vector2");
    lemma_number_nonempty(px);
    lemma_number_nonempty(py);
    lemma_number_nonempty(sx);
    lemma_number_nonempty(sy);
    let (a, b, c, d) = (px.len() as int, py.len() as int, sx.len() as int, sy.len() as int);
    let pys = 16 + a;
    let v2s = 19 + a + b;
    let sxs = 27 + a + b;
    let sys = 29 + a + b + c;
    let s = rect2_text(px, py, sx, sy);
    assert(s.len() == sys + d + 2);
    assert forall|j: int| 0 <= j < 5 implies is_word_char(#[trigger] s[j]) by {}
    assert forall|j: int| 6 <= j < 13 implies is_word_char(#[trigger] s[j]) by {}
    assert forall|j: int| 14 <= j < 14 + a implies is_word_char(#[trigger] s[j]) by {
        assert(s[j] == px[j - 14]);
    }
    assert forall|j: int| pys <= j < pys + b implies is_word_char(#[trigger] s[j]) by {
        assert(s[j] == py[j - pys]);
    }
    assert forall|j: int| v2s <= j < v2s + 7 implies is_word_char(#[trigger] s[j]) by {}
    assert forall|j: int| sxs <= j < sxs + c implies is_word_char(#[trigger] s[j]) by {
        assert(s[j] == sx[j - sxs]);
    }
    assert forall|j: int| sys <= j < sys + d implies is_word_char(#[trigger] s[j]) by {
        assert(s[j] == sy[j - sys]);
    }
    assert(s[5] == '(' && s[13] == '(');
    assert(s[14 + a] == ',' && s[15 + a] == ' ');
    assert(s[pys + b] == ')' && s[pys + b + 1] == ',' && s[pys + b + 2] == ' ');
    assert(s[v2s + 7] == '(');
    assert(s[sxs + c] == ',' && s[sxs + c + 1] == ' ');
    assert(s[sys + d] == ')' && s[sys + d + 1] == ')');
    lemma_tokens_run(s, 0, 5);
    lemma_tokens_run(s, 6, 13);
    lemma_tokens_run(s, 14, 14 + a);
    lemma_tokens_run(s, pys, pys + b);
    lemma_tokens_run(s, v2s, v2s + 7);
    lemma_tokens_run(s, sxs, sxs + c);
    lemma_tokens_run(s, sys, sys + d);
    assert(tokens_from(s, 5) == tokens_from(s, 6));
    assert(tokens_from(s, 13) == tokens_from(s, 14));
    assert(tokens_from(s, 14 + a) == tokens_from(s, 15 + a));
    assert(tokens_from(s, 15 + a) == tokens_from(s, pys));
    assert(tokens_from(s, pys + b) == tokens_from(s, pys + b + 1));
    assert(tokens_from(s, pys + b + 1) == tokens_from(s, pys + b + 2));
    assert(tokens_from(s, pys + b + 2) == tokens_from(s, v2s));
    assert(tokens_from(s, v2s + 7) == tokens_from(s, sxs));
    assert(tokens_from(s, sxs + c) == tokens_from(s, sxs + c + 1));
    assert(tokens_from(s, sxs + c + 1) == tokens_from(s, sys));
    assert(tokens_from(s, sys + d) == tokens_from(s, sys + d + 1));
    assert(tokens_from(s, sys + d + 1) == tokens_from(s, sys + d + 2));
    assert(tokens_from(s, sys + d + 2) =~= seq![]);
    assert(s.subrange(0, 5) =~= "Rect2"@);
    assert(s.subrange(6, 13) =~= "Vector2"@);
    assert(s.subrange(14, 14 + a) =~= px);
    assert(s.subrange(pys, pys + b) =~= py);
    assert(s.subrange(v2s, v2s + 7) =~= "Vector2"@);
    assert(s.subrange(sxs, sxs + c) =~= sx);
    assert(s.subrange(sys, sys + d) =~= sy);
    assert(tokens(s) =~= seq!["Rect2"@, "Vector2"@, px, py, "Vector2"@, sx, sy]);
    assert(s.contains('('));
}


/// A string `Rect2(Vector2(px, py), Vector2(sx, sy))` is read as the
/// rectangle at `(px, py)` of size `(sx, sy)`, where the numbers are written
/// with letters, digits and dots.
pub proof fn law_rect2_text(px: Seq<char>, py: Seq<char>, sx: Seq<char>, sy: Seq<char>)
    requires
        is_float_text(px),
        is_float_text(py),
        is_float_text(sx),
        is_float_text(sy),
        forall|i: int| 0 <= i < px.len() ==> is_word_char(#[trigger] px[i]),
        forall|i: int| 0 <= i < py.len() ==> is_word_char(#[trigger] py[i]),
        forall|i: int| 0 <= i < sx.len() ==> is_word_char(#[trigger] sx[i]),
        forall|i: int| 0 <= i < sy.len() ==> is_word_char(#[trigger] sy[i]),
    ensures
        scan_of(rect2_text(px, py, sx, sy)) == Ok::<Option<Structured<Seq<char>>>, ConfigError>(
            Some(
                Structured::Rect2(
                    Rect2 { position: Vector2 { x: px, y: py }, size: Vector2 { x: sx, y: sy } },
                ),
            ),
        ),
{
    reveal_strlit("Rect2");
    lemma_word_number_is_trimmed(px);
    lemma_word_number_is_trimmed(py);
    lemma_word_number_is_trimmed(sx);
    lemma_word_number_is_trimmed(sy);
    lemma_rect2_tokens(px, py, sx, sy);
    lemma_tags_distinct();
    law_rect2_fields(px, py, sx, sy);
}
/// Tables whose values, at every depth, are tables, integers, floats and
/// booleans.
pub open spec fn plain(d: Doc) -> bool
    decreases d, 0nat,
{
    match d {
        Doc::Table(es) => entries_plain(es@),
        Doc::Integer(_) => true,
        Doc::Float(_) => true,
        Doc::Boolean(_) => true,
        _ => false,
    }
}

pub open spec fn entries_plain(es: Seq<(String, Doc)>) -> bool
    decreases es, 0nat,
{
    if es.len() == 0 {
        true
    } else {
        entries_plain(es.subrange(0, es.len() - 1)) && plain(es[es.len() - 1].1)
    }
}

proof fn lemma_plain_no_problem(d: Doc)
    requires
        plain(d),
    ensures
        problem(d) is None,
    decreases d, 1nat,
{
    if let Doc::Table(es) = d {
        assert(decreases_to!(d => d->Table_0));
        assert(decreases_to!(es => es@));
        lemma_entries_plain_no_problem(es@);
    }
}

proof fn lemma_entries_plain_no_problem(es: Seq<(String, Doc)>)
    requires
        entries_plain(es),
    ensures
        entries_problem(es) is None,
    decreases es, 1nat,
{
    if es.len() > 0 {
        let n = es.len() - 1;
        lemma_entries_plain_no_problem(es.subrange(0, n));
        assert(decreases_to!(es => es[n]));
        assert(decreases_to!(es[n] => es[n].1));
        lemma_plain_no_problem(es[n].1);
    }
}

/// A table of tables, integers, floats and booleans, nested to any depth,
/// has no problem: building it succeeds, and gives the tree of mappings with
/// the same keys, the scalars copied.
pub proof fn law_plain_tables_build(d: Doc, r: Result<Tree, ConfigError>)
    requires
        plain(d),
        build_outcome(d, r),
    ensures
        problem(d) is None,
        r matches Ok(t) && built(d, t),
{
    lemma_plain_no_problem(d);
}

} // verus!
