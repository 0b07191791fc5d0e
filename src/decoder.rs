//! Decoding a token list such as `["Rect2", "Vector2", "0", "0", "Vector2",
//! "1", "1"]` into a structured value. Arguments are positional; a composite
//! value collects the vectors it is made of from the tokens that follow its tag.
use crate::error::ConfigError;
use crate::number::{is_number, trimmed, Number};
use crate::values::{
    encode_basis, encode_color, encode_plane, encode_rect2, encode_transform, encode_transform2d,
    encode_vector2, encode_vector3, opaque, Basis, Color, Plane, Rect2, Structured, Transform,
    Transform2D, Vector2, Vector3,
};
use vstd::prelude::*;

verus! {

/// The text of each token.
pub open spec fn words(t: Seq<String>) -> Seq<Seq<char>> {
    t.map_values(|s: String| s@)
}

/// The names of the structured types.
pub open spec fn is_tag(s: Seq<char>) -> bool {
    s == "Vector2"@ || s == "Vector3"@ || s == "Color"@ || s == "Rect2"@ || s == "Plane"@ || s
        == "Transform2D"@ || s == "Basis"@ || s == "Transform"@
}

/// An executable result agrees with a specified one.
pub open spec fn agrees<T: View>(r: Result<T, ConfigError>, s: Result<T::V, ConfigError>) -> bool {
    match r {
        Ok(v) => s == Ok::<T::V, ConfigError>(v@),
        Err(e) => s == Err::<T::V, ConfigError>(e),
    }
}

/// The vector whose coordinates are the two tokens after position `i`.
pub open spec fn vector2_at(t: Seq<Seq<char>>, i: int) -> Result<Vector2<Seq<char>>, ConfigError> {
    if i + 2 < t.len() && is_number(t[i + 1]) && is_number(t[i + 2]) {
        Ok(Vector2 { x: trimmed(t[i + 1]), y: trimmed(t[i + 2]) })
    } else {
        Err(ConfigError::MalformedLiteral)
    }
}

/// The vector whose coordinates are the three tokens after position `i`.
pub open spec fn vector3_at(t: Seq<Seq<char>>, i: int) -> Result<Vector3<Seq<char>>, ConfigError> {
    if i + 3 < t.len() && is_number(t[i + 1]) && is_number(t[i + 2]) && is_number(
        t[i + 3],
    ) {
        Ok(Vector3 { x: trimmed(t[i + 1]), y: trimmed(t[i + 2]), z: trimmed(t[i + 3]) })
    } else {
        Err(ConfigError::MalformedLiteral)
    }
}

/// The color whose channels follow position `i`; an alpha is read exactly
/// when the list holds five tokens.
pub open spec fn color_at(t: Seq<Seq<char>>, i: int) -> Result<Color<Seq<char>>, ConfigError> {
    if i + 3 < t.len() && is_number(t[i + 1]) && is_number(t[i + 2]) && is_number(
        t[i + 3],
    ) && (t.len() != 5 || (i + 4 < t.len() && is_number(t[i + 4]))) {
        Ok(
            Color {
                r: trimmed(t[i + 1]),
                g: trimmed(t[i + 2]),
                b: trimmed(t[i + 3]),
                a: if t.len() == 5 {
                    trimmed(t[i + 4])
                } else {
                    opaque()
                },
            },
        )
    } else {
        Err(ConfigError::MalformedLiteral)
    }
}

/// The value whose tag stands at position `i` of `t`.
pub open spec fn decode_at(t: Seq<Seq<char>>, i: int) -> Result<Structured<Seq<char>>, ConfigError>
    decreases t.len(), 0int, 0int,
{
    if !(0 <= i < t.len()) {
        Err(ConfigError::MalformedLiteral)
    } else {
        let tag = t[i];
        let rest = t.subrange(i + 1, t.len() as int);
        if tag == "Vector2"@ {
            match vector2_at(t, i) {
                Ok(v) => Ok(Structured::Vector2(v)),
                Err(e) => Err(e),
            }
        } else if tag == "Vector3"@ {
            match vector3_at(t, i) {
                Ok(v) => Ok(Structured::Vector3(v)),
                Err(e) => Err(e),
            }
        } else if tag == "Color"@ {
            match color_at(t, i) {
                Ok(v) => Ok(Structured::Color(v)),
                Err(e) => Err(e),
            }
        } else if tag == "Rect2"@ {
            match collect2(rest, 0, seq![]) {
                Ok(p) => if p.len() >= 2 {
                    Ok(Structured::Rect2(Rect2 { position: p[0], size: p[1] }))
                } else {
                    Err(ConfigError::MalformedLiteral)
                },
                Err(e) => Err(e),
            }
        } else if tag == "Plane"@ {
            match collect3(rest, 0, seq![]) {
                Ok(p) => if p.len() >= 1 && is_number(t.last()) {
                    Ok(Structured::Plane(Plane { normal: p[0], d: trimmed(t.last()) }))
                } else {
                    Err(ConfigError::MalformedLiteral)
                },
                Err(e) => Err(e),
            }
        } else if tag == "Transform2D"@ {
            match collect2(rest, 0, seq![]) {
                Ok(p) => if p.len() >= 3 {
                    Ok(
                        Structured::Transform2D(
                            Transform2D { x_axis: p[0], y_axis: p[1], origin: p[2] },
                        ),
                    )
                } else {
                    Err(ConfigError::MalformedLiteral)
                },
                Err(e) => Err(e),
            }
        } else if tag == "Basis"@ {
            match collect3(rest, 0, seq![]) {
                Ok(p) => if p.len() >= 3 {
                    Ok(Structured::Basis(Basis { x: p[0], y: p[1], z: p[2] }))
                } else {
                    Err(ConfigError::MalformedLiteral)
                },
                Err(e) => Err(e),
            }
        } else if tag == "Transform"@ {
            match collect3(rest, 0, seq![]) {
                Ok(p) => if p.len() >= 4 {
                    Ok(
                        Structured::Transform(
                            Transform { basis: Basis { x: p[0], y: p[1], z: p[2] }, origin: p[3] },
                        ),
                    )
                } else {
                    Err(ConfigError::MalformedLiteral)
                },
                Err(e) => Err(e),
            }
        } else {
            Err(ConfigError::MalformedLiteral)
        }
    }
}

/// The 2D vectors of `t` from position `j` on, after those in `acc`. A tag of
/// another type ends the list, once its own value has been decoded.
pub open spec fn collect2(t: Seq<Seq<char>>, j: int, acc: Seq<Vector2<Seq<char>>>) -> Result<
    Seq<Vector2<Seq<char>>>,
    ConfigError,
>
    decreases t.len(), 1int, t.len() - j,
{
    if j < 0 || j >= t.len() {
        Ok(acc)
    } else if t[j] == "Vector2"@ {
        match vector2_at(t, j) {
            Ok(v) => collect2(t, j + 1, acc.push(v)),
            Err(e) => Err(e),
        }
    } else if is_tag(t[j]) {
        match decode_at(t, j) {
            Ok(_) => Ok(acc),
            Err(e) => Err(e),
        }
    } else {
        collect2(t, j + 1, acc)
    }
}

/// The 3D vectors of `t` from position `j` on, after those in `acc`. A tag of
/// another type ends the list, once its own value has been decoded.
pub open spec fn collect3(t: Seq<Seq<char>>, j: int, acc: Seq<Vector3<Seq<char>>>) -> Result<
    Seq<Vector3<Seq<char>>>,
    ConfigError,
>
    decreases t.len(), 1int, t.len() - j,
{
    if j < 0 || j >= t.len() {
        Ok(acc)
    } else if t[j] == "Vector3"@ {
        match vector3_at(t, j) {
            Ok(v) => collect3(t, j + 1, acc.push(v)),
            Err(e) => Err(e),
        }
    } else if is_tag(t[j]) {
        match decode_at(t, j) {
            Ok(_) => Ok(acc),
            Err(e) => Err(e),
        }
    } else {
        collect3(t, j + 1, acc)
    }
}

fn tag_is(s: &String, name: &str) -> (r: bool)
    ensures
        r == (s@ == name@),
{
    s.eq(&name.to_owned())
}

fn tail(t: &Vec<String>, from: usize) -> (r: Vec<String>)
    requires
        from <= t.len(),
    ensures
        words(r@) == words(t@).subrange(from as int, t@.len() as int),
{
    let mut r: Vec<String> = Vec::new();
    let mut k: usize = from;
    while k < t.len()
        invariant
            from <= k <= t.len(),
            r@ == t@.subrange(from as int, k as int),
        decreases t.len() - k,
    {
        r.push(t[k].clone());
        k = k + 1;
        assert(r@ =~= t@.subrange(from as int, k as int));
    }
    assert(words(r@) =~= words(t@).subrange(from as int, t@.len() as int));
    r
}

/// Decodes the value whose tag stands at position `i` of the token list.
pub fn decode_value_at(t: &Vec<String>, i: usize) -> (r: Result<Structured<Number>, ConfigError>)
    requires
        i < t.len(),
    ensures
        agrees(r, decode_at(words(t@), i as int)),
        r matches Err(e) ==> e == ConfigError::MalformedLiteral,
    decreases t@.len(), 0int, 0int,
{
    let ghost w = words(t@);
    let n = t.len();
    let tag = &t[i];
    assert(w[i as int] == tag@);
    if tag_is(tag, "Vector2") {
        if n - i > 2 {
            assert(w[i + 1] == t@[i + 1]@ && w[i + 2] == t@[i + 2]@);
            let v = encode_vector2(t[i + 1].as_str(), t[i + 2].as_str())?;
            Ok(Structured::Vector2(v))
        } else {
            Err(ConfigError::MalformedLiteral)
        }
    } else if tag_is(tag, "Vector3") {
        if n - i > 3 {
            assert(w[i + 1] == t@[i + 1]@ && w[i + 2] == t@[i + 2]@ && w[i + 3] == t@[i + 3]@);
            let v = encode_vector3(t[i + 1].as_str(), t[i + 2].as_str(), t[i + 3].as_str())?;
            Ok(Structured::Vector3(v))
        } else {
            Err(ConfigError::MalformedLiteral)
        }
    } else if tag_is(tag, "Color") {
        if n - i <= 3 {
            return Err(ConfigError::MalformedLiteral);
        }
        let alpha = if n == 5 {
            if n - i > 4 {
                assert(w[i + 4] == t@[i + 4]@);
                Some(t[i + 4].as_str())
            } else {
                return Err(ConfigError::MalformedLiteral);
            }
        } else {
            None
        };
        assert(w[i + 1] == t@[i + 1]@ && w[i + 2] == t@[i + 2]@ && w[i + 3] == t@[i + 3]@);
        let c = encode_color(t[i + 1].as_str(), t[i + 2].as_str(), t[i + 3].as_str(), alpha)?;
        Ok(Structured::Color(c))
    } else if tag_is(tag, "Rect2") {
        let rest = tail(t, i + 1);
        let mut p = collect_vector2s(&rest)?;
        if p.len() < 2 {
            return Err(ConfigError::MalformedLiteral);
        }
        let position = p.remove(0);
        let size = p.remove(0);
        Ok(Structured::Rect2(encode_rect2(position, size)))
    } else if tag_is(tag, "Plane") {
        let rest = tail(t, i + 1);
        let mut p = collect_vector3s(&rest)?;
        if p.len() < 1 {
            return Err(ConfigError::MalformedLiteral);
        }
        let normal = p.remove(0);
        assert(w.last() == t@[n - 1]@);
        let plane = encode_plane(normal, t[n - 1].as_str())?;
        Ok(Structured::Plane(plane))
    } else if tag_is(tag, "Transform2D") {
        let rest = tail(t, i + 1);
        let mut p = collect_vector2s(&rest)?;
        if p.len() < 3 {
            return Err(ConfigError::MalformedLiteral);
        }
        let x_axis = p.remove(0);
        let y_axis = p.remove(0);
        let origin = p.remove(0);
        Ok(Structured::Transform2D(encode_transform2d(x_axis, y_axis, origin)))
    } else if tag_is(tag, "Basis") {
        let rest = tail(t, i + 1);
        let mut p = collect_vector3s(&rest)?;
        if p.len() < 3 {
            return Err(ConfigError::MalformedLiteral);
        }
        let x = p.remove(0);
        let y = p.remove(0);
        let z = p.remove(0);
        Ok(Structured::Basis(encode_basis(x, y, z)))
    } else if tag_is(tag, "Transform") {
        let rest = tail(t, i + 1);
        let mut p = collect_vector3s(&rest)?;
        if p.len() < 4 {
            return Err(ConfigError::MalformedLiteral);
        }
        let x = p.remove(0);
        let y = p.remove(0);
        let z = p.remove(0);
        let origin = p.remove(0);
        Ok(Structured::Transform(encode_transform(x, y, z, origin)))
    } else {
        Err(ConfigError::MalformedLiteral)
    }
}

/// The 2D vectors that a composite value is made of, read from its arguments.
pub fn collect_vector2s(t: &Vec<String>) -> (r: Result<Vec<Vector2<Number>>, ConfigError>)
    ensures
        match r {
            Ok(p) => collect2(words(t@), 0, seq![]) == Ok::<Seq<Vector2<Seq<char>>>, ConfigError>(
                p@.map_values(|v: Vector2<Number>| v@),
            ),
            Err(e) => collect2(words(t@), 0, seq![]) == Err::<Seq<Vector2<Seq<char>>>, ConfigError>(e),
        },
        r matches Err(e) ==> e == ConfigError::MalformedLiteral,
    decreases t@.len(), 1int, 0int,
{
    let ghost w = words(t@);
    let mut pool: Vec<Vector2<Number>> = Vec::new();
    let mut j: usize = 0;
    assert(pool@.map_values(|v: Vector2<Number>| v@) =~= seq![]);
    while j < t.len()
        invariant
            j <= t.len(),
            w == words(t@),
            collect2(w, 0, seq![]) == collect2(w, j as int, pool@.map_values(
                |v: Vector2<Number>| v@,
            )),
        decreases t.len() - j,
    {
        let ghost acc = pool@.map_values(|v: Vector2<Number>| v@);
        let tok = &t[j];
        assert(w[j as int] == tok@);
        if tag_is(tok, "Vector2") {
            if t.len() - j <= 2 {
                return Err(ConfigError::MalformedLiteral);
            }
            assert(w[j + 1] == t@[j + 1]@ && w[j + 2] == t@[j + 2]@);
            let v = encode_vector2(t[j + 1].as_str(), t[j + 2].as_str())?;
            pool.push(v);
            assert(pool@.map_values(|v: Vector2<Number>| v@) =~= acc.push(v@));
        } else if tag_is(tok, "Vector3") || tag_is(tok, "Color") || tag_is(tok, "Rect2") || tag_is(
            tok,
            "Plane",
        ) || tag_is(tok, "Transform2D") || tag_is(tok, "Basis") || tag_is(tok, "Transform") {
            decode_value_at(t, j)?;
            return Ok(pool);
        }
        j = j + 1;
    }
    Ok(pool)
}

/// The 3D vectors that a composite value is made of, read from its arguments.
pub fn collect_vector3s(t: &Vec<String>) -> (r: Result<Vec<Vector3<Number>>, ConfigError>)
    ensures
        match r {
            Ok(p) => collect3(words(t@), 0, seq![]) == Ok::<Seq<Vector3<Seq<char>>>, ConfigError>(
                p@.map_values(|v: Vector3<Number>| v@),
            ),
            Err(e) => collect3(words(t@), 0, seq![]) == Err::<Seq<Vector3<Seq<char>>>, ConfigError>(e),
        },
        r matches Err(e) ==> e == ConfigError::MalformedLiteral,
    decreases t@.len(), 1int, 0int,
{
    let ghost w = words(t@);
    let mut pool: Vec<Vector3<Number>> = Vec::new();
    let mut j: usize = 0;
    assert(pool@.map_values(|v: Vector3<Number>| v@) =~= seq![]);
    while j < t.len()
        invariant
            j <= t.len(),
            w == words(t@),
            collect3(w, 0, seq![]) == collect3(w, j as int, pool@.map_values(
                |v: Vector3<Number>| v@,
            )),
        decreases t.len() - j,
    {
        let ghost acc = pool@.map_values(|v: Vector3<Number>| v@);
        let tok = &t[j];
        assert(w[j as int] == tok@);
        if tag_is(tok, "Vector3") {
            if t.len() - j <= 3 {
                return Err(ConfigError::MalformedLiteral);
            }
            assert(w[j + 1] == t@[j + 1]@ && w[j + 2] == t@[j + 2]@ && w[j + 3] == t@[j + 3]@);
            let v = encode_vector3(t[j + 1].as_str(), t[j + 2].as_str(), t[j + 3].as_str())?;
            pool.push(v);
            assert(pool@.map_values(|v: Vector3<Number>| v@) =~= acc.push(v@));
        } else if tag_is(tok, "Vector2") || tag_is(tok, "Color") || tag_is(tok, "Rect2") || tag_is(
            tok,
            "Plane",
        ) || tag_is(tok, "Transform2D") || tag_is(tok, "Basis") || tag_is(tok, "Transform") {
            decode_value_at(t, j)?;
            return Ok(pool);
        }
        j = j + 1;
    }
    Ok(pool)
}

} // verus!
