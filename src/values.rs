//! The structured values that string literals can denote, and their
//! constructors. Each type is generic over its number type: `Number` in
//! executable code, the literal's text (`Seq<char>`) in specifications.
use crate::error::ConfigError;
use crate::number::{is_number, trim_text, trimmed, Number};
use vstd::prelude::*;

verus! {

#[derive(Debug, PartialEq)]
pub struct Vector2<N> {
    pub x: N,
    pub y: N,
}

#[derive(Debug, PartialEq)]
pub struct Vector3<N> {
    pub x: N,
    pub y: N,
    pub z: N,
}

#[derive(Debug, PartialEq)]
pub struct Color<N> {
    pub r: N,
    pub g: N,
    pub b: N,
    pub a: N,
}

#[derive(Debug, PartialEq)]
pub struct Rect2<N> {
    pub position: Vector2<N>,
    pub size: Vector2<N>,
}

#[derive(Debug, PartialEq)]
pub struct Plane<N> {
    pub normal: Vector3<N>,
    pub d: N,
}

#[derive(Debug, PartialEq)]
pub struct Transform2D<N> {
    pub x_axis: Vector2<N>,
    pub y_axis: Vector2<N>,
    pub origin: Vector2<N>,
}

/// A 3x3 matrix given by its three axis vectors.
#[derive(Debug, PartialEq)]
pub struct Basis<N> {
    pub x: Vector3<N>,
    pub y: Vector3<N>,
    pub z: Vector3<N>,
}

#[derive(Debug, PartialEq)]
pub struct Transform<N> {
    pub basis: Basis<N>,
    pub origin: Vector3<N>,
}

#[derive(Debug, PartialEq)]
pub enum Structured<N> {
    Vector2(Vector2<N>),
    Vector3(Vector3<N>),
    Color(Color<N>),
    Rect2(Rect2<N>),
    Plane(Plane<N>),
    Transform2D(Transform2D<N>),
    Basis(Basis<N>),
    Transform(Transform<N>),
}

impl<N: View> View for Vector2<N> {
    type V = Vector2<N::V>;

    open spec fn view(&self) -> Vector2<N::V> {
        Vector2 { x: self.x@, y: self.y@ }
    }
}

impl<N: View> View for Vector3<N> {
    type V = Vector3<N::V>;

    open spec fn view(&self) -> Vector3<N::V> {
        Vector3 { x: self.x@, y: self.y@, z: self.z@ }
    }
}

impl<N: View> View for Color<N> {
    type V = Color<N::V>;

    open spec fn view(&self) -> Color<N::V> {
        Color { r: self.r@, g: self.g@, b: self.b@, a: self.a@ }
    }
}

impl<N: View> View for Rect2<N> {
    type V = Rect2<N::V>;

    open spec fn view(&self) -> Rect2<N::V> {
        Rect2 { position: self.position@, size: self.size@ }
    }
}

impl<N: View> View for Plane<N> {
    type V = Plane<N::V>;

    open spec fn view(&self) -> Plane<N::V> {
        Plane { normal: self.normal@, d: self.d@ }
    }
}

impl<N: View> View for Transform2D<N> {
    type V = Transform2D<N::V>;

    open spec fn view(&self) -> Transform2D<N::V> {
        Transform2D { x_axis: self.x_axis@, y_axis: self.y_axis@, origin: self.origin@ }
    }
}

impl<N: View> View for Basis<N> {
    type V = Basis<N::V>;

    open spec fn view(&self) -> Basis<N::V> {
        Basis { x: self.x@, y: self.y@, z: self.z@ }
    }
}

impl<N: View> View for Transform<N> {
    type V = Transform<N::V>;

    open spec fn view(&self) -> Transform<N::V> {
        Transform { basis: self.basis@, origin: self.origin@ }
    }
}

impl<N: View> View for Structured<N> {
    type V = Structured<N::V>;

    open spec fn view(&self) -> Structured<N::V> {
        match self {
            Structured::Vector2(v) => Structured::Vector2(v@),
            Structured::Vector3(v) => Structured::Vector3(v@),
            Structured::Color(v) => Structured::Color(v@),
            Structured::Rect2(v) => Structured::Rect2(v@),
            Structured::Plane(v) => Structured::Plane(v@),
            Structured::Transform2D(v) => Structured::Transform2D(v@),
            Structured::Basis(v) => Structured::Basis(v@),
            Structured::Transform(v) => Structured::Transform(v@),
        }
    }
}

/// The alpha of a color whose literal gives none: fully opaque.
pub open spec fn opaque() -> Seq<char> {
    seq!['1', '.', '0']
}

/// The number that `t` denotes once trimmed, or a malformed-literal error.
pub open spec fn number_of(t: Seq<char>) -> Result<Seq<char>, ConfigError> {
    if is_number(t) {
        Ok(trimmed(t))
    } else {
        Err(ConfigError::MalformedLiteral)
    }
}

fn read_number(t: &str) -> (r: Result<Number, ConfigError>)
    ensures
        match r {
            Ok(n) => number_of(t@) == Ok::<Seq<char>, ConfigError>(n@),
            Err(e) => number_of(t@) == Err::<Seq<char>, ConfigError>(e),
        },
{
    match Number::parse(trim_text(t)) {
        Some(n) => Ok(n),
        None => Err(ConfigError::MalformedLiteral),
    }
}

/// A vector from the literals of its two coordinates.
pub fn encode_vector2(x: &str, y: &str) -> (r: Result<Vector2<Number>, ConfigError>)
    ensures
        r is Ok <==> is_number(x@) && is_number(y@),
        r matches Ok(v) ==> v@ == (Vector2 { x: trimmed(x@), y: trimmed(y@) }),
        r matches Err(e) ==> e == ConfigError::MalformedLiteral,
{
    let vx = read_number(x)?;
    let vy = read_number(y)?;
    Ok(Vector2 { x: vx, y: vy })
}

/// A vector from the literals of its three coordinates.
pub fn encode_vector3(x: &str, y: &str, z: &str) -> (r: Result<Vector3<Number>, ConfigError>)
    ensures
        r is Ok <==> is_number(x@) && is_number(y@) && is_number(z@),
        r matches Ok(v) ==> v@ == (Vector3 { x: trimmed(x@), y: trimmed(y@), z: trimmed(z@) }),
        r matches Err(e) ==> e == ConfigError::MalformedLiteral,
{
    let vx = read_number(x)?;
    let vy = read_number(y)?;
    let vz = read_number(z)?;
    Ok(Vector3 { x: vx, y: vy, z: vz })
}

/// A color from the literals of its channels; without an alpha it is opaque.
pub fn encode_color(r: &str, g: &str, b: &str, a: Option<&str>) -> (c: Result<Color<Number>, ConfigError>)
    ensures
        c is Ok <==> is_number(r@) && is_number(g@) && is_number(b@) && match a {
            Some(t) => is_number(t@),
            None => true,
        },
        c matches Ok(v) ==> v@ == (Color {
            r: trimmed(r@),
            g: trimmed(g@),
            b: trimmed(b@),
            a: match a {
                Some(t) => trimmed(t@),
                None => opaque(),
            },
        }),
        c matches Err(e) ==> e == ConfigError::MalformedLiteral,
{
    let vr = read_number(r)?;
    let vg = read_number(g)?;
    let vb = read_number(b)?;
    let va = match a {
        Some(t) => read_number(t)?,
        None => {
            let one = Number { text: "1.0".to_owned() };
            proof {
                reveal_strlit("1.0");
                assert(one@ =~= opaque());
            }
            one
        },
    };
    Ok(Color { r: vr, g: vg, b: vb, a: va })
}

/// A rectangle at `pos_vec` with size `size_vec`.
pub fn encode_rect2(pos_vec: Vector2<Number>, size_vec: Vector2<Number>) -> (r: Rect2<Number>)
    ensures
        r@ == (Rect2 { position: pos_vec@, size: size_vec@ }),
{
    Rect2 { position: pos_vec, size: size_vec }
}

/// A 2D transform from its two axes and its origin.
pub fn encode_transform2d(
    x_axis_vec: Vector2<Number>,
    y_axis_vec: Vector2<Number>,
    origin_vec: Vector2<Number>,
) -> (r: Transform2D<Number>)
    ensures
        r@ == (Transform2D { x_axis: x_axis_vec@, y_axis: y_axis_vec@, origin: origin_vec@ }),
{
    Transform2D { x_axis: x_axis_vec, y_axis: y_axis_vec, origin: origin_vec }
}

/// A basis from its three axis vectors.
pub fn encode_basis(x: Vector3<Number>, y: Vector3<Number>, z: Vector3<Number>) -> (r: Basis<
    Number,
>)
    ensures
        r@ == (Basis { x: x@, y: y@, z: z@ }),
{
    Basis { x, y, z }
}

/// A 3D transform: the basis of the three axes, and the origin.
pub fn encode_transform(
    x_axis_vec: Vector3<Number>,
    y_axis_vec: Vector3<Number>,
    z_axis_vec: Vector3<Number>,
    origin_vec: Vector3<Number>,
) -> (r: Transform<Number>)
    ensures
        r@ == (Transform {
            basis: Basis { x: x_axis_vec@, y: y_axis_vec@, z: z_axis_vec@ },
            origin: origin_vec@,
        }),
{
    Transform { basis: encode_basis(x_axis_vec, y_axis_vec, z_axis_vec), origin: origin_vec }
}

/// A plane from its normal and the literal of its distance from the origin.
pub fn encode_plane(normal_vec: Vector3<Number>, d: &str) -> (r: Result<Plane<Number>, ConfigError>)
    ensures
        r is Ok <==> is_number(d@),
        r matches Ok(p) ==> p@ == (Plane { normal: normal_vec@, d: trimmed(d@) }),
        r matches Err(e) ==> e == ConfigError::MalformedLiteral,
{
    let vd = read_number(d)?;
    Ok(Plane { normal: normal_vec, d: vd })
}

} // verus!
