use godot_toml::{
    decode_value_at, encode_color, encode_godot_types, encode_plane, encode_vector2,
    is_float_literal, scan, tokenize, Basis, Color, ConfigError, Number, Plane, Rect2, Structured,
    Transform, Transform2D, Vector2, Vector3,
};

fn n(s: &str) -> Number {
    Number { text: s.to_string() }
}

fn v2(x: &str, y: &str) -> Vector2<Number> {
    Vector2 { x: n(x), y: n(y) }
}

fn v3(x: &str, y: &str, z: &str) -> Vector3<Number> {
    Vector3 { x: n(x), y: n(y), z: n(z) }
}

fn strings(words: &[&str]) -> Vec<String> {
    words.iter().map(|w| w.to_string()).collect()
}

#[test]
fn text_without_parenthesis_is_kept() {
    assert_eq!(scan("hello world"), Ok(None));
    assert_eq!(scan("Vector2 1 2"), Ok(None));
    assert_eq!(scan(""), Ok(None));
}

#[test]
fn vector2_literal_gives_its_numbers() {
    assert_eq!(scan("Vector2(1.0, 2.5)"), Ok(Some(Structured::Vector2(v2("1.0", "2.5")))));
}

#[test]
fn vector3_literal_gives_its_numbers() {
    assert_eq!(scan("Vector3(1, 2.5, 3e2)"), Ok(Some(Structured::Vector3(v3("1", "2.5", "3e2")))));
}

#[test]
fn color_without_alpha_is_opaque() {
    let expected = Color { r: n("0.1"), g: n("0.2"), b: n("0.3"), a: n("1.0") };
    assert_eq!(scan("Color(0.1, 0.2, 0.3)"), Ok(Some(Structured::Color(expected))));
}

#[test]
fn color_with_alpha_keeps_it() {
    let expected = Color { r: n("0.1"), g: n("0.2"), b: n("0.3"), a: n("0.5") };
    assert_eq!(scan("Color(0.1,0.2,0.3,0.5)"), Ok(Some(Structured::Color(expected))));
}

#[test]
fn rect2_takes_position_and_size() {
    let expected = Rect2 { position: v2("0", "0"), size: v2("10", "10") };
    assert_eq!(
        scan("Rect2(Vector2(0,0), Vector2(10,10))"),
        Ok(Some(Structured::Rect2(expected)))
    );
}

#[test]
fn transform_identity() {
    let expected = Transform {
        basis: Basis { x: v3("1", "0", "0"), y: v3("0", "1", "0"), z: v3("0", "0", "1") },
        origin: v3("0", "0", "0"),
    };
    assert_eq!(
        scan("Transform(Vector3(1,0,0), Vector3(0,1,0), Vector3(0,0,1), Vector3(0,0,0))"),
        Ok(Some(Structured::Transform(expected)))
    );
}

#[test]
fn plane_takes_normal_and_last_number() {
    let expected = Plane { normal: v3("0", "1", "0"), d: n("5") };
    assert_eq!(scan("Plane(Vector3(0, 1, 0), 5)"), Ok(Some(Structured::Plane(expected))));
}

#[test]
fn transform2d_takes_three_vectors() {
    let expected =
        Transform2D { x_axis: v2("1", "0"), y_axis: v2("0", "1"), origin: v2("3", "4") };
    assert_eq!(
        scan("Transform2D(Vector2(1, 0), Vector2(0, 1), Vector2(3, 4))"),
        Ok(Some(Structured::Transform2D(expected)))
    );
}

#[test]
fn basis_takes_three_vectors() {
    let expected = Basis { x: v3("1", "2", "3"), y: v3("4", "5", "6"), z: v3("7", "8", "9") };
    assert_eq!(
        scan("Basis(Vector3(1,2,3), Vector3(4,5,6), Vector3(7,8,9))"),
        Ok(Some(Structured::Basis(expected)))
    );
}

#[test]
fn unknown_tag_is_kept_as_text() {
    assert_eq!(scan("Foo(1,2)"), Ok(None));
    assert_eq!(encode_godot_types("see (below)"), Ok(None));
}

#[test]
fn no_token_before_parenthesis_is_kept_as_text() {
    assert_eq!(scan("( )"), Ok(None));
}

#[test]
fn malformed_number_fails() {
    assert_eq!(scan("Vector2(abc, 2.0)"), Err(ConfigError::MalformedLiteral));
}

#[test]
fn missing_arguments_fail() {
    assert_eq!(scan("Vector2(1)"), Err(ConfigError::MalformedLiteral));
    assert_eq!(scan("Color(1, 2)"), Err(ConfigError::MalformedLiteral));
    assert_eq!(scan("Rect2(Vector2(1, 2))"), Err(ConfigError::MalformedLiteral));
    assert_eq!(scan("Transform(Vector3(1,0,0))"), Err(ConfigError::MalformedLiteral));
}

#[test]
fn minus_sign_is_not_part_of_a_token() {
    assert_eq!(scan("Vector2(-1, 2)"), Ok(Some(Structured::Vector2(v2("1", "2")))));
}

#[test]
fn tokens_are_runs_with_optional_slash() {
    assert_eq!(
        tokenize("Rect2(Vector2(0,0), Vector2(10,10))"),
        strings(&["Rect2", "Vector2", "0", "0", "Vector2", "10", "10"])
    );
    assert_eq!(tokenize("a /b/c // d/"), strings(&["a", "/b", "/c", "d"]));
    assert_eq!(tokenize("x_y-1.5"), strings(&["x", "y", "1.5"]));
    assert_eq!(tokenize(""), strings(&[]));
}

#[test]
fn decoding_reads_from_the_given_position() {
    let t = strings(&["Vector2", "1", "2"]);
    assert_eq!(decode_value_at(&t, 0), Ok(Structured::Vector2(v2("1", "2"))));
    assert_eq!(decode_value_at(&t, 1), Err(ConfigError::MalformedLiteral));
}

#[test]
fn float_literal_syntax() {
    for s in ["1", "1.5", "1.", ".5", "1e5", "2.5E-3", "+7", "-2.5", "inf", "Infinity", "NaN", "-inf"] {
        assert!(is_float_literal(s), "{}", s);
    }
    for s in ["", ".", "e5", "1e", "1.2.3", "abc", "1e+", "--1", "in", "/5", "1 "] {
        assert!(!is_float_literal(s), "{}", s);
    }
    assert_eq!(Number::parse("2.5"), Some(n("2.5")));
    assert_eq!(Number::parse("x"), None);
}

#[test]
fn constructors_check_their_numbers() {
    assert_eq!(encode_vector2("1", "x"), Err(ConfigError::MalformedLiteral));
    assert_eq!(encode_vector2("1", "2"), Ok(v2("1", "2")));
    assert_eq!(
        encode_color("1", "0", "0", Some("0.25")),
        Ok(Color { r: n("1"), g: n("0"), b: n("0"), a: n("0.25") })
    );
    assert_eq!(encode_plane(v3("0", "0", "1"), "bad"), Err(ConfigError::MalformedLiteral));
}

#[test]
fn exponent_and_special_numbers_are_kept_as_written() {
    assert_eq!(scan("Vector2(1e5, inf)"), Ok(Some(Structured::Vector2(v2("1e5", "inf")))));
    let expected = Color { r: n("1"), g: n("NaN"), b: n(".5"), a: n("1.0") };
    assert_eq!(scan("Color(1, NaN, .5)"), Ok(Some(Structured::Color(expected))));
}

#[test]
fn number_arguments_are_trimmed() {
    assert_eq!(encode_vector2(" 1.5 ", "2"), Ok(v2("1.5", "2")));
    assert_eq!(
        encode_color(" 1", "0", "0", None),
        Ok(Color { r: n("1"), g: n("0"), b: n("0"), a: n("1.0") })
    );
    assert_eq!(
        encode_color("0", "0", "0", Some(" 1\t")),
        Ok(Color { r: n("0"), g: n("0"), b: n("0"), a: n("1") })
    );
    assert_eq!(encode_plane(v3("0", "0", "1"), " 1"), Ok(Plane { normal: v3("0", "0", "1"), d: n("1") }));
    assert_eq!(encode_vector2(" ", "2"), Err(ConfigError::MalformedLiteral));
    assert_eq!(godot_toml::trim_text("\u{3000} a b \n"), "a b");
}

#[test]
fn encode_without_parenthesis_keeps_the_text() {
    assert_eq!(encode_godot_types("Vector2 1 2"), Ok(None));
    assert_eq!(encode_godot_types("Vector2(1 2"), Ok(Some(Structured::Vector2(v2("1", "2")))));
}
