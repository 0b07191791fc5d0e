use godot_toml::{
    build_tree, parse_document, ConfigError, Doc, GodotToml, Number, Structured, Tree, Vector2,
};

fn s(x: &str) -> String {
    x.to_string()
}

fn mapping(t: &Tree) -> &Vec<(String, Tree)> {
    match t {
        Tree::Mapping(m) => m,
        other => panic!("not a mapping: {:?}", other),
    }
}

fn get<'a>(t: &'a Tree, key: &str) -> &'a Tree {
    &mapping(t).iter().find(|(k, _)| k == key).expect("missing key").1
}

#[test]
fn nested_tables_become_nested_mappings() {
    let text = "top = 1\n[a]\nb = true\n[a.c]\nd = \"deep\"\n[a.c.e]\nf = 2\n";
    let tree = GodotToml::new().parse_toml(text).unwrap();
    assert_eq!(get(&tree, "top"), &Tree::Integer(1));
    let a = get(&tree, "a");
    assert_eq!(get(a, "b"), &Tree::Boolean(true));
    let c = get(a, "c");
    assert_eq!(get(c, "d"), &Tree::Str(s("deep")));
    assert_eq!(get(get(c, "e"), "f"), &Tree::Integer(2));
}

#[test]
fn scalars_are_copied() {
    let tree = GodotToml::new().parse_toml("f = 2.5\nd = 1979-05-27T07:32:00Z\n").unwrap();
    assert_eq!(get(&tree, "f"), &Tree::Float(2.5f64.to_bits()));
    assert_eq!(get(&tree, "d"), &Tree::Str(s("1979-05-27T07:32:00Z")));
}

#[test]
fn string_literals_are_decoded_in_documents() {
    let tree = GodotToml::new().parse_toml("pos = \"Vector2(1, 2)\"\nname = \"Foo(1,2)\"\n").unwrap();
    let expected = Vector2 { x: Number { text: s("1") }, y: Number { text: s("2") } };
    assert_eq!(get(&tree, "pos"), &Tree::Structured(Structured::Vector2(expected)));
    assert_eq!(get(&tree, "name"), &Tree::Str(s("Foo(1,2)")));
}

#[test]
fn malformed_literal_fails_the_document() {
    let r = GodotToml::new().parse_toml("ok = 1\nbad = \"Vector2(abc, 2.0)\"\n");
    assert_eq!(r, Err(ConfigError::MalformedLiteral));
}

#[test]
fn arrays_of_tables_become_sequences() {
    let tree = GodotToml::new().parse_toml("[[items]]\nname = \"x\"\n[[items]]\nname = \"y\"\n").unwrap();
    match get(&tree, "items") {
        Tree::Sequence(v) => {
            assert_eq!(v.len(), 2);
            assert_eq!(get(&v[1], "name"), &Tree::Str(s("y")));
        }
        other => panic!("not a sequence: {:?}", other),
    }
}

#[test]
fn array_of_scalars_is_a_schema_error() {
    assert_eq!(GodotToml::new().parse_toml("arr = [1, 2]\n"), Err(ConfigError::Schema));
}

#[test]
fn bad_text_is_a_parse_error() {
    assert_eq!(GodotToml::new().parse_toml("= ="), Err(ConfigError::Parse));
    assert_eq!(parse_document("a = "), Err(ConfigError::Parse));
}

#[test]
fn parsed_document_mirrors_the_text() {
    let d = parse_document("x = 3\ny = \"hi\"\n").unwrap();
    assert_eq!(d, Doc::Table(vec![(s("x"), Doc::Integer(3)), (s("y"), Doc::Str(s("hi")))]));
}

#[test]
fn root_must_be_a_table() {
    assert_eq!(build_tree(&Doc::Integer(1)), Err(ConfigError::Schema));
    let doc = Doc::Table(vec![(s("k"), Doc::Float(7))]);
    assert_eq!(build_tree(&doc), Ok(Tree::Mapping(vec![(s("k"), Tree::Float(7))])));
}

#[test]
fn empty_document_is_an_empty_mapping() {
    assert_eq!(GodotToml::new().parse_toml(""), Ok(Tree::Mapping(vec![])));
    assert_eq!(GodotToml::new().parse_toml("[a]\n"), Ok(Tree::Mapping(vec![(s("a"), Tree::Mapping(vec![]))])));
}

#[test]
fn nested_table_tree_is_exact() {
    let tree = GodotToml::new().parse_toml("[a]\nx = 1\n[a.b]\ny = true\nz = 2.5\n").unwrap();
    let expected = Tree::Mapping(vec![(
        s("a"),
        Tree::Mapping(vec![
            (
                s("b"),
                Tree::Mapping(vec![
                    (s("y"), Tree::Boolean(true)),
                    (s("z"), Tree::Float(2.5f64.to_bits())),
                ]),
            ),
            (s("x"), Tree::Integer(1)),
        ]),
    )]);
    assert_eq!(tree, expected);
}

#[test]
fn root_that_is_not_a_table_and_deep_nesting() {
    let deep = "a = [[[[[[[[{ b = 1 }]]]]]]]]\n";
    assert_eq!(GodotToml::new().parse_toml(deep), Err(ConfigError::Schema));
    let nested = "x = { a = { b = { c = { d = { e = 1 } } } } }\n";
    assert!(GodotToml::new().parse_toml(nested).is_ok());
}
