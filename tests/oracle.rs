use typify_equiv::attrs::{normalize, Attribute};
use typify_equiv::decl::{Data, Decl, Field, Fields, TypeRef, Variant};
use typify_equiv::mismatch::{DataKind, Mismatch, RefKind, Shape};
use typify_equiv::oracle::{compare_types, equivalent};
use typify_equiv::tokens::{render_run, Delimiter, Token};

fn ident(s: &str) -> Token {
    Token::Ident(s.to_string())
}

fn lit(s: &str) -> Token {
    Token::Literal(s.to_string())
}

fn comma() -> Token {
    Token::Punct(',')
}

fn eq() -> Token {
    Token::Punct('=')
}

fn serde(inner: Vec<Token>) -> Attribute {
    Attribute {
        namespace: "serde".to_string(),
        tokens: vec![Token::Group(Delimiter::Parenthesis, inner)],
    }
}

fn derive_attr() -> Attribute {
    Attribute {
        namespace: "derive".to_string(),
        tokens: vec![Token::Group(
            Delimiter::Parenthesis,
            vec![ident("Clone"), comma(), ident("Debug")],
        )],
    }
}

fn path(s: &str) -> TypeRef {
    TypeRef::Path(s.to_string())
}

fn named(name: &str, ty: TypeRef) -> Field {
    Field { ident: Some(name.to_string()), ty, attrs: vec![] }
}

fn positional(ty: TypeRef) -> Field {
    Field { ident: None, ty, attrs: vec![] }
}

fn record(name: &str, attrs: Vec<Attribute>, fields: Fields) -> Decl {
    Decl { ident: name.to_string(), attrs, data: Data::Record(fields) }
}

fn variant(name: &str, ty: &str) -> Variant {
    Variant { ident: name.to_string(), fields: Fields::Unnamed(vec![positional(path(ty))]) }
}

fn union(name: &str, attrs: Vec<Attribute>, variants: Vec<Variant>) -> Decl {
    Decl { ident: name.to_string(), attrs, data: Data::Union(variants) }
}

fn point(fields: &[&str]) -> Decl {
    record(
        "P",
        vec![],
        Fields::Named(fields.iter().map(|f| named(f, path("i32"))).collect()),
    )
}

fn sorted(mut v: Vec<String>) -> Vec<String> {
    v.sort();
    v
}

#[test]
fn render_run_spaces_tokens_and_encloses_groups() {
    let run = vec![
        ident("bound"),
        Token::Group(Delimiter::Parenthesis, vec![ident("T"), Token::Punct(':'), ident("Clone")]),
        comma(),
        Token::Group(Delimiter::Bracket, vec![]),
        Token::Group(Delimiter::Brace, vec![lit("1")]),
        Token::Group(Delimiter::Invisible, vec![ident("x")]),
    ];
    assert_eq!(render_run(&run), "bound (T : Clone) , [] {1} x");
    assert_eq!(render_run(&vec![]), "");
}

#[test]
fn normalize_splits_top_level_commas_and_drops_renames() {
    let attrs = vec![
        derive_attr(),
        serde(vec![
            ident("tag"), eq(), lit("\"type\""), comma(),
            ident("rename_all"), eq(), lit("\"camelCase\""), comma(),
            ident("bound"),
            Token::Group(Delimiter::Parenthesis, vec![ident("A"), comma(), ident("B")]),
        ]),
    ];
    let set = normalize(&attrs).unwrap();
    assert_eq!(sorted(set), vec!["bound (A , B)".to_string(), "tag = \"type\"".to_string()]);
}

#[test]
fn normalize_of_no_serialization_attributes_is_empty() {
    assert!(normalize(&vec![]).unwrap().is_empty());
    assert!(normalize(&vec![derive_attr()]).unwrap().is_empty());
}

#[test]
fn normalize_collapses_duplicates_across_attributes() {
    let attrs = vec![
        serde(vec![ident("untagged")]),
        serde(vec![ident("untagged"), comma(), ident("default")]),
    ];
    let set = normalize(&attrs).unwrap();
    assert_eq!(sorted(set), vec!["default".to_string(), "untagged".to_string()]);
}

#[test]
fn normalize_keeps_the_empty_directive_after_a_trailing_comma() {
    let set = normalize(&vec![serde(vec![ident("default"), comma()])]).unwrap();
    assert_eq!(sorted(set), vec!["".to_string(), "default".to_string()]);
}

#[test]
fn normalize_refuses_a_payload_that_is_not_one_group() {
    let bare = Attribute { namespace: "serde".to_string(), tokens: vec![ident("untagged")] };
    assert!(matches!(normalize(&vec![bare]), Err(Mismatch::UnsupportedAttribute)));
    let two = Attribute {
        namespace: "serde".to_string(),
        tokens: vec![
            Token::Group(Delimiter::Parenthesis, vec![]),
            Token::Group(Delimiter::Parenthesis, vec![]),
        ],
    };
    assert!(matches!(normalize(&vec![two]), Err(Mismatch::UnsupportedAttribute)));
    let empty = Attribute { namespace: "serde".to_string(), tokens: vec![] };
    assert!(matches!(normalize(&vec![empty]), Err(Mismatch::UnsupportedAttribute)));
}

#[test]
fn declaration_is_equivalent_to_itself() {
    let d = union(
        "E",
        vec![serde(vec![ident("untagged")])],
        vec![
            variant("A", "i32"),
            Variant {
                ident: "B".to_string(),
                fields: Fields::Named(vec![named(
                    "t",
                    TypeRef::Tuple(vec![path("i32"), TypeRef::Tuple(vec![path("u8")])]),
                )]),
            },
            Variant { ident: "C".to_string(), fields: Fields::Unit },
        ],
    );
    assert!(equivalent(&d, &d, false).is_ok());
    assert!(equivalent(&d, &d, true).is_ok());
}

#[test]
fn rename_directive_does_not_affect_equivalence() {
    let plain = record("P", vec![], Fields::Named(vec![named("x", path("i32"))]));
    let renamed = record(
        "P",
        vec![serde(vec![ident("rename"), eq(), lit("\"p\"")])],
        Fields::Named(vec![Field {
            ident: Some("x".to_string()),
            ty: path("i32"),
            attrs: vec![serde(vec![ident("rename"), eq(), lit("\"X\"")])],
        }]),
    );
    assert!(equivalent(&plain, &renamed, false).is_ok());
    assert!(equivalent(&renamed, &plain, false).is_ok());
}

#[test]
fn directive_order_does_not_affect_equivalence() {
    let a = record(
        "P",
        vec![serde(vec![ident("deny_unknown_fields"), comma(), ident("default")])],
        Fields::Unit,
    );
    let b = record(
        "P",
        vec![serde(vec![ident("default"), comma(), ident("deny_unknown_fields")])],
        Fields::Unit,
    );
    assert!(equivalent(&a, &b, false).is_ok());
}

#[test]
fn different_directives_are_an_attribute_mismatch() {
    let a = record("P", vec![serde(vec![ident("default")])], Fields::Unit);
    let b = record("P", vec![], Fields::Unit);
    match equivalent(&a, &b, false) {
        Err(Mismatch::Attributes { expected, actual }) => {
            assert_eq!(expected, vec!["default".to_string()]);
            assert!(actual.is_empty());
        }
        other => panic!("unexpected outcome {:?}", other),
    }
}

#[test]
fn swapped_variants_are_not_equivalent() {
    let a = union("U", vec![], vec![variant("A", "i32"), variant("B", "String")]);
    let b = union("U", vec![], vec![variant("B", "String"), variant("A", "i32")]);
    match equivalent(&a, &b, false) {
        Err(Mismatch::Ident { expected, actual }) => {
            assert_eq!(expected, "A");
            assert_eq!(actual, "B");
        }
        other => panic!("unexpected outcome {:?}", other),
    }
    match equivalent(&a, &b, true) {
        Err(Mismatch::Path { expected, actual }) => {
            assert_eq!(expected, "i32");
            assert_eq!(actual, "String");
        }
        other => panic!("unexpected outcome {:?}", other),
    }
}

#[test]
fn relaxed_variant_names_are_ignored() {
    let a = union("U", vec![], vec![variant("Foo", "i32")]);
    let b = union("U", vec![], vec![variant("Bar", "i32")]);
    assert!(equivalent(&a, &b, true).is_ok());
    match equivalent(&a, &b, false) {
        Err(Mismatch::Ident { expected, actual }) => {
            assert_eq!(expected, "Foo");
            assert_eq!(actual, "Bar");
        }
        other => panic!("unexpected outcome {:?}", other),
    }
}

#[test]
fn declaration_names_count_even_when_relaxed() {
    let a = union("U", vec![], vec![variant("Foo", "i32")]);
    let b = union("V", vec![], vec![variant("Foo", "i32")]);
    assert!(matches!(equivalent(&a, &b, true), Err(Mismatch::Ident { .. })));
}

#[test]
fn field_counts_that_differ_are_a_length_mismatch() {
    let r = equivalent(&point(&["x", "y"]), &point(&["x", "y", "z"]), false);
    assert!(matches!(r, Err(Mismatch::Length { expected: 2, actual: 3 })));
    let a = union("U", vec![], vec![variant("A", "i32")]);
    let b = union("U", vec![], vec![variant("A", "i32"), variant("B", "i32")]);
    assert!(matches!(equivalent(&a, &b, true), Err(Mismatch::Length { expected: 1, actual: 2 })));
}

#[test]
fn path_against_tuple_is_a_kind_mismatch() {
    let p = path("String");
    let t = TypeRef::Tuple(vec![path("i32"), path("i32")]);
    assert!(matches!(
        compare_types(&p, &t),
        Err(Mismatch::TypeKind { expected: RefKind::Path, actual: RefKind::Tuple })
    ));
    assert!(matches!(
        compare_types(&t, &p),
        Err(Mismatch::TypeKind { expected: RefKind::Tuple, actual: RefKind::Path })
    ));
}

#[test]
fn tuples_compare_element_by_element() {
    let a = TypeRef::Tuple(vec![path("i32"), path("u8")]);
    let b = TypeRef::Tuple(vec![path("i32"), path("u16")]);
    let c = TypeRef::Tuple(vec![path("i32")]);
    assert!(matches!(compare_types(&a, &b), Err(Mismatch::Path { .. })));
    assert!(matches!(compare_types(&a, &c), Err(Mismatch::Length { expected: 2, actual: 1 })));
    assert!(compare_types(&a, &TypeRef::Tuple(vec![path("i32"), path("u8")])).is_ok());
}

#[test]
fn paths_compare_exactly() {
    match compare_types(&path("std::string::String"), &path("String")) {
        Err(Mismatch::Path { expected, actual }) => {
            assert_eq!(expected, "std::string::String");
            assert_eq!(actual, "String");
        }
        other => panic!("unexpected outcome {:?}", other),
    }
}

#[test]
fn unsupported_type_reference_fails_loudly() {
    let other = TypeRef::Other("[u8; 4]".to_string());
    match compare_types(&other, &other) {
        Err(Mismatch::UnsupportedType { text }) => assert_eq!(text, "[u8; 4]"),
        r => panic!("unexpected outcome {:?}", r),
    }
    assert!(matches!(compare_types(&path("u8"), &other), Err(Mismatch::UnsupportedType { .. })));
}

#[test]
fn record_against_union_is_a_data_kind_mismatch() {
    let a = record("T", vec![], Fields::Unit);
    let b = union("T", vec![], vec![]);
    assert!(matches!(
        equivalent(&a, &b, false),
        Err(Mismatch::DataKind { expected: DataKind::Record, actual: DataKind::Union })
    ));
    let o = Decl { ident: "T".to_string(), attrs: vec![], data: Data::Other };
    assert!(matches!(
        equivalent(&o, &b, false),
        Err(Mismatch::DataKind { expected: DataKind::Other, actual: DataKind::Union })
    ));
    assert!(matches!(equivalent(&o, &o, false), Err(Mismatch::UnsupportedData)));
}

#[test]
fn field_container_shapes_must_match() {
    let a = record("T", vec![], Fields::Unit);
    let b = record("T", vec![], Fields::Unnamed(vec![positional(path("i32"))]));
    assert!(matches!(
        equivalent(&a, &b, false),
        Err(Mismatch::FieldsKind { expected: Shape::Unit, actual: Shape::Unnamed })
    ));
}

#[test]
fn named_against_positional_field_is_an_ident_presence_mismatch() {
    let a = record("T", vec![], Fields::Unnamed(vec![named("x", path("i32"))]));
    let b = record("T", vec![], Fields::Unnamed(vec![positional(path("i32"))]));
    assert!(matches!(equivalent(&a, &b, false), Err(Mismatch::IdentPresence)));
}

#[test]
fn field_attributes_are_compared() {
    let mut flagged = named("x", path("i32"));
    flagged.attrs = vec![serde(vec![ident("default")])];
    let a = record("T", vec![], Fields::Named(vec![flagged]));
    let b = record("T", vec![], Fields::Named(vec![named("x", path("i32"))]));
    assert!(matches!(equivalent(&a, &b, false), Err(Mismatch::Attributes { .. })));
}

#[test]
fn unsupported_attribute_payload_fails_the_comparison() {
    let bad = Attribute { namespace: "serde".to_string(), tokens: vec![] };
    let a = record("T", vec![bad], Fields::Unit);
    let b = record("T", vec![], Fields::Unit);
    assert!(matches!(equivalent(&b, &a, false), Err(Mismatch::UnsupportedAttribute)));
}

#[test]
fn generated_record_matches_reference_record() {
    // struct P { x: i32, y: i32 } against what the engine emits for an object
    // schema with required integer properties x and y.
    let reference = point(&["x", "y"]);
    let generated = record(
        "P",
        vec![derive_attr()],
        Fields::Named(vec![named("x", path("i32")), named("y", path("i32"))]),
    );
    assert!(equivalent(&reference, &generated, false).is_ok());
}

#[test]
fn generated_untagged_union_matches_reference_union() {
    // enum E { V1(i32), V2(String) } with #[serde(untagged)], against the
    // engine's union of an integer and a string, whose variant names differ.
    let reference = union(
        "E",
        vec![serde(vec![ident("untagged")])],
        vec![variant("V1", "i32"), variant("V2", "String")],
    );
    let generated = union(
        "E",
        vec![derive_attr(), serde(vec![ident("untagged")])],
        vec![variant("Variant0", "i32"), variant("Variant1", "String")],
    );
    assert!(equivalent(&reference, &generated, true).is_ok());
    assert!(matches!(equivalent(&reference, &generated, false), Err(Mismatch::Ident { .. })));
}
