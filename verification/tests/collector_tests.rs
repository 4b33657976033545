use rust_signatures_mcp::syntax::analyze_source;
use rust_signatures_mcp::types::{EnumVariant, Signature};

#[test]
fn extracts_function_signature() {
    let src = r#"
pub fn greet(name: &str) -> String {
    format!("Hello, {}!", name)
}
"#;
    let sigs = analyze_source(src);
    assert_eq!(sigs.len(), 1);
    match &sigs[0] {
        Signature::Fn { docs, signature } => {
            assert!(docs.is_empty());
            assert!(signature.contains("greet"));
            assert!(signature.contains("name"));
            assert!(signature.contains("String"));
        }
        other => panic!("expected Fn, got {:?}", other),
    }
}

#[test]
fn extracts_function_with_docs() {
    let src = r#"
/// Adds two numbers together.
///
/// # Panics
/// Panics on overflow.
fn add(a: i32, b: i32) -> i32 {
    a + b
}
"#;
    let sigs = analyze_source(src);
    assert_eq!(sigs.len(), 1);
    match &sigs[0] {
        Signature::Fn { docs, signature } => {
            assert!(docs.iter().any(|d| d == "Adds two numbers together."));
            assert!(docs.iter().any(|d| d == "# Panics"));
            assert!(docs.iter().any(|d| d.contains("Panics on overflow")));
            assert!(signature.contains("add"));
            assert!(signature.contains("i32"));
        }
        other => panic!("expected Fn, got {:?}", other),
    }
}

#[test]
fn extracts_struct_with_generics() {
    let src = r#"
/// A key-value store backed by a Vec.
struct KeyValueStore<K, V> {
    keys: Vec<K>,
    values: Vec<V>,
}
"#;
    let sigs = analyze_source(src);
    assert_eq!(sigs.len(), 1);
    match &sigs[0] {
        Signature::Struct { docs, name, generics } => {
            assert_eq!(docs.len(), 1);
            assert_eq!(docs[0], "A key-value store backed by a Vec.");
            assert_eq!(name, "KeyValueStore");
            assert!(generics.contains('K'));
            assert!(generics.contains('V'));
        }
        other => panic!("expected Struct, got {:?}", other),
    }
}

#[test]
fn extracts_enum_with_all_variant_kinds() {
    let src = r#"
/// HTTP request methods.
enum HttpMethod {
    Get,
    Post(PostData),
    /// A custom method with headers.
    Custom { name: String, headers: Vec<u8> },
}
"#;
    let sigs = analyze_source(src);
    assert_eq!(sigs.len(), 1);
    match &sigs[0] {
        Signature::Enum { docs, name, variants, .. } => {
            assert_eq!(docs.len(), 1);
            assert_eq!(docs[0], "HTTP request methods.");
            assert_eq!(name, "HttpMethod");
            assert_eq!(variants.len(), 3);

            match &variants[0] {
                EnumVariant::Unit { name, docs } => {
                    assert_eq!(name, "Get");
                    assert!(docs.is_empty());
                }
                other => panic!("variant 0: expected Unit, got {:?}", other),
            }

            match &variants[1] {
                EnumVariant::Tuple { name, docs, types } => {
                    assert_eq!(name, "Post");
                    assert!(docs.is_empty());
                    assert!(types.iter().any(|t| t.contains("PostData")));
                }
                other => panic!("variant 1: expected Tuple, got {:?}", other),
            }

            match &variants[2] {
                EnumVariant::Named { name, docs, fields } => {
                    assert_eq!(name, "Custom");
                    assert_eq!(docs.len(), 1);
                    assert!(fields.iter().any(|f| f.contains("name")));
                    assert!(fields.iter().any(|f| f.contains("headers")));
                }
                other => panic!("variant 2: expected Named, got {:?}", other),
            }
        }
        other => panic!("expected Enum, got {:?}", other),
    }
}

#[test]
fn extracts_trait() {
    let src = r#"
/// A generic iterator.
trait Iterator {
    type Item;
    fn next(&mut self) -> Option<Self::Item>;
}
"#;
    let sigs = analyze_source(src);
    assert!(sigs
        .iter()
        .any(|s| matches!(s, Signature::Trait { name, .. } if name == "Iterator")));
}

#[test]
fn extracts_inherent_impl_with_associated_items() {
    let src = r#"
struct Point {
    x: f64,
    y: f64,
}

impl Point {
    fn new(x: f64, y: f64) -> Self {
        Self { x, y }
    }

    fn distance_from_origin(&self) -> f64 {
        (self.x.powi(2) + self.y.powi(2)).sqrt()
    }
}
"#;
    let sigs = analyze_source(src);
    let impl_sig = sigs.iter().find(|s| matches!(s, Signature::Impl { .. }));
    assert!(impl_sig.is_some(), "expected an Impl signature");
    match impl_sig.unwrap() {
        Signature::Impl { trait_name, for_type, associated } => {
            assert!(trait_name.is_none());
            assert!(for_type.contains("Point"));
            assert_eq!(associated.len(), 2);
            assert!(associated.iter().any(
                |s| matches!(s, Signature::Fn { signature, .. } if signature.contains("new"))
            ));
            assert!(associated.iter().any(|s| matches!(s, Signature::Fn { signature, .. } if signature.contains("distance_from_origin"))));
        }
        other => panic!("expected Impl, got {:?}", other),
    }
}

#[test]
fn extracts_trait_impl() {
    let src = r#"
struct MyVec(Vec<i32>);

impl std::fmt::Display for MyVec {
    fn fmt(&self, f: &mut std::fmt::Formatter<'_>) -> std::fmt::Result {
        write!(f, "{:?}", self.0)
    }
}
"#;
    let sigs = analyze_source(src);
    let impl_sig = sigs.iter().find(|s| matches!(s, Signature::Impl { .. }));
    match impl_sig.unwrap() {
        Signature::Impl { trait_name, for_type, .. } => {
            assert!(trait_name.as_ref().unwrap().contains("Display"));
            assert!(for_type.contains("MyVec"));
        }
        other => panic!("expected Impl, got {:?}", other),
    }
}

#[test]
fn extracts_multiple_items() {
    let src = r#"
/// A helper struct.
struct Helper;

/// Does helper things.
fn do_help() {}
"#;
    let sigs = analyze_source(src);
    assert_eq!(sigs.len(), 2);
    assert!(sigs.iter().any(|s| matches!(s, Signature::Struct { .. })));
    assert!(sigs.iter().any(|s| matches!(s, Signature::Fn { .. })));
}

#[test]
fn returns_empty_on_invalid_syntax() {
    let sigs = analyze_source("this is not valid rust {{{");
    assert!(sigs.is_empty());
}

#[test]
fn extract_docs_from_source() {
    let src = r#"
/// Single line doc.
/// Second line.
fn documented() {}
"#;
    let sigs = analyze_source(src);
    match &sigs[0] {
        Signature::Fn { docs, .. } => {
            assert_eq!(docs.len(), 2);
            assert_eq!(docs[0], "Single line doc.");
            assert_eq!(docs[1], "Second line.");
        }
        other => panic!("expected Fn, got {:?}", other),
    }
}

#[test]
fn doc_comments_stripped_of_whitespace() {
    let src = r#"
///   Leading spaces.
///   
/// Trailing spaces after trim.   
fn spaced() {}
"#;
    let sigs = analyze_source(src);
    match &sigs[0] {
        Signature::Fn { docs, .. } => {
            assert_eq!(docs[0], "Leading spaces.");
            assert_eq!(docs[1], "");
            assert_eq!(docs[2], "Trailing spaces after trim.");
        }
        other => panic!("expected Fn, got {:?}", other),
    }
}

#[test]
fn generics_and_impl_types_are_their_own_text() {
    let sigs = analyze_source("struct KeyValueStore<K, V> { keys: Vec<K> }\nenum Tree<T> { Leaf(T) }\nimpl Point { fn new() -> Self { Point } }\n");
    assert_eq!(sigs.len(), 3);
    assert_eq!(rust_signatures_mcp::types::render_signature(&sigs[0]), "struct KeyValueStore< K , V >");
    assert!(rust_signatures_mcp::types::render_signature(&sigs[1]).starts_with("enum  Tree< T > {"));
    match &sigs[2] {
        Signature::Impl { for_type, associated, .. } => {
            assert_eq!(for_type, "Point");
            assert_eq!(associated.len(), 1);
        }
        other => panic!("expected Impl, got {:?}", other),
    }
}

#[test]
fn items_inside_a_constant_block_are_collected() {
    let sigs = analyze_source("const _: () = { impl X for Y {} fn helper() {} };");
    assert_eq!(sigs.len(), 2);
    match &sigs[0] {
        Signature::Impl { trait_name, for_type, associated } => {
            assert_eq!(trait_name.as_deref(), Some("X"));
            assert_eq!(for_type, "Y");
            assert!(associated.is_empty());
        }
        other => panic!("expected Impl, got {:?}", other),
    }
    match &sigs[1] {
        Signature::Fn { signature, .. } => assert_eq!(signature, "fn   fn helper ()"),
        other => panic!("expected Fn, got {:?}", other),
    }
}

#[test]
fn items_in_statics_types_and_unions_are_collected_in_order() {
    let src = "static S: [u8; { struct A; 1 }] = [0];\ntype T = [u8; { enum B {} 2 }];\nunion U { a: [u8; { trait C {} 3 }] }";
    let names: Vec<String> = analyze_source(src)
        .iter()
        .map(|s| match s {
            Signature::Struct { name, .. } | Signature::Enum { name, .. } | Signature::Trait { name, .. } => name.clone(),
            other => panic!("unexpected {:?}", other),
        })
        .collect();
    assert_eq!(names, vec!["A", "B", "C"]);
}

#[test]
fn macro_bodies_and_function_bodies_are_not_entered() {
    let src = "const _: () = { m!({ fn in_macro() {} }); };\nfn outer() { fn inner() {} }\nconst N: u8 = !{ fn negated() {} 0 };";
    let sigs = analyze_source(src);
    assert_eq!(sigs.len(), 2);
    match (&sigs[0], &sigs[1]) {
        (Signature::Fn { signature: a, .. }, Signature::Fn { signature: b, .. }) => {
            assert!(a.contains("outer"));
            assert!(b.contains("negated"));
        }
        other => panic!("expected two Fn, got {:?}", other),
    }
}
