use rust_signatures_mcp::types::{render_signature, EnumVariant, Signature};

#[test]
fn render_fn_includes_docs_and_signature() {
    let sig = Signature::Fn {
        docs: vec!["A doc comment.".into()],
        signature: "fn   foo(x: i32)".into(),
    };
    let rendered = render_signature(&sig);
    assert!(rendered.starts_with("/// A doc comment.\n"));
    assert!(rendered.contains("fn   foo(x: i32)"));
}

#[test]
fn render_enum_includes_all_variants() {
    let sig = Signature::Enum {
        docs: vec![],
        name: "Color".into(),
        generics: String::new(),
        variants: vec![
            EnumVariant::Unit { name: "Red".into(), docs: vec![] },
            EnumVariant::Tuple { name: "Rgb".into(), docs: vec![], types: vec!["u8".into(), "u8".into(), "u8".into()] },
            EnumVariant::Named { name: "Custom".into(), docs: vec!["hex value".into()], fields: vec!["hex: String".into()] },
        ],
    };
    let rendered = render_signature(&sig);
    assert!(rendered.contains("enum  Color {"));
    assert!(rendered.contains("Red"));
    assert!(rendered.contains("Rgb(u8, u8, u8)"));
    assert!(rendered.contains("Custom { hex: String }"));
    assert!(rendered.contains("/// hex value"));
    assert!(rendered.ends_with('}'));
}

#[test]
fn render_enum_exact_text() {
    let sig = Signature::Enum {
        docs: vec!["Colours.".into()],
        name: "Color".into(),
        generics: "<T>".into(),
        variants: vec![
            EnumVariant::Unit { name: "Red".into(), docs: vec!["warm".into()] },
            EnumVariant::Tuple { name: "Rgb".into(), docs: vec![], types: vec!["u8".into(), "T".into()] },
            EnumVariant::Named { name: "Custom".into(), docs: vec![], fields: vec![] },
        ],
    };
    assert_eq!(
        render_signature(&sig),
        "/// Colours.\nenum  Color<T> {\n  /// warm\n  Red\n  Rgb(u8, T)\n  Custom {  }\n}"
    );
}

#[test]
fn render_struct_and_trait_exact_text() {
    let s = Signature::Struct { docs: vec!["A".into(), "B".into()], name: "S".into(), generics: "<K>".into() };
    assert_eq!(render_signature(&s), "/// A\n/// B\nstruct S<K>");
    let t = Signature::Trait { docs: vec![], name: "T".into(), generics: String::new() };
    assert_eq!(render_signature(&t), "trait  T");
}

#[test]
fn render_impl_indents_associated_items() {
    let sig = Signature::Impl {
        trait_name: Some("Display".into()),
        for_type: "P".into(),
        associated: vec![
            Signature::Fn { docs: vec!["Formats.".into()], signature: "fn   fmt(&self)".into() },
            Signature::Impl { trait_name: None, for_type: "Item".into(), associated: vec![] },
        ],
    };
    assert_eq!(
        render_signature(&sig),
        "impl   Display for P\n  /// Formats.\n  fn   fmt(&self)\n  impl   Item"
    );
    let inherent = Signature::Impl { trait_name: None, for_type: "P".into(), associated: vec![] };
    assert_eq!(render_signature(&inherent), "impl   P");
}

#[test]
fn nested_impl_renderings_indent_every_line() {
    let sig = Signature::Impl {
        trait_name: Some("X".into()),
        for_type: "Y".into(),
        associated: vec![
            Signature::Fn { docs: vec!["d".into()], signature: "fn f()".into() },
            Signature::Impl {
                trait_name: None,
                for_type: "A".into(),
                associated: vec![Signature::Fn { docs: vec![], signature: "fn g()".into() }],
            },
        ],
    };
    let text = render_signature(&sig);
    assert_eq!(text, "impl   X for Y\n  /// d\n  fn f()\n  impl   A\n    fn g()");
    let lines: Vec<&str> = text.split('\n').collect();
    assert_eq!(lines.len(), 5);
    assert!(lines[1..].iter().all(|l| l.starts_with("  ")));
}

#[test]
fn cloned_signatures_are_equal() {
    let sig = Signature::Enum {
        docs: vec!["doc".into()],
        name: "E".into(),
        generics: "< T >".into(),
        variants: vec![
            EnumVariant::Named { name: "A".into(), docs: vec![], fields: vec!["x: u8".into()] },
            EnumVariant::Tuple { name: "B".into(), docs: vec!["b".into()], types: vec!["T".into()] },
            EnumVariant::Unit { name: "C".into(), docs: vec![] },
        ],
    };
    let copy = sig.clone();
    assert_eq!(format!("{:?}", copy), format!("{:?}", sig));
    assert_eq!(render_signature(&copy), render_signature(&sig));
}
