use rust_signatures_mcp::collector::{collect_signatures, extract_docs, SignatureCollector};
use rust_signatures_mcp::model::{
    AttrForm, AttrModel, FieldsModel, ImplItemModel, ItemModel, NamedField, VariantModel,
};
use rust_signatures_mcp::syntax::{analyze_source, source_model};
use rust_signatures_mcp::types::{render_signature, EnumVariant, Signature};

fn doc(s: &str) -> AttrModel {
    AttrModel { path: "doc".into(), form: AttrForm::NameValue { str_lit: Some(s.into()) } }
}

#[test]
fn docs_keep_only_doc_string_attributes() {
    let attrs = vec![
        doc("  first  "),
        AttrModel { path: "cfg".into(), form: AttrForm::NameValue { str_lit: Some("x".into()) } },
        AttrModel { path: "doc".into(), form: AttrForm::NameValue { str_lit: None } },
        AttrModel { path: "doc".into(), form: AttrForm::List },
        AttrModel { path: "doc".into(), form: AttrForm::Path },
        doc("\tsecond"),
    ];
    assert_eq!(extract_docs(&attrs), vec!["first".to_string(), "second".to_string()]);
}

#[test]
fn collects_items_in_visiting_order() {
    let items = vec![
        ItemModel::Fn { attrs: vec![doc(" Runs.")], sig: "run ()".into() },
        ItemModel::Container {
            items: vec![
                ItemModel::Struct { attrs: vec![], ident: "Inner".into(), generics: "g".into() },
                ItemModel::Other,
            ],
        },
        ItemModel::Enum {
            attrs: vec![],
            ident: "E".into(),
            generics: "eg".into(),
            variants: vec![
                VariantModel {
                    attrs: vec![doc("named")],
                    ident: "N".into(),
                    fields: FieldsModel::Named(vec![NamedField { name: "x".into(), ty: "u8".into() }]),
                },
                VariantModel { attrs: vec![], ident: "T".into(), fields: FieldsModel::Unnamed(vec!["i32".into()]) },
                VariantModel { attrs: vec![], ident: "U".into(), fields: FieldsModel::Unit },
            ],
        },
        ItemModel::Impl {
            self_ty: "P".into(),
            trait_path: Some("Tr".into()),
            items: vec![
                ImplItemModel::Fn { attrs: vec![], sig: "f ()".into() },
                ImplItemModel::Const { attrs: vec![doc("c")], ident: "C".into(), ty_text: "t".into() },
                ImplItemModel::Type { ident: "A".into() },
                ImplItemModel::Other,
            ],
        },
        ItemModel::Trait { attrs: vec![], ident: "Tr".into(), generics: "tg".into() },
    ];
    let sigs = collect_signatures(&items);
    assert_eq!(sigs.len(), 5);
    match &sigs[0] {
        Signature::Fn { docs, signature } => {
            assert_eq!(docs, &vec!["Runs.".to_string()]);
            assert_eq!(signature, "fn   run ()");
        }
        other => panic!("expected Fn, got {:?}", other),
    }
    match &sigs[1] {
        Signature::Struct { name, generics, .. } => {
            assert_eq!(name, "Inner");
            assert_eq!(generics, "g");
        }
        other => panic!("expected Struct, got {:?}", other),
    }
    match &sigs[2] {
        Signature::Enum { variants, .. } => {
            assert_eq!(variants.len(), 3);
            match &variants[0] {
                EnumVariant::Named { fields, docs, .. } => {
                    assert_eq!(fields, &vec!["x: u8".to_string()]);
                    assert_eq!(docs, &vec!["named".to_string()]);
                }
                other => panic!("expected Named, got {:?}", other),
            }
        }
        other => panic!("expected Enum, got {:?}", other),
    }
    match &sigs[3] {
        Signature::Impl { trait_name, for_type, associated } => {
            assert_eq!(trait_name.as_deref(), Some("Tr"));
            assert_eq!(for_type, "P");
            assert_eq!(associated.len(), 3);
            assert_eq!(
                render_signature(&sigs[3]),
                "impl   Tr for P\n  fn   f ()\n  /// c\n  const   C: t\n  impl   A"
            );
        }
        other => panic!("expected Impl, got {:?}", other),
    }
    assert!(matches!(&sigs[4], Signature::Trait { name, .. } if name == "Tr"));
}

#[test]
fn empty_collector() {
    assert!(SignatureCollector::new().signatures.is_empty());
}

#[test]
fn module_items_are_visited() {
    let sigs = analyze_source("mod outer { fn inner() {} mod deeper { struct Deep; } }\nfn after() {}\nmod decl;\n");
    assert_eq!(sigs.len(), 3);
    assert!(matches!(&sigs[0], Signature::Fn { signature, .. } if signature.contains("inner")));
    assert!(matches!(&sigs[1], Signature::Struct { name, .. } if name == "Deep"));
    assert!(matches!(&sigs[2], Signature::Fn { signature, .. } if signature.contains("after")));
}

#[test]
fn nested_bodies_are_not_visited() {
    let sigs = analyze_source("fn outer() { fn inner() {} }\nimpl X { fn m() { struct Local; } }\n");
    assert_eq!(sigs.len(), 2);
}

#[test]
fn source_model_reports_parse_failure() {
    assert!(source_model("fn (").is_none());
    assert_eq!(source_model("struct A; enum B {}").unwrap().len(), 2);
}

#[test]
fn signature_texts_come_from_tokens() {
    let sigs = analyze_source("fn f(a: u8) -> u8 { a }\nstruct S<T>(T);\nimpl<T> S<T> { const C: u8 = 1; type A = u8; }\n");
    match &sigs[0] {
        Signature::Fn { signature, .. } => assert_eq!(signature, "fn   fn f (a : u8) -> u8"),
        other => panic!("expected Fn, got {:?}", other),
    }
    match &sigs[1] {
        Signature::Struct { generics, .. } => assert_eq!(generics, "< T >"),
        other => panic!("expected Struct, got {:?}", other),
    }
    match &sigs[2] {
        Signature::Impl { for_type, associated, .. } => {
            assert_eq!(for_type, "S < T >");
            match &associated[0] {
                Signature::Fn { signature, .. } => assert_eq!(signature, "const   C: u8"),
                other => panic!("expected Fn, got {:?}", other),
            }
            assert!(matches!(&associated[1], Signature::Impl { for_type, .. } if for_type == "A"));
        }
        other => panic!("expected Impl, got {:?}", other),
    }
}

#[test]
fn inner_doc_comments_of_a_function_count_as_docs() {
    let sigs = analyze_source("/// outer\nfn f() {\n    //! inner\n}\n");
    match &sigs[0] {
        Signature::Fn { docs, .. } => assert_eq!(docs, &vec!["outer".to_string(), "inner".to_string()]),
        other => panic!("expected Fn, got {:?}", other),
    }
}

#[test]
fn doc_attributes_written_out_count_as_docs() {
    let sigs = analyze_source("#[doc = \"  spelled out \"]\n#[derive(Debug)]\n#[doc(hidden)]\nstruct S;\n");
    match &sigs[0] {
        Signature::Struct { docs, .. } => assert_eq!(docs, &vec!["spelled out".to_string()]),
        other => panic!("expected Struct, got {:?}", other),
    }
}

#[test]
fn variant_and_impl_item_docs_are_read() {
    let src = "enum E {\n    /// first\n    A { x: u8 },\n    B(String, Vec<u8>) = 3,\n}\nimpl E {\n    /// made\n    const K: u8 = 0;\n    fn m(&self) {}\n    type T = u8;\n    mac!();\n}\n";
    let sigs = analyze_source(src);
    assert_eq!(sigs.len(), 2);
    match &sigs[0] {
        Signature::Enum { variants, .. } => {
            match &variants[0] {
                EnumVariant::Named { docs, fields, .. } => {
                    assert_eq!(docs, &vec!["first".to_string()]);
                    assert_eq!(fields, &vec!["x: u8".to_string()]);
                }
                other => panic!("expected Named, got {:?}", other),
            }
            match &variants[1] {
                EnumVariant::Tuple { types, .. } => {
                    assert_eq!(types, &vec!["String".to_string(), "Vec < u8 >".to_string()])
                }
                other => panic!("expected Tuple, got {:?}", other),
            }
        }
        other => panic!("expected Enum, got {:?}", other),
    }
    match &sigs[1] {
        Signature::Impl { associated, .. } => {
            assert_eq!(associated.len(), 3);
            assert!(matches!(&associated[0], Signature::Fn { docs, .. } if docs == &vec!["made".to_string()]));
        }
        other => panic!("expected Impl, got {:?}", other),
    }
}

#[test]
fn attribute_forms_are_read_from_source() {
    let src = "/// text\n#[doc(hidden)]\n#[doc = concat!(\"a\", \"b\")]\n#[test]\nfn f() {}";
    let items = source_model(src).unwrap();
    match &items[0] {
        ItemModel::Fn { attrs, .. } => {
            assert_eq!(attrs.len(), 4);
            assert!(matches!(&attrs[0].form, AttrForm::NameValue { str_lit: Some(s) } if s == " text"));
            assert!(matches!(&attrs[1].form, AttrForm::List));
            assert!(matches!(&attrs[2].form, AttrForm::NameValue { str_lit: None }));
            assert!(matches!(&attrs[3].form, AttrForm::Path));
            assert_eq!(extract_docs(attrs), vec!["text".to_string()]);
        }
        other => panic!("expected Fn, got {:?}", other),
    }
}

#[test]
fn item_kinds_are_grouped_into_the_model() {
    let src = "use a::b;\nextern crate c;\nconst C: u8 = { fn f() {} 1 };\nmacro_rules! m { () => {} }\nmod n { static S: u8 = 0; }";
    let items = source_model(src).unwrap();
    assert_eq!(items.len(), 5);
    assert!(matches!(&items[0], ItemModel::Other));
    assert!(matches!(&items[1], ItemModel::Other));
    match &items[2] {
        ItemModel::Container { items } => {
            assert_eq!(items.len(), 1);
            assert!(matches!(&items[0], ItemModel::Fn { sig, .. } if sig == "fn f ()"));
        }
        other => panic!("expected Container, got {:?}", other),
    }
    assert!(matches!(&items[3], ItemModel::Other));
    match &items[4] {
        ItemModel::Container { items } => {
            assert_eq!(items.len(), 1);
            assert!(matches!(&items[0], ItemModel::Container { items } if items.is_empty()));
        }
        other => panic!("expected Container, got {:?}", other),
    }
}
