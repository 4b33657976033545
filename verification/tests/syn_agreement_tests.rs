//! Extraction reads every item back from its token text; these tests compare it
//! with `syn`'s own visitor over the items that `syn::parse_file` gives.
use quote::ToTokens;
use rust_signatures_mcp::syntax::analyze_source;
use rust_signatures_mcp::types::{render_signature, EnumVariant, Signature};

fn docs_of(attrs: &[syn::Attribute]) -> Vec<String> {
    attrs
        .iter()
        .filter_map(|a| {
            if !a.path().is_ident("doc") {
                return None;
            }
            if let syn::Meta::NameValue(nv) = &a.meta {
                if let syn::Expr::Lit(l) = &nv.value {
                    if let syn::Lit::Str(s) = &l.lit {
                        return Some(s.value().trim().to_string());
                    }
                }
            }
            None
        })
        .collect()
}

fn text<T: ToTokens>(t: &T) -> String {
    t.to_token_stream().to_string()
}

fn enum_variants(i: &syn::ItemEnum) -> Vec<EnumVariant> {
    i.variants
        .iter()
        .map(|v| {
            let name = v.ident.to_string();
            let docs = docs_of(&v.attrs);
            match &v.fields {
                syn::Fields::Named(f) => EnumVariant::Named {
                    name,
                    docs,
                    fields: f
                        .named
                        .iter()
                        .map(|f| format!("{}: {}", text(&f.ident), text(&f.ty)))
                        .collect(),
                },
                syn::Fields::Unnamed(f) => EnumVariant::Tuple {
                    name,
                    docs,
                    types: f.unnamed.iter().map(|f| text(&f.ty)).collect(),
                },
                syn::Fields::Unit => EnumVariant::Unit { name, docs },
            }
        })
        .collect()
}

/// `syn`'s own visitor over the file, recording the five item kinds and
/// entering every other item as the default visit does.
struct Direct {
    out: Vec<Signature>,
}

impl<'ast> syn::visit::Visit<'ast> for Direct {
    fn visit_item_fn(&mut self, f: &'ast syn::ItemFn) {
        self.out.push(Signature::Fn { docs: docs_of(&f.attrs), signature: format!("fn   {}", text(&f.sig)) });
    }

    fn visit_item_struct(&mut self, i: &'ast syn::ItemStruct) {
        self.out.push(Signature::Struct {
            docs: docs_of(&i.attrs),
            name: i.ident.to_string(),
            generics: text(&i.generics),
        });
    }

    fn visit_item_trait(&mut self, i: &'ast syn::ItemTrait) {
        self.out.push(Signature::Trait {
            docs: docs_of(&i.attrs),
            name: i.ident.to_string(),
            generics: text(&i.generics),
        });
    }

    fn visit_item_enum(&mut self, i: &'ast syn::ItemEnum) {
        self.out.push(Signature::Enum {
            docs: docs_of(&i.attrs),
            name: i.ident.to_string(),
            generics: text(&i.generics),
            variants: enum_variants(i),
        });
    }

    fn visit_item_impl(&mut self, i: &'ast syn::ItemImpl) {
        let mut associated = Vec::new();
        for it in &i.items {
            match it {
                syn::ImplItem::Fn(f) => associated.push(Signature::Fn {
                    docs: docs_of(&f.attrs),
                    signature: format!("fn   {}", text(&f.sig)),
                }),
                syn::ImplItem::Const(c) => associated.push(Signature::Fn {
                    docs: docs_of(&c.attrs),
                    signature: format!("const   {}: {}", c.ident, text(&c.ty)),
                }),
                syn::ImplItem::Type(t) => associated.push(Signature::Impl {
                    trait_name: None,
                    for_type: t.ident.to_string(),
                    associated: vec![],
                }),
                _ => {}
            }
        }
        self.out.push(Signature::Impl {
            trait_name: i.trait_.as_ref().map(|(_, t, _)| text(t)),
            for_type: text(&i.self_ty),
            associated,
        });
    }
}

fn rendered_directly(src: &str) -> Vec<String> {
    let file = syn::parse_file(src).unwrap();
    let mut direct = Direct { out: Vec::new() };
    syn::visit::Visit::visit_file(&mut direct, &file);
    direct.out.iter().map(render_signature).collect()
}

fn rendered_by_library(src: &str) -> Vec<String> {
    analyze_source(src).iter().map(render_signature).collect()
}

const SAMPLE: &str = r#"
//! Crate docs.
#![allow(dead_code)]

/// A "quoted" doc with \ backslash and unicode: héllo ✓.
#[derive(Debug, Clone)]
pub struct Wrapper<'a, T: Clone + 'a, const N: usize> where T: Default {
    inner: &'a [T; N],
}

/** Block doc
    spanning lines */
pub enum Shape<T> {
    /// Nothing.
    Empty,
    Circle(f64),
    Rect { w: u32, h: u32 },
    Tagged(#[allow(unused)] T) = 7,
}

pub trait Visitor<'ast>: Sized + Send {
    type Out;
    fn visit(&mut self, node: &'ast str) -> Self::Out;
}

impl<'a, T: Clone + Default, const N: usize> std::fmt::Debug for Wrapper<'a, T, N> {
    /// Formats.
    fn fmt(&self, f: &mut std::fmt::Formatter<'_>) -> std::fmt::Result { Ok(()) }
    const LIMIT: usize = N * 2;
    type Alias = Vec<T>;
}

impl !Send for Shape<u8> {}

pub mod nested {
    //! Inner module docs.
    pub async unsafe extern "C" fn raw(x: *const u8, r#type: u8) -> impl Iterator<Item = u8> { todo!() }
    mod deeper {
        /// Deep.
        pub(crate) fn deep<F: Fn(u8) -> u8>(f: F) -> u8 where F: Copy { f(1) }
    }
}

macro_rules! ignored { () => {} }
type Alias = Result<(), Box<dyn std::error::Error + Send + Sync>>;
static COUNT: std::sync::atomic::AtomicUsize = std::sync::atomic::AtomicUsize::new(0);
fn with_lifetimes<'a, 'b: 'a>(x: &'a str, _y: &'b str) -> &'a str { x }
fn shifts() -> u32 { 1 << 2 >> 1 }
fn labels() { 'outer: loop { break 'outer; } }

const _: () = {
    /// Hidden impl.
    impl Shape<u8> { fn area(&self) -> f64 { 0.0 } }
    fn helper() -> u8 { 1 }
    let _ = |x: u8| { struct InClosure; x };
    let Some(_) = Some(1) else { enum InElse { A } loop {} };
    match 1 { 0 => { trait InArm {} } _ => {} }
    println!("{}", { fn in_macro() {} 1 });
    #[doc = "attr"] mod in_const { pub fn inside() {} }
};
static TABLE: [u8; { fn sized() -> usize { 2 } 2 }] = [0, { struct InArray; 1 }];
type Sized2 = [u8; { const fn two() -> usize { 2 } two() }];
union Bits { a: u32, b: [u8; { struct InUnion; 4 }] }
extern "C" { fn external(x: u8) -> u8; }
pub const ANSWER: u8 = if !{ fn neg() {} false } { 1 } else { 2 };
const WITH_LITERAL: Point = Point { x: { fn in_field() {} 1 }, y: 2 };
"#;

#[test]
fn library_agrees_with_a_direct_walk() {
    let direct = rendered_directly(SAMPLE);
    let library = rendered_by_library(SAMPLE);
    assert!(direct.len() >= 8);
    assert_eq!(library, direct);
}

#[test]
fn library_agrees_on_its_own_shapes() {
    for src in [
        "fn a() {}",
        "/// x\n/// y\nstruct S { a: Vec<Option<u8>> }",
        "impl<T> From<T> for Box<T> { fn from(t: T) -> Self { Box::new(t) } }",
        "mod m;",
        "enum E { A = 1, B = 2 }",
        "trait T where Self: Sized {}",
        "const _: () = { impl X for Y {} };",
        "const C: u8 = { const D: u8 = { fn deep() {} 1 }; D };",
        "static S: () = m!({ fn hidden() {} });",
        "type T = [u8; { mod m { fn in_mod() {} } 1 }];",
        "const _: () = { if !x { fn a() {} } while !{ fn b() {} true } {} };",
        "const _: () = { let _ = &mut !{ fn c() {} 0 }; };",
        "const _: () = { 'l: loop { break 'l !{ fn d() {} 1 }; } };",
        "const _: () = { let _ = x !{ 1 }; };",
    ] {
        assert_eq!(rendered_by_library(src), rendered_directly(src), "source: {}", src);
    }
}
