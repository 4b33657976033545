//! Reading a Rust source file with `syn`, and turning the parsed items into the
//! plain values of [`crate::model`].
//!
//! Every part that `syn` and `quote` compute is handed over as text: a file's
//! items as the token text of each item, an item's parts from that token text,
//! and so on down to attributes. Inside constants, statics, type aliases,
//! unions, trait aliases and foreign blocks, the items are found in the tokens
//! and in the statements of blocks, leaving out the tokens of attributes and
//! macro invocations. Each step is a function of the text alone,
//! named below, so the model of a file is determined by the file's text.
use vstd::prelude::*;
use proc_macro2::{Delimiter, TokenStream, TokenTree};
use quote::ToTokens;
use syn::parse::Parser;
use syn::{Block, Expr, ExprLit, Item, Lit, Meta, Stmt};
use crate::collector::{collect_signatures, items_signatures};
use crate::model::{
    attrs_view, impl_items_view, items_view, AttrForm, stmts_view, tokens_view, variant_models_view,
    AttrModel, AttrV, Delim, FieldsModel, FieldsV, ImplItemModel, ImplItemV, ItemModel, ItemV,
    NamedField, StmtModel, StmtV, TokenModel, TokenV, VariantModel, VariantModelV,
};
use crate::item_kinds::{impl_item_kind, impl_item_kind_of, item_kind, item_kind_of, ImplItemKind, ItemKind};
use crate::text::{str_equal, strings_view};
use crate::types::{opt_string_view, sigs_view, Signature};

verus! {

/// The token text of each item of a Rust source file (`syn::parse_file`), or
/// `None` where the text is not a Rust source file.
pub uninterp spec fn rust_file_items(src: Seq<char>) -> Option<Seq<Seq<char>>>;

/// For a free function: the token text of each attribute's meta, and of its signature.
pub uninterp spec fn fn_parts_of(text: Seq<char>) -> (Seq<Seq<char>>, Seq<char>);

/// For a struct, enum or trait: the token text of each attribute's meta, its
/// name, and the token text of its generic parameters.
pub uninterp spec fn item_head_of(text: Seq<char>) -> (Seq<Seq<char>>, Seq<char>, Seq<char>);

/// For an enum: the token text of each variant.
pub uninterp spec fn enum_variants_of(text: Seq<char>) -> Seq<Seq<char>>;

/// For a variant: the token text of each attribute's meta, and its name.
pub uninterp spec fn variant_head_of(text: Seq<char>) -> (Seq<Seq<char>>, Seq<char>);

/// For a variant: its fields as token text.
pub uninterp spec fn variant_fields_of(text: Seq<char>) -> FieldsV;

/// For an impl block: the token text of its self type, of the implemented
/// trait's path, and of each impl item.
pub uninterp spec fn impl_parts_of(text: Seq<char>) -> (Seq<char>, Option<Seq<char>>, Seq<Seq<char>>);

/// For a module: the token text of each item written inside its braces.
pub uninterp spec fn mod_items_of(text: Seq<char>) -> Seq<Seq<char>>;

/// For an associated function: the token text of each attribute's meta, and of
/// its signature.
pub uninterp spec fn impl_fn_parts_of(text: Seq<char>) -> (Seq<Seq<char>>, Seq<char>);

/// For an associated constant: the token text of each attribute's meta, its
/// name, and the token text of its type.
pub uninterp spec fn impl_const_parts_of(text: Seq<char>) -> (Seq<Seq<char>>, Seq<char>, Seq<char>);

/// For an associated type: its name.
pub uninterp spec fn impl_type_ident_of(text: Seq<char>) -> Seq<char>;

/// The token trees of the text (`proc_macro2::TokenStream::from_str`); none
/// where the text does not lex.
pub uninterp spec fn token_trees_of(text: Seq<char>) -> Seq<TokenV>;

/// The statements of a block whose inside is the text
/// (`syn::Block::parse_within`), or `None` where the text is not a sequence of
/// statements.
pub uninterp spec fn block_statements_of(inner: Seq<char>) -> Option<Seq<StmtV>>;

/// For an attribute's meta: the token text of its path, and its form (with the
/// value of a string literal that it sets the path to).
pub uninterp spec fn attr_of(meta: Seq<char>) -> AttrV;

pub open spec fn opt_strings_view(o: Option<Vec<String>>) -> Option<Seq<Seq<char>>> {
    match o {
        Some(v) => Some(strings_view(v@)),
        None => None,
    }
}

pub open spec fn opt_stmts_view(o: Option<Vec<StmtModel>>) -> Option<Seq<StmtV>> {
    match o {
        Some(v) => Some(stmts_view(v@)),
        None => None,
    }
}

/// `proc_macro2::TokenStream::from_str`: the token trees of the text, each
/// group with its delimiter and the text (`Display`) of the tokens inside it;
/// none where the text does not lex.
#[verifier::external_body]
fn token_trees(text: &str) -> (r: Vec<TokenModel>)
    ensures
        tokens_view(r@) == token_trees_of(text@),
{
    let stream: TokenStream = text.parse().unwrap_or_default();
    stream.into_iter().map(|t| match t {
        TokenTree::Group(g) => TokenModel::Group { inner: g.stream().to_string(), delim: match g.delimiter() {
            Delimiter::Parenthesis => Delim::Paren,
            Delimiter::Brace => Delim::Brace,
            Delimiter::Bracket => Delim::Bracket,
            Delimiter::None => Delim::Invisible,
        } },
        TokenTree::Ident(i) => TokenModel::Ident(i.to_string()),
        TokenTree::Punct(p) => TokenModel::Punct(p.as_char()),
        TokenTree::Literal(_) => TokenModel::Literal,
    }).collect()
}

/// `syn::Block::parse_within`: the statements of a block whose inside is the
/// text, an item or a `let` or expression by its token text; `None` where the
/// text is not a sequence of statements.
#[verifier::external_body]
fn block_statements(inner: &str) -> (r: Option<Vec<StmtModel>>)
    ensures
        opt_stmts_view(r) == block_statements_of(inner@),
{
    let stmts = Block::parse_within.parse_str(inner).ok()?;
    Some(stmts.iter().map(|s| match s {
        Stmt::Item(i) => StmtModel::Item(i.to_token_stream().to_string()),
        Stmt::Macro(_) => StmtModel::Macro,
        Stmt::Local(l) => StmtModel::Other(l.to_token_stream().to_string()),
        Stmt::Expr(e, _) => StmtModel::Other(e.to_token_stream().to_string()),
    }).collect())
}

/// `syn::parse_file`: the token text (`ToTokens`, then `Display`) of each item,
/// or `None` where the text is not a Rust source file.
#[verifier::external_body]
fn parse_file_item_texts(src: &str) -> (r: Option<Vec<String>>)
    ensures
        opt_strings_view(r) == rust_file_items(src@),
{
    syn::parse_file(src).ok().map(|f| f.items.iter().map(|i| i.to_token_stream().to_string()).collect())
}

/// For a free function parsed from the text: each attribute's meta and the
/// signature, as token text (`quote!{#sig}`); empty otherwise.
#[verifier::external_body]
fn fn_parts(text: &str) -> (r: (Vec<String>, String))
    ensures
        (strings_view(r.0@), r.1@) == fn_parts_of(text@),
{
    match syn::parse_str::<Item>(text) {
        Ok(Item::Fn(f)) => (
            f.attrs.iter().map(|a| a.meta.to_token_stream().to_string()).collect(),
            f.sig.to_token_stream().to_string(),
        ),
        _ => (Vec::new(), String::new()),
    }
}

/// For a struct, enum or trait parsed from the text: each attribute's meta as
/// token text, its name (`Ident::to_string`), and the token text of its
/// generic parameters (`Generics`); empty otherwise.
#[verifier::external_body]
fn item_head(text: &str) -> (r: (Vec<String>, String, String))
    ensures
        (strings_view(r.0@), r.1@, r.2@) == item_head_of(text@),
{
    let (attrs, ident, generics) = match syn::parse_str::<Item>(text) {
        Ok(Item::Struct(i)) => (i.attrs, i.ident, i.generics),
        Ok(Item::Enum(i)) => (i.attrs, i.ident, i.generics),
        Ok(Item::Trait(i)) => (i.attrs, i.ident, i.generics),
        _ => return Default::default(),
    };
    (attrs.iter().map(|a| a.meta.to_token_stream().to_string()).collect(), ident.to_string(), generics.to_token_stream().to_string())
}

/// For an enum parsed from the text: the token text of each variant; empty otherwise.
#[verifier::external_body]
fn enum_variants(text: &str) -> (r: Vec<String>)
    ensures
        strings_view(r@) == enum_variants_of(text@),
{
    match syn::parse_str::<Item>(text) {
        Ok(Item::Enum(e)) => e.variants.iter().map(|v| v.to_token_stream().to_string()).collect(),
        _ => Vec::new(),
    }
}

/// `syn::parse_str::<syn::Variant>`: each attribute's meta as token text and the
/// variant's name; empty where the text does not parse.
#[verifier::external_body]
fn variant_head(text: &str) -> (r: (Vec<String>, String))
    ensures
        (strings_view(r.0@), r.1@) == variant_head_of(text@),
{
    match syn::parse_str::<syn::Variant>(text) {
        Ok(v) => (v.attrs.iter().map(|a| a.meta.to_token_stream().to_string()).collect(), v.ident.to_string()),
        Err(_) => (Vec::new(), String::new()),
    }
}

/// `syn::parse_str::<syn::Variant>`: the variant's fields, each name and type
/// as token text (`quote!{#name}`, `quote!{#ty}`); unit where the text does not parse.
#[verifier::external_body]
fn variant_fields(text: &str) -> (r: FieldsModel)
    ensures
        r@ == variant_fields_of(text@),
{
    match syn::parse_str::<syn::Variant>(text).map(|v| v.fields) {
        Ok(syn::Fields::Named(f)) => FieldsModel::Named(f.named.iter().map(|f| NamedField {
            name: f.ident.to_token_stream().to_string(),
            ty: f.ty.to_token_stream().to_string(),
        }).collect()),
        Ok(syn::Fields::Unnamed(f)) => FieldsModel::Unnamed(
            f.unnamed.iter().map(|f| f.ty.to_token_stream().to_string()).collect(),
        ),
        _ => FieldsModel::Unit,
    }
}

/// For an impl block parsed from the text: the token text of its self type,
/// of the implemented trait's path, and of each impl item; empty otherwise.
#[verifier::external_body]
fn impl_parts(text: &str) -> (r: (String, Option<String>, Vec<String>))
    ensures
        (r.0@, opt_string_view(r.1), strings_view(r.2@)) == impl_parts_of(text@),
{
    let i = match syn::parse_str::<Item>(text) { Ok(Item::Impl(i)) => i, _ => return (String::new(), None, Vec::new()) };
    let trait_text = i.trait_.as_ref().map(|(_, t, _)| t.to_token_stream().to_string());
    (i.self_ty.to_token_stream().to_string(), trait_text, i.items.iter().map(|it| it.to_token_stream().to_string()).collect())
}

/// For a module parsed from the text: the token text of each item inside its
/// braces (none for `mod m;`); empty otherwise.
#[verifier::external_body]
fn mod_items(text: &str) -> (r: Vec<String>)
    ensures
        strings_view(r@) == mod_items_of(text@),
{
    match syn::parse_str::<Item>(text) {
        Ok(Item::Mod(m)) => m.content.map(|(_, items)| items.iter().map(|i| i.to_token_stream().to_string()).collect()).unwrap_or_default(),
        _ => Vec::new(),
    }
}

/// For an associated function parsed from the text: each attribute's meta and
/// the signature, as token text; empty otherwise.
#[verifier::external_body]
fn impl_fn_parts(text: &str) -> (r: (Vec<String>, String))
    ensures
        (strings_view(r.0@), r.1@) == impl_fn_parts_of(text@),
{
    match syn::parse_str::<syn::ImplItem>(text) {
        Ok(syn::ImplItem::Fn(f)) => (
            f.attrs.iter().map(|a| a.meta.to_token_stream().to_string()).collect(),
            f.sig.to_token_stream().to_string(),
        ),
        _ => (Vec::new(), String::new()),
    }
}

/// For an associated constant parsed from the text: each attribute's meta as
/// token text, its name, and the token text of its type; empty otherwise.
#[verifier::external_body]
fn impl_const_parts(text: &str) -> (r: (Vec<String>, String, String))
    ensures
        (strings_view(r.0@), r.1@, r.2@) == impl_const_parts_of(text@),
{
    match syn::parse_str::<syn::ImplItem>(text) {
        Ok(syn::ImplItem::Const(c)) => (
            c.attrs.iter().map(|a| a.meta.to_token_stream().to_string()).collect(),
            c.ident.to_string(),
            c.ty.to_token_stream().to_string(),
        ),
        _ => Default::default(),
    }
}

/// For an associated type parsed from the text: its name; empty otherwise.
#[verifier::external_body]
fn impl_type_ident(text: &str) -> (r: String)
    ensures
        r@ == impl_type_ident_of(text@),
{
    match syn::parse_str::<syn::ImplItem>(text) {
        Ok(syn::ImplItem::Type(t)) => t.ident.to_string(),
        _ => String::new(),
    }
}

/// `syn::parse_str::<syn::Meta>`: the token text of the meta's path and the
/// meta's form; for `path = value`, the value (`LitStr::value`) where it is a
/// string literal.
#[verifier::external_body]
fn attribute(meta: &str) -> (r: AttrModel)
    ensures
        r@ == attr_of(meta@),
{
    let m = match syn::parse_str::<Meta>(meta) { Ok(m) => m, Err(_) => return AttrModel { path: String::new(), form: AttrForm::Unparsed } };
    let form = match &m {
        Meta::Path(_) => AttrForm::Path,
        Meta::List(_) => AttrForm::List,
        Meta::NameValue(nv) => AttrForm::NameValue { str_lit: match &nv.value {
            Expr::Lit(ExprLit { lit: Lit::Str(s), .. }) => Some(s.value()),
            _ => None,
        } },
    };
    AttrModel { path: m.path().to_token_stream().to_string(), form }
}

/// The attributes read from their metas' token text.
pub open spec fn attrs_of(metas: Seq<Seq<char>>) -> Seq<AttrV> {
    metas.map_values(|m: Seq<char>| attr_of(m))
}

/// A variant read from its token text.
pub open spec fn variant_model_of(text: Seq<char>) -> VariantModelV {
    VariantModelV {
        attrs: attrs_of(variant_head_of(text).0),
        ident: variant_head_of(text).1,
        fields: variant_fields_of(text),
    }
}

/// An impl item read from its token text.
pub open spec fn impl_item_model_of(text: Seq<char>) -> ImplItemV {
    match impl_item_kind_of(text) {
        ImplItemKind::Fn => ImplItemV::Fn {
            attrs: attrs_of(impl_fn_parts_of(text).0),
            sig: impl_fn_parts_of(text).1,
        },
        ImplItemKind::Const => ImplItemV::Const {
            attrs: attrs_of(impl_const_parts_of(text).0),
            ident: impl_const_parts_of(text).1,
            ty_text: impl_const_parts_of(text).2,
        },
        ImplItemKind::Type => ImplItemV::Type { ident: impl_type_ident_of(text) },
        _ => ImplItemV::Other,
    }
}

/// Keywords after which `!` negates an operand rather than invoking a macro.
pub open spec fn is_operand_keyword(s: Seq<char>) -> bool {
    ||| s == "if"@
    ||| s == "match"@
    ||| s == "while"@
    ||| s == "return"@
    ||| s == "break"@
    ||| s == "in"@
    ||| s == "yield"@
    ||| s == "mut"@
}

/// Whether the token at `i` is the group of an attribute (`#[..]`, `#![..]`)
/// or of a macro invocation (`name!(..)`): the walk enters neither.
pub open spec fn is_unwalked_group(toks: Seq<TokenV>, i: int) -> bool {
    ||| i >= 1 && toks[i - 1] == TokenV::Punct('#')
    ||| i >= 2 && toks[i - 1] == TokenV::Punct('!') && toks[i - 2] == TokenV::Punct('#')
    ||| i >= 2 && toks[i - 1] == TokenV::Punct('!') && match toks[i - 2] {
        TokenV::Ident(name) => !is_operand_keyword(name) && !(i >= 3 && toks[i - 3]
            == TokenV::Punct('\'')),
        _ => false,
    }
}

/// The token text of each item written in a sequence of tokens lexed from a
/// text of length `bound`, in order: each group that the walk enters gives the
/// items written inside it. The walk enters a group only where its inside is
/// shorter than the text, so each step goes down to shorter text.
pub open spec fn tokens_items(toks: Seq<TokenV>, bound: nat) -> Seq<Seq<char>>
    decreases bound, 1nat, toks.len(),
{
    if toks.len() == 0 {
        Seq::empty()
    } else {
        let last = match toks.last() {
            TokenV::Group { delim, inner } => if inner.len() < bound && !is_unwalked_group(
                toks,
                toks.len() - 1,
            ) {
                group_items(delim, inner)
            } else {
                Seq::empty()
            },
            _ => Seq::empty(),
        };
        tokens_items(toks.drop_last(), bound) + last
    }
}

/// The items written inside a group: a brace group that holds statements is a
/// block, and gives its item statements and the items inside its other
/// statements; any other group gives the items inside its tokens.
pub open spec fn group_items(delim: Delim, inner: Seq<char>) -> Seq<Seq<char>>
    decreases inner.len(), 3nat, 0nat,
{
    if delim == Delim::Brace {
        match block_statements_of(inner) {
            Some(stmts) => stmts_items(stmts, inner.len()),
            None => tokens_items(token_trees_of(inner), inner.len()),
        }
    } else {
        tokens_items(token_trees_of(inner), inner.len())
    }
}

/// The items of the statements of a block whose inside has length `bound`, in
/// order: an item statement is itself one, a macro invocation holds none the
/// walk reads, and any other statement gives the items inside its tokens
/// where its text is no longer than the block's inside.
pub open spec fn stmts_items(stmts: Seq<StmtV>, bound: nat) -> Seq<Seq<char>>
    decreases bound, 2nat, stmts.len(),
{
    if stmts.len() == 0 {
        Seq::empty()
    } else {
        let last = match stmts.last() {
            StmtV::Item(t) => seq![t],
            StmtV::Macro => Seq::empty(),
            StmtV::Other(t) => if t.len() <= bound {
                tokens_items(token_trees_of(t), t.len())
            } else {
                Seq::empty()
            },
        };
        stmts_items(stmts.drop_last(), bound) + last
    }
}

/// Whether the walk enters an item of this kind for the items written in its
/// expressions and types: constants, statics, type aliases, unions, trait
/// aliases and foreign blocks.
pub open spec fn is_walked_inside(k: ItemKind) -> bool {
    ||| k == ItemKind::Const
    ||| k == ItemKind::Static
    ||| k == ItemKind::Type
    ||| k == ItemKind::Union
    ||| k == ItemKind::TraitAlias
    ||| k == ItemKind::ForeignMod
}

/// An item read from its token text. A module holds its items, and a constant,
/// static, type alias, union, trait alias or foreign block the items written
/// inside it; any other item that is not a function, struct, enum, trait or
/// impl is read as `Other`.
pub open spec fn item_model_of(text: Seq<char>) -> ItemV
    decreases text.len(), 2nat, 0nat,
{
    match item_kind_of(text) {
        ItemKind::Fn => ItemV::Fn { attrs: attrs_of(fn_parts_of(text).0), sig: fn_parts_of(text).1 },
        ItemKind::Struct => ItemV::Struct {
            attrs: attrs_of(item_head_of(text).0),
            ident: item_head_of(text).1,
            generics: item_head_of(text).2,
        },
        ItemKind::Enum => ItemV::Enum {
            attrs: attrs_of(item_head_of(text).0),
            ident: item_head_of(text).1,
            generics: item_head_of(text).2,
            variants: enum_variants_of(text).map_values(|v: Seq<char>| variant_model_of(v)),
        },
        ItemKind::Trait => ItemV::Trait {
            attrs: attrs_of(item_head_of(text).0),
            ident: item_head_of(text).1,
            generics: item_head_of(text).2,
        },
        ItemKind::Impl => ItemV::Impl {
            self_ty: impl_parts_of(text).0,
            trait_path: impl_parts_of(text).1,
            items: impl_parts_of(text).2.map_values(|t: Seq<char>| impl_item_model_of(t)),
        },
        ItemKind::Mod => ItemV::Container { items: items_within(mod_items_of(text), text.len()) },
        _ => if is_walked_inside(item_kind_of(text)) {
            ItemV::Container {
                items: items_within(tokens_items(token_trees_of(text), text.len()), text.len()),
            }
        } else {
            ItemV::Other
        },
    }
}

/// The items inside a container whose text has length `bound`, read from their
/// token texts in order. An item is read where its text is shorter than the
/// container's, so that each step goes down to shorter text, and is `Other`
/// otherwise.
pub open spec fn items_within(texts: Seq<Seq<char>>, bound: nat) -> Seq<ItemV>
    decreases bound, 1nat, texts.len(),
{
    if texts.len() == 0 {
        Seq::empty()
    } else {
        items_within(texts.drop_last(), bound).push(
            if texts.last().len() < bound {
                item_model_of(texts.last())
            } else {
                ItemV::Other
            },
        )
    }
}

/// Items read from their token texts, in order.
pub open spec fn items_model_of(texts: Seq<Seq<char>>) -> Seq<ItemV>
    decreases texts.len(),
{
    if texts.len() == 0 {
        Seq::empty()
    } else {
        items_model_of(texts.drop_last()).push(item_model_of(texts.last()))
    }
}

/// The items of a source file, read from the file's text.
pub open spec fn source_items(src: Seq<char>) -> Option<Seq<ItemV>> {
    match rust_file_items(src) {
        Some(texts) => Some(items_model_of(texts)),
        None => None,
    }
}

fn attributes(metas: &Vec<String>) -> (r: Vec<AttrModel>)
    ensures
        attrs_view(r@) == attrs_of(strings_view(metas@)),
{
    let mut r: Vec<AttrModel> = Vec::new();
    let mut i: usize = 0;
    while i < metas.len()
        invariant
            i <= metas@.len(),
            r@.len() == i,
            forall|k: int| 0 <= k < i ==> #[trigger] r@[k]@ == attr_of(metas@[k]@),
        decreases metas@.len() - i,
    {
        r.push(attribute(metas[i].as_str()));
        i = i + 1;
    }
    assert(attrs_view(r@) =~= attrs_of(strings_view(metas@)));
    r
}

fn variant_model(text: &String) -> (r: VariantModel)
    ensures
        r@ == variant_model_of(text@),
{
    let (metas, ident) = variant_head(text.as_str());
    VariantModel { attrs: attributes(&metas), ident, fields: variant_fields(text.as_str()) }
}

fn impl_item_model(text: &String) -> (r: ImplItemModel)
    ensures
        r@ == impl_item_model_of(text@),
{
    match impl_item_kind(text.as_str()) {
        ImplItemKind::Fn => {
            let (metas, sig) = impl_fn_parts(text.as_str());
            ImplItemModel::Fn { attrs: attributes(&metas), sig }
        },
        ImplItemKind::Const => {
            let (metas, ident, ty_text) = impl_const_parts(text.as_str());
            ImplItemModel::Const { attrs: attributes(&metas), ident, ty_text }
        },
        ImplItemKind::Type => ImplItemModel::Type { ident: impl_type_ident(text.as_str()) },
        _ => ImplItemModel::Other,
    }
}

fn is_punct(t: &TokenModel, c: char) -> (r: bool)
    ensures
        r == (t@ == TokenV::Punct(c)),
{
    match t {
        TokenModel::Punct(p) => *p == c,
        _ => false,
    }
}

fn operand_keyword(s: &str) -> (r: bool)
    ensures
        r == is_operand_keyword(s@),
{
    str_equal(s, "if") || str_equal(s, "match") || str_equal(s, "while") || str_equal(s, "return")
        || str_equal(s, "break") || str_equal(s, "in") || str_equal(s, "yield") || str_equal(
        s,
        "mut",
    )
}

fn unwalked_group(toks: &Vec<TokenModel>, i: usize) -> (r: bool)
    requires
        i < toks@.len(),
    ensures
        r == is_unwalked_group(tokens_view(toks@), i as int),
{
    if i >= 1 && is_punct(&toks[i - 1], '#') {
        return true;
    }
    if i >= 2 && is_punct(&toks[i - 1], '!') {
        if is_punct(&toks[i - 2], '#') {
            return true;
        }
        match &toks[i - 2] {
            TokenModel::Ident(name) => {
                let lifetime = i >= 3 && is_punct(&toks[i - 3], '\'');
                return !operand_keyword(name.as_str()) && !lifetime;
            },
            _ => {},
        }
    }
    false
}

/// The token text of each item written in the tokens of the text.
fn items_in_tokens(text: &str) -> (r: Vec<String>)
    ensures
        strings_view(r@) == tokens_items(token_trees_of(text@), text@.len()),
    decreases text@.len(), 1nat,
{
    let toks = token_trees(text);
    let bound = text.unicode_len();
    let ghost tv = tokens_view(toks@);
    let mut r: Vec<String> = Vec::new();
    let mut i: usize = 0;
    assert(tv.take(0) =~= Seq::<TokenV>::empty());
    assert(strings_view(r@) =~= Seq::<Seq<char>>::empty());
    while i < toks.len()
        invariant
            i <= toks@.len(),
            bound == text@.len(),
            tv == tokens_view(toks@),
            tv == token_trees_of(text@),
            strings_view(r@) == tokens_items(tv.take(i as int), bound as nat),
        decreases toks@.len() - i,
    {
        let ghost before = strings_view(r@);
        let ghost pre = tv.take(i + 1);
        assert(pre.drop_last() =~= tv.take(i as int));
        assert(pre.last() == tv[i as int]);
        assert(is_unwalked_group(pre, i as int) == is_unwalked_group(tv, i as int));
        let mut found: Vec<String> = Vec::new();
        match &toks[i] {
            TokenModel::Group { delim, inner } => {
                if inner.as_str().unicode_len() < bound && !unwalked_group(&toks, i) {
                    found = items_in_group(*delim, inner.as_str());
                }
            },
            _ => {},
        }
        let ghost added = strings_view(found@);
        r.append(&mut found);
        assert(strings_view(r@) =~= before + added);
        i = i + 1;
    }
    assert(tv.take(toks@.len() as int) =~= tv);
    r
}

/// The token text of each item written inside a group.
fn items_in_group(delim: Delim, inner: &str) -> (r: Vec<String>)
    ensures
        strings_view(r@) == group_items(delim, inner@),
    decreases inner@.len(), 3nat,
{
    if delim == Delim::Brace {
        match block_statements(inner) {
            Some(stmts) => {
                return items_in_statements(&stmts, inner.unicode_len());
            },
            None => {},
        }
    }
    items_in_tokens(inner)
}

/// The token text of each item written in the statements of a block whose
/// inside has length `bound`.
fn items_in_statements(stmts: &Vec<StmtModel>, bound: usize) -> (r: Vec<String>)
    ensures
        strings_view(r@) == stmts_items(stmts_view(stmts@), bound as nat),
    decreases bound, 2nat,
{
    let ghost sv = stmts_view(stmts@);
    let mut r: Vec<String> = Vec::new();
    let mut i: usize = 0;
    assert(sv.take(0) =~= Seq::<StmtV>::empty());
    assert(strings_view(r@) =~= Seq::<Seq<char>>::empty());
    while i < stmts.len()
        invariant
            i <= stmts@.len(),
            sv == stmts_view(stmts@),
            strings_view(r@) == stmts_items(sv.take(i as int), bound as nat),
        decreases stmts@.len() - i,
    {
        let ghost before = strings_view(r@);
        let ghost pre = sv.take(i + 1);
        assert(pre.drop_last() =~= sv.take(i as int));
        assert(pre.last() == sv[i as int]);
        let mut found: Vec<String> = match &stmts[i] {
            StmtModel::Item(t) => vec![t.clone()],
            StmtModel::Macro => Vec::new(),
            StmtModel::Other(t) => if t.as_str().unicode_len() <= bound {
                items_in_tokens(t.as_str())
            } else {
                Vec::new()
            },
        };
        let ghost added = strings_view(found@);
        r.append(&mut found);
        assert(strings_view(r@) =~= before + added);
        i = i + 1;
    }
    assert(sv.take(stmts@.len() as int) =~= sv);
    r
}

/// An item as a plain value, read from its token text.
fn item_model(text: &String) -> (r: ItemModel)
    ensures
        r@ == item_model_of(text@),
    decreases text@.len(), 2nat,
{
    match item_kind(text.as_str()) {
        ItemKind::Fn => {
            let (metas, sig) = fn_parts(text.as_str());
            ItemModel::Fn { attrs: attributes(&metas), sig }
        },
        ItemKind::Struct => {
            let (metas, ident, generics) = item_head(text.as_str());
            ItemModel::Struct { attrs: attributes(&metas), ident, generics }
        },
        ItemKind::Enum => {
            let (metas, ident, generics) = item_head(text.as_str());
            let texts = enum_variants(text.as_str());
            let mut vs: Vec<VariantModel> = Vec::new();
            let mut i: usize = 0;
            while i < texts.len()
                invariant
                    i <= texts@.len(),
                    vs@.len() == i,
                    forall|k: int| 0 <= k < i ==> #[trigger] vs@[k]@ == variant_model_of(texts@[k]@),
                decreases texts@.len() - i,
            {
                vs.push(variant_model(&texts[i]));
                i = i + 1;
            }
            assert(variant_models_view(vs@) =~= strings_view(texts@).map_values(
                |v: Seq<char>| variant_model_of(v),
            ));
            ItemModel::Enum { attrs: attributes(&metas), ident, generics, variants: vs }
        },
        ItemKind::Trait => {
            let (metas, ident, generics) = item_head(text.as_str());
            ItemModel::Trait { attrs: attributes(&metas), ident, generics }
        },
        ItemKind::Impl => {
            let (self_ty, trait_path, texts) = impl_parts(text.as_str());
            let mut is: Vec<ImplItemModel> = Vec::new();
            let mut i: usize = 0;
            while i < texts.len()
                invariant
                    i <= texts@.len(),
                    is@.len() == i,
                    forall|k: int| 0 <= k < i ==> #[trigger] is@[k]@ == impl_item_model_of(texts@[k]@),
                decreases texts@.len() - i,
            {
                is.push(impl_item_model(&texts[i]));
                i = i + 1;
            }
            assert(impl_items_view(is@) =~= strings_view(texts@).map_values(
                |t: Seq<char>| impl_item_model_of(t),
            ));
            ItemModel::Impl { self_ty, trait_path, items: is }
        },
        ItemKind::Mod => {
            let texts = mod_items(text.as_str());
            ItemModel::Container { items: items_within_model(&texts, text.as_str().unicode_len()) }
        },
        kind => {
            let walked = kind == ItemKind::Const || kind == ItemKind::Static || kind == ItemKind::Type
                || kind == ItemKind::Union || kind == ItemKind::TraitAlias || kind == ItemKind::ForeignMod;
            if walked {
                let texts = items_in_tokens(text.as_str());
                ItemModel::Container { items: items_within_model(&texts, text.as_str().unicode_len()) }
            } else {
                ItemModel::Other
            }
        },
    }
}

/// The items inside a container whose text has length `bound`.
fn items_within_model(texts: &Vec<String>, bound: usize) -> (r: Vec<ItemModel>)
    ensures
        items_view(r@) == items_within(strings_view(texts@), bound as nat),
    decreases bound, 1nat,
{
    let ghost tv = strings_view(texts@);
    let mut r: Vec<ItemModel> = Vec::new();
    let mut i: usize = 0;
    assert(items_view(r@) =~= items_within(tv.take(0), bound as nat));
    while i < texts.len()
        invariant
            i <= texts@.len(),
            tv == strings_view(texts@),
            items_view(r@) == items_within(tv.take(i as int), bound as nat),
        decreases texts@.len() - i,
    {
        let m = if texts[i].as_str().unicode_len() < bound {
            item_model(&texts[i])
        } else {
            ItemModel::Other
        };
        let ghost before = r@;
        r.push(m);
        assert(r@.drop_last() =~= before);
        assert(tv.take(i + 1).drop_last() =~= tv.take(i as int));
        i = i + 1;
    }
    assert(tv.take(texts@.len() as int) =~= tv);
    r
}

/// The items of a file, read from their token texts.
fn items_model(texts: &Vec<String>) -> (r: Vec<ItemModel>)
    ensures
        items_view(r@) == items_model_of(strings_view(texts@)),
{
    let ghost tv = strings_view(texts@);
    let mut r: Vec<ItemModel> = Vec::new();
    let mut i: usize = 0;
    assert(items_view(r@) =~= items_model_of(tv.take(0)));
    while i < texts.len()
        invariant
            i <= texts@.len(),
            tv == strings_view(texts@),
            items_view(r@) == items_model_of(tv.take(i as int)),
        decreases texts@.len() - i,
    {
        let m = item_model(&texts[i]);
        let ghost before = r@;
        r.push(m);
        assert(r@.drop_last() =~= before);
        assert(tv.take(i + 1).drop_last() =~= tv.take(i as int));
        i = i + 1;
    }
    assert(tv.take(texts@.len() as int) =~= tv);
    r
}

/// The items of a Rust source file as plain values, or `None` where `syn` does
/// not accept the text as a Rust file.
pub fn source_model(src: &str) -> (r: Option<Vec<ItemModel>>)
    ensures
        match r {
            Some(items) => source_items(src@) == Some(items_view(items@)),
            None => source_items(src@) is None,
        },
{
    match parse_file_item_texts(src) {
        Some(texts) => Some(items_model(&texts)),
        None => None,
    }
}

/// The signatures of a Rust source file, in visiting order; none where the text
/// does not parse.
pub fn analyze_source(src: &str) -> (sigs: Vec<Signature>)
    ensures
        sigs_view(sigs@) == match source_items(src@) {
            Some(items) => items_signatures(items),
            None => Seq::empty(),
        },
{
    match source_model(src) {
        Some(items) => collect_signatures(&items),
        None => {
            let none: Vec<Signature> = Vec::new();
            assert(sigs_view(none@) =~= Seq::<crate::types::SigV>::empty());
            none
        },
    }
}

} // verus!
