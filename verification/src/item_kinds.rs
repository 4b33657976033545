//! Which kind of item, or of impl item, `syn` parses from a text.
use vstd::prelude::*;
use syn::Item;
use syn::Item::{
    Const, Enum, ExternCrate, Fn as FnItem, ForeignMod, Impl, Macro, Mod, Static, Struct, Trait,
    TraitAlias, Type, Union, Use, Verbatim,
};

verus! {

/// The kind of a parsed item: one per variant of `syn::Item`.
#[derive(Debug, Clone, Copy, PartialEq, Eq, Structural)]
pub enum ItemKind {
    Const,
    Enum,
    ExternCrate,
    Fn,
    ForeignMod,
    Impl,
    Macro,
    Mod,
    Static,
    Struct,
    Trait,
    TraitAlias,
    Type,
    Union,
    Use,
    Verbatim,
    /// A variant that `syn::Item` may gain in a later version.
    Unlisted,
    /// Text that does not parse as an item.
    Unparsed,
}

/// The kind of a parsed impl item: one per variant of `syn::ImplItem`.
#[derive(Debug, Clone, Copy, PartialEq, Eq, Structural)]
pub enum ImplItemKind {
    Const,
    Fn,
    Type,
    Macro,
    Verbatim,
    /// A variant that `syn::ImplItem` may gain in a later version.
    Unlisted,
    /// Text that does not parse as an impl item.
    Unparsed,
}

/// The kind of the item that `syn` parses from the token text.
pub uninterp spec fn item_kind_of(text: Seq<char>) -> ItemKind;

/// The kind of the impl item that `syn` parses from the token text.
pub uninterp spec fn impl_item_kind_of(text: Seq<char>) -> ImplItemKind;

/// `syn::parse_str::<Item>`: which variant of `syn::Item` the text parses as.
#[verifier::external_body]
pub(crate) fn item_kind(text: &str) -> (r: ItemKind)
    ensures
        r == item_kind_of(text@),
{
    match syn::parse_str::<Item>(text) {
        Err(_) => ItemKind::Unparsed,
        Ok(item) => match item {
            Const(_) => ItemKind::Const, Enum(_) => ItemKind::Enum, ExternCrate(_) => ItemKind::ExternCrate,
            FnItem(_) => ItemKind::Fn, ForeignMod(_) => ItemKind::ForeignMod, Impl(_) => ItemKind::Impl,
            Macro(_) => ItemKind::Macro, Mod(_) => ItemKind::Mod, Static(_) => ItemKind::Static,
            Struct(_) => ItemKind::Struct, Trait(_) => ItemKind::Trait, TraitAlias(_) => ItemKind::TraitAlias,
            Type(_) => ItemKind::Type, Union(_) => ItemKind::Union, Use(_) => ItemKind::Use,
            Verbatim(_) => ItemKind::Verbatim, _ => ItemKind::Unlisted,
        },
    }
}

/// `syn::parse_str::<syn::ImplItem>`: which variant of `syn::ImplItem` the
/// text parses as.
#[verifier::external_body]
pub(crate) fn impl_item_kind(text: &str) -> (r: ImplItemKind)
    ensures
        r == impl_item_kind_of(text@),
{
    match syn::parse_str::<syn::ImplItem>(text) {
        Err(_) => ImplItemKind::Unparsed,
        Ok(item) => match item {
            syn::ImplItem::Const(_) => ImplItemKind::Const,
            syn::ImplItem::Fn(_) => ImplItemKind::Fn,
            syn::ImplItem::Type(_) => ImplItemKind::Type,
            syn::ImplItem::Macro(_) => ImplItemKind::Macro,
            syn::ImplItem::Verbatim(_) => ImplItemKind::Verbatim,
            _ => ImplItemKind::Unlisted,
        },
    }
}

} // verus!
