//! Plain values that stand for the parts of a parsed Rust file that signature
//! extraction reads.
use vstd::prelude::*;
use crate::text::strings_view;

verus! {

/// The form of an attribute's meta.
#[derive(Debug)]
pub enum AttrForm {
    /// A bare path, as in `#[test]`.
    Path,
    /// A path with a delimited list, as in `#[derive(Debug)]`.
    List,
    /// `path = value`; `str_lit` is the value of the string literal where the
    /// value is one, as in `#[doc = "..."]`.
    NameValue { str_lit: Option<String> },
    /// Text that does not parse as a meta.
    Unparsed,
}

/// An attribute: the token text of its path, and its form.
#[derive(Debug)]
pub struct AttrModel {
    pub path: String,
    pub form: AttrForm,
}

/// A named field: the field name and its type, each as token text.
#[derive(Debug)]
pub struct NamedField {
    pub name: String,
    pub ty: String,
}

/// The fields of an enum variant, as token text.
#[derive(Debug)]
pub enum FieldsModel {
    Named(Vec<NamedField>),
    Unnamed(Vec<String>),
    Unit,
}

/// An enum variant: its attributes, its name and its fields.
#[derive(Debug)]
pub struct VariantModel {
    pub attrs: Vec<AttrModel>,
    pub ident: String,
    pub fields: FieldsModel,
}

/// An item inside an impl block.
#[derive(Debug)]
pub enum ImplItemModel {
    /// An associated function; `sig` is the token text of its signature.
    Fn { attrs: Vec<AttrModel>, sig: String },
    /// An associated constant; `ty_text` is the token text of its type.
    Const { attrs: Vec<AttrModel>, ident: String, ty_text: String },
    /// An associated type.
    Type { ident: String },
    /// Any other impl item.
    Other,
}

/// A top-level or module-level item.
#[derive(Debug)]
pub enum ItemModel {
    /// A free function; `sig` is the token text of its signature.
    Fn { attrs: Vec<AttrModel>, sig: String },
    /// A struct; `generics` is the token text of its generic parameters.
    Struct { attrs: Vec<AttrModel>, ident: String, generics: String },
    Enum { attrs: Vec<AttrModel>, ident: String, generics: String, variants: Vec<VariantModel> },
    Trait { attrs: Vec<AttrModel>, ident: String, generics: String },
    /// An impl block; `self_ty` is the token text of its self type,
    /// `trait_path` the token text of the implemented trait.
    Impl { self_ty: String, trait_path: Option<String>, items: Vec<ImplItemModel> },
    /// An item whose inside is walked: a module with the items written inside
    /// it (none for `mod m;`), or a constant, static, type alias, union, trait
    /// alias or foreign block with the items written in its expressions and
    /// types, such as in the initializer block of `const _: () = { .. };`.
    Container { items: Vec<ItemModel> },
    /// Any other item: `use`, `extern crate`, a macro invocation or verbatim
    /// tokens, none of which the walk enters.
    Other,
}

/// The delimiter of a token group.
#[derive(Debug, Clone, Copy, PartialEq, Eq, Structural)]
pub enum Delim {
    Paren,
    Brace,
    Bracket,
    /// An invisible group.
    Invisible,
}

/// A token tree: a delimited group with the text of the tokens inside it, an
/// identifier or keyword, a punctuation character, or a literal.
#[derive(Debug)]
pub enum TokenModel {
    Group { delim: Delim, inner: String },
    Ident(String),
    Punct(char),
    Literal,
}

/// A statement of a block: an item, given by its token text; a macro
/// invocation; or a `let` or an expression, given by its token text.
#[derive(Debug)]
pub enum StmtModel {
    Item(String),
    Macro,
    Other(String),
}

pub enum AttrFormV {
    Path,
    List,
    NameValue { str_lit: Option<Seq<char>> },
    Unparsed,
}

pub struct AttrV {
    pub path: Seq<char>,
    pub form: AttrFormV,
}

pub enum FieldsV {
    Named(Seq<(Seq<char>, Seq<char>)>),
    Unnamed(Seq<Seq<char>>),
    Unit,
}

pub struct VariantModelV {
    pub attrs: Seq<AttrV>,
    pub ident: Seq<char>,
    pub fields: FieldsV,
}

pub enum ImplItemV {
    Fn { attrs: Seq<AttrV>, sig: Seq<char> },
    Const { attrs: Seq<AttrV>, ident: Seq<char>, ty_text: Seq<char> },
    Type { ident: Seq<char> },
    Other,
}

pub enum ItemV {
    Fn { attrs: Seq<AttrV>, sig: Seq<char> },
    Struct { attrs: Seq<AttrV>, ident: Seq<char>, generics: Seq<char> },
    Enum { attrs: Seq<AttrV>, ident: Seq<char>, generics: Seq<char>, variants: Seq<VariantModelV> },
    Trait { attrs: Seq<AttrV>, ident: Seq<char>, generics: Seq<char> },
    Impl { self_ty: Seq<char>, trait_path: Option<Seq<char>>, items: Seq<ImplItemV> },
    Container { items: Seq<ItemV> },
    Other,
}

pub enum TokenV {
    Group { delim: Delim, inner: Seq<char> },
    Ident(Seq<char>),
    Punct(char),
    Literal,
}

pub enum StmtV {
    Item(Seq<char>),
    Macro,
    Other(Seq<char>),
}

impl View for TokenModel {
    type V = TokenV;

    open spec fn view(&self) -> TokenV {
        match self {
            TokenModel::Group { delim, inner } => TokenV::Group { delim: *delim, inner: inner@ },
            TokenModel::Ident(s) => TokenV::Ident(s@),
            TokenModel::Punct(c) => TokenV::Punct(*c),
            TokenModel::Literal => TokenV::Literal,
        }
    }
}

pub open spec fn tokens_view(v: Seq<TokenModel>) -> Seq<TokenV> {
    v.map_values(|t: TokenModel| t@)
}

impl View for StmtModel {
    type V = StmtV;

    open spec fn view(&self) -> StmtV {
        match self {
            StmtModel::Item(s) => StmtV::Item(s@),
            StmtModel::Macro => StmtV::Macro,
            StmtModel::Other(s) => StmtV::Other(s@),
        }
    }
}

pub open spec fn stmts_view(v: Seq<StmtModel>) -> Seq<StmtV> {
    v.map_values(|t: StmtModel| t@)
}

impl View for AttrModel {
    type V = AttrV;

    open spec fn view(&self) -> AttrV {
        AttrV {
            path: self.path@,
            form: match &self.form {
                AttrForm::Path => AttrFormV::Path,
                AttrForm::List => AttrFormV::List,
                AttrForm::NameValue { str_lit } => AttrFormV::NameValue {
                    str_lit: match str_lit {
                        Some(s) => Some(s@),
                        None => None,
                    },
                },
                AttrForm::Unparsed => AttrFormV::Unparsed,
            },
        }
    }
}

pub open spec fn attrs_view(a: Seq<AttrModel>) -> Seq<AttrV> {
    a.map_values(|x: AttrModel| x@)
}

impl View for FieldsModel {
    type V = FieldsV;

    open spec fn view(&self) -> FieldsV {
        match self {
            FieldsModel::Named(f) => FieldsV::Named(
                f@.map_values(|x: NamedField| (x.name@, x.ty@)),
            ),
            FieldsModel::Unnamed(t) => FieldsV::Unnamed(strings_view(t@)),
            FieldsModel::Unit => FieldsV::Unit,
        }
    }
}

impl View for VariantModel {
    type V = VariantModelV;

    open spec fn view(&self) -> VariantModelV {
        VariantModelV { attrs: attrs_view(self.attrs@), ident: self.ident@, fields: self.fields@ }
    }
}

pub open spec fn variant_models_view(v: Seq<VariantModel>) -> Seq<VariantModelV> {
    v.map_values(|x: VariantModel| x@)
}

impl View for ImplItemModel {
    type V = ImplItemV;

    open spec fn view(&self) -> ImplItemV {
        match self {
            ImplItemModel::Fn { attrs, sig } => ImplItemV::Fn { attrs: attrs_view(attrs@), sig: sig@ },
            ImplItemModel::Const { attrs, ident, ty_text } => ImplItemV::Const {
                attrs: attrs_view(attrs@),
                ident: ident@,
                ty_text: ty_text@,
            },
            ImplItemModel::Type { ident } => ImplItemV::Type { ident: ident@ },
            ImplItemModel::Other => ImplItemV::Other,
        }
    }
}

pub open spec fn impl_items_view(v: Seq<ImplItemModel>) -> Seq<ImplItemV> {
    v.map_values(|x: ImplItemModel| x@)
}

pub open spec fn item_view(i: ItemModel) -> ItemV
    decreases i,
{
    match i {
        ItemModel::Fn { attrs, sig } => ItemV::Fn { attrs: attrs_view(attrs@), sig: sig@ },
        ItemModel::Struct { attrs, ident, generics } => ItemV::Struct {
            attrs: attrs_view(attrs@),
            ident: ident@,
            generics: generics@,
        },
        ItemModel::Enum { attrs, ident, generics, variants } => ItemV::Enum {
            attrs: attrs_view(attrs@),
            ident: ident@,
            generics: generics@,
            variants: variant_models_view(variants@),
        },
        ItemModel::Trait { attrs, ident, generics } => ItemV::Trait {
            attrs: attrs_view(attrs@),
            ident: ident@,
            generics: generics@,
        },
        ItemModel::Impl { self_ty, trait_path, items } => ItemV::Impl {
            self_ty: self_ty@,
            trait_path: match trait_path {
                Some(t) => Some(t@),
                None => None,
            },
            items: impl_items_view(items@),
        },
        ItemModel::Container { items } => ItemV::Container { items: items_view(items@) },
        ItemModel::Other => ItemV::Other,
    }
}

pub open spec fn items_view(s: Seq<ItemModel>) -> Seq<ItemV>
    decreases s,
{
    if s.len() == 0 {
        Seq::empty()
    } else {
        items_view(s.drop_last()).push(item_view(s.last()))
    }
}

/// The view of a sequence of items has one view per item, in order.
pub proof fn lemma_items_view(s: Seq<ItemModel>)
    ensures
        items_view(s).len() == s.len(),
        forall|k: int| 0 <= k < s.len() ==> #[trigger] items_view(s)[k] == item_view(s[k]),
    decreases s.len(),
{
    if s.len() > 0 {
        lemma_items_view(s.drop_last());
    }
}

impl View for ItemModel {
    type V = ItemV;

    open spec fn view(&self) -> ItemV {
        item_view(*self)
    }
}

} // verus!
