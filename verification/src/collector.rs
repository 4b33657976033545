//! Signature extraction: which items yield a signature, and what it holds.
use vstd::prelude::*;
use crate::model::{
    attrs_view, impl_items_view, item_view, items_view, lemma_items_view, variant_models_view,
    AttrForm, AttrFormV, AttrModel, AttrV, FieldsModel, FieldsV, ImplItemModel, ImplItemV, ItemModel, ItemV,
    NamedField, VariantModel, VariantModelV,
};
use crate::text::{str_equal, is_white_space, lemma_trimmed_has_no_outer_white_space, strings_view, trim_string, trimmed};
use crate::types::{lemma_sigs_view, sig_view, sigs_view, EnumVariant, SigV, Signature, VariantV};

verus! {

/// The text of a doc comment attribute: one whose path is `doc` and which sets
/// it to a string literal, as in `#[doc = "..."]`; `None` for any other.
pub open spec fn doc_value(a: AttrV) -> Option<Seq<char>> {
    if a.path == "doc"@ {
        match a.form {
            AttrFormV::NameValue { str_lit } => str_lit,
            _ => None,
        }
    } else {
        None
    }
}

/// Whether an attribute is a doc comment.
pub open spec fn is_doc_attr(a: AttrV) -> bool {
    doc_value(a) is Some
}

/// The doc comment lines among the attributes, each trimmed of surrounding
/// white space: one per `doc = "..."` attribute, in order.
pub open spec fn doc_texts(attrs: Seq<AttrV>) -> Seq<Seq<char>>
    decreases attrs.len(),
{
    if attrs.len() == 0 {
        Seq::empty()
    } else {
        let rest = doc_texts(attrs.drop_last());
        let a = attrs.last();
        if is_doc_attr(a) {
            rest.push(trimmed(doc_value(a)->0))
        } else {
            rest
        }
    }
}

/// Every doc line that extraction gives neither starts nor ends with white space.
pub proof fn lemma_doc_lines_are_trimmed(attrs: Seq<AttrV>)
    ensures
        forall|k: int| 0 <= k < doc_texts(attrs).len() ==> {
            let d = #[trigger] doc_texts(attrs)[k];
            d.len() > 0 ==> !is_white_space(d[0]) && !is_white_space(d.last())
        },
    decreases attrs.len(),
{
    if attrs.len() > 0 {
        lemma_doc_lines_are_trimmed(attrs.drop_last());
        let a = attrs.last();
        if is_doc_attr(a) {
            lemma_trimmed_has_no_outer_white_space(doc_value(a)->0);
            let rest = doc_texts(attrs.drop_last());
            assert forall|k: int| 0 <= k < doc_texts(attrs).len() implies {
                let d = #[trigger] doc_texts(attrs)[k];
                d.len() > 0 ==> !is_white_space(d[0]) && !is_white_space(d.last())
            } by {
                if k < rest.len() {
                    assert(doc_texts(attrs)[k] == rest[k]);
                }
            }
        }
    }
}

/// The signature text of a function: `fn` and three spaces before its header.
pub open spec fn fn_text(sig: Seq<char>) -> Seq<char> {
    "fn   "@ + sig
}

/// The signature text of an associated constant.
pub open spec fn const_text(ident: Seq<char>, ty_text: Seq<char>) -> Seq<char> {
    "const   "@ + ident + ": "@ + ty_text
}

pub open spec fn field_text(f: (Seq<char>, Seq<char>)) -> Seq<char> {
    f.0 + ": "@ + f.1
}

pub open spec fn variant_signature(v: VariantModelV) -> VariantV {
    match v.fields {
        FieldsV::Named(f) => VariantV::Named {
            name: v.ident,
            docs: doc_texts(v.attrs),
            fields: f.map_values(|x: (Seq<char>, Seq<char>)| field_text(x)),
        },
        FieldsV::Unnamed(t) => VariantV::Tuple { name: v.ident, docs: doc_texts(v.attrs), types: t },
        FieldsV::Unit => VariantV::Unit { name: v.ident, docs: doc_texts(v.attrs) },
    }
}

/// What one impl item contributes to the impl's associated signatures.
pub open spec fn impl_item_signatures(i: ImplItemV) -> Seq<SigV> {
    match i {
        ImplItemV::Fn { attrs, sig } => seq![SigV::Fn { docs: doc_texts(attrs), signature: fn_text(sig) }],
        ImplItemV::Const { attrs, ident, ty_text } => seq![
            SigV::Fn { docs: doc_texts(attrs), signature: const_text(ident, ty_text) },
        ],
        ImplItemV::Type { ident } => seq![
            SigV::Impl { trait_name: None, for_type: ident, associated: Seq::empty() },
        ],
        ImplItemV::Other => Seq::empty(),
    }
}

pub open spec fn impl_items_signatures(s: Seq<ImplItemV>) -> Seq<SigV>
    decreases s.len(),
{
    if s.len() == 0 {
        Seq::empty()
    } else {
        impl_items_signatures(s.drop_last()) + impl_item_signatures(s.last())
    }
}

/// The signatures that one item yields: one for a function, struct, enum, trait
/// or impl; those of the items inside a module, constant, static, type alias,
/// union, trait alias or foreign block, in order; none for anything else.
pub open spec fn item_signatures(i: ItemV) -> Seq<SigV>
    decreases i,
{
    match i {
        ItemV::Fn { attrs, sig } => seq![SigV::Fn { docs: doc_texts(attrs), signature: fn_text(sig) }],
        ItemV::Struct { attrs, ident, generics } => seq![
            SigV::Struct { docs: doc_texts(attrs), name: ident, generics },
        ],
        ItemV::Enum { attrs, ident, generics, variants } => seq![
            SigV::Enum {
                docs: doc_texts(attrs),
                name: ident,
                generics,
                variants: variants.map_values(|v: VariantModelV| variant_signature(v)),
            },
        ],
        ItemV::Trait { attrs, ident, generics } => seq![
            SigV::Trait { docs: doc_texts(attrs), name: ident, generics },
        ],
        ItemV::Impl { self_ty, trait_path, items } => seq![
            SigV::Impl {
                trait_name: trait_path,
                for_type: self_ty,
                associated: impl_items_signatures(items),
            },
        ],
        ItemV::Container { items } => items_signatures(items),
        ItemV::Other => Seq::empty(),
    }
}

/// Doc texts run one after the other: those of two runs of attributes are the
/// first run's followed by the second's. An attribute alone gives its trimmed
/// string where its path is `doc` and it sets it to a string literal, and
/// nothing otherwise.
pub proof fn lemma_doc_texts_concat(a: Seq<AttrV>, b: Seq<AttrV>)
    ensures
        doc_texts(a + b) == doc_texts(a) + doc_texts(b),
    decreases b.len(),
{
    if b.len() == 0 {
        assert(a + b =~= a);
        assert(doc_texts(a) + Seq::<Seq<char>>::empty() =~= doc_texts(a));
    } else {
        lemma_doc_texts_concat(a, b.drop_last());
        assert((a + b).drop_last() =~= a + b.drop_last());
        assert((a + b).last() == b.last());
        if is_doc_attr(b.last()) {
            assert(doc_texts(a) + doc_texts(b) =~= (doc_texts(a) + doc_texts(b.drop_last())).push(
                trimmed(doc_value(b.last())->0),
            ));
        }
    }
}

/// The doc text of a single attribute.
pub proof fn lemma_doc_texts_single(path: Seq<char>, form: AttrFormV)
    ensures
        path == "doc"@ ==> (form matches AttrFormV::NameValue { str_lit: Some(s) } ==> doc_texts(
            seq![AttrV { path, form }],
        ) == seq![trimmed(s)]),
        path != "doc"@ ==> doc_texts(seq![AttrV { path, form }]) == Seq::<Seq<char>>::empty(),
        !(form matches AttrFormV::NameValue { str_lit: Some(_) }) ==> doc_texts(seq![AttrV { path, form }])
            == Seq::<Seq<char>>::empty(),
{
    let a = seq![AttrV { path, form }];
    assert(a.drop_last() =~= Seq::<AttrV>::empty());
    assert(doc_texts(Seq::<AttrV>::empty()) == Seq::<Seq<char>>::empty());
    assert(a.last() == AttrV { path, form });
}

/// Each function, struct, enum and trait yields exactly one signature, of its
/// own kind, carrying its name, its generics or signature text, and the doc
/// texts of its own attributes.
pub proof fn lemma_item_signature_docs(attrs: Seq<AttrV>, ident: Seq<char>, text: Seq<char>)
    ensures
        item_signatures(ItemV::Fn { attrs, sig: text }) == seq![
            SigV::Fn { docs: doc_texts(attrs), signature: "fn   "@ + text },
        ],
        item_signatures(ItemV::Struct { attrs, ident, generics: text }) == seq![
            SigV::Struct { docs: doc_texts(attrs), name: ident, generics: text },
        ],
        item_signatures(ItemV::Trait { attrs, ident, generics: text }) == seq![
            SigV::Trait { docs: doc_texts(attrs), name: ident, generics: text },
        ],
        item_signatures(ItemV::Enum { attrs, ident, generics: text, variants: Seq::empty() }) == seq![
            SigV::Enum { docs: doc_texts(attrs), name: ident, generics: text, variants: Seq::empty() },
        ],
{
    assert(Seq::<VariantModelV>::empty().map_values(|v: VariantModelV| variant_signature(v)) =~= Seq::<VariantV>::empty());
}

/// What each impl item contributes to its impl's associated signatures: an
/// associated function its signature text, an associated constant
/// `const   name: type`, an associated type an empty impl for its name, and
/// anything else nothing; the impl items contribute in order.
pub proof fn lemma_impl_item_signatures(attrs: Seq<AttrV>, ident: Seq<char>, text: Seq<char>, a: Seq<ImplItemV>, b: Seq<ImplItemV>)
    ensures
        impl_items_signatures(seq![ImplItemV::Fn { attrs, sig: text }]) == seq![
            SigV::Fn { docs: doc_texts(attrs), signature: "fn   "@ + text },
        ],
        impl_items_signatures(seq![ImplItemV::Const { attrs, ident, ty_text: text }]) == seq![
            SigV::Fn { docs: doc_texts(attrs), signature: "const   "@ + ident + ": "@ + text },
        ],
        impl_items_signatures(seq![ImplItemV::Type { ident }]) == seq![
            SigV::Impl { trait_name: None, for_type: ident, associated: Seq::empty() },
        ],
        impl_items_signatures(seq![ImplItemV::Other]) == Seq::<SigV>::empty(),
        impl_items_signatures(a + b) == impl_items_signatures(a) + impl_items_signatures(b),
    decreases b.len(),
{
    assert forall|i: ImplItemV| #[trigger] impl_items_signatures(seq![i]) == impl_item_signatures(i) by {
        assert(seq![i].drop_last() =~= Seq::<ImplItemV>::empty());
        assert(seq![i].last() == i);
        assert(impl_items_signatures(Seq::<ImplItemV>::empty()) == Seq::<SigV>::empty());
        assert(Seq::<SigV>::empty() + impl_item_signatures(i) =~= impl_item_signatures(i));
    }
    if b.len() == 0 {
        assert(a + b =~= a);
        assert(impl_items_signatures(a) + Seq::<SigV>::empty() =~= impl_items_signatures(a));
    } else {
        lemma_impl_item_signatures(attrs, ident, text, a, b.drop_last());
        assert((a + b).drop_last() =~= a + b.drop_last());
        assert((a + b).last() == b.last());
        assert(impl_items_signatures(a) + impl_items_signatures(b) =~= impl_items_signatures(a)
            + impl_items_signatures(b.drop_last()) + impl_item_signatures(b.last()));
    }
}

/// The signatures of a run of items are those of its first part followed by
/// those of the rest: no item's signature is lost or repeated.
pub proof fn lemma_items_signatures_concat(a: Seq<ItemV>, b: Seq<ItemV>)
    ensures
        items_signatures(a + b) == items_signatures(a) + items_signatures(b),
    decreases b.len(),
{
    if b.len() == 0 {
        assert(a + b =~= a);
        assert(items_signatures(a) + Seq::<SigV>::empty() =~= items_signatures(a));
    } else {
        lemma_items_signatures_concat(a, b.drop_last());
        assert((a + b).drop_last() =~= a + b.drop_last());
        assert((a + b).last() == b.last());
        assert(items_signatures(a) + items_signatures(b) =~= items_signatures(a) + items_signatures(
            b.drop_last(),
        ) + item_signatures(b.last()));
    }
}

/// An enum yields one signature, whose variants follow the enum's variants one
/// for one and in order: braced fields as `name: type` texts, parenthesized
/// fields as their types, and a unit variant with neither; each with its name
/// and doc lines.
pub proof fn lemma_enum_signature(attrs: Seq<AttrV>, ident: Seq<char>, generics: Seq<char>, variants: Seq<VariantModelV>)
    ensures
        ({
            let sigs = item_signatures(ItemV::Enum { attrs, ident, generics, variants });
            &&& sigs.len() == 1
            &&& sigs[0] matches SigV::Enum { docs, name, generics: g, variants: vs }
            &&& docs == doc_texts(attrs) && name == ident && g == generics
            &&& vs.len() == variants.len()
            &&& forall|k: int| 0 <= k < variants.len() ==> (#[trigger] vs[k]) == match variants[k].fields {
                FieldsV::Named(f) => VariantV::Named {
                    name: variants[k].ident,
                    docs: doc_texts(variants[k].attrs),
                    fields: f.map_values(|x: (Seq<char>, Seq<char>)| field_text(x)),
                },
                FieldsV::Unnamed(t) => VariantV::Tuple {
                    name: variants[k].ident,
                    docs: doc_texts(variants[k].attrs),
                    types: t,
                },
                FieldsV::Unit => VariantV::Unit { name: variants[k].ident, docs: doc_texts(variants[k].attrs) },
            }
        }),
{
}

/// An impl block yields one signature, for its self type and trait, whose
/// associated signatures come from its items in order: its functions are not
/// signatures of their own beside it.
pub proof fn lemma_impl_signature(self_ty: Seq<char>, trait_path: Option<Seq<char>>, items: Seq<ImplItemV>)
    ensures
        item_signatures(ItemV::Impl { self_ty, trait_path, items }) == seq![
            SigV::Impl { trait_name: trait_path, for_type: self_ty, associated: impl_items_signatures(items) },
        ],
        impl_items_signatures(items).len() <= items.len(),
    decreases items.len(),
{
    if items.len() > 0 {
        lemma_impl_signature(self_ty, trait_path, items.drop_last());
    }
}

/// The signatures of a sequence of items, in source order.
pub open spec fn items_signatures(s: Seq<ItemV>) -> Seq<SigV>
    decreases s,
{
    if s.len() == 0 {
        Seq::empty()
    } else {
        items_signatures(s.drop_last()) + item_signatures(s.last())
    }
}

proof fn lemma_sigs_view_push(s: Seq<Signature>, x: Signature)
    ensures
        sigs_view(s.push(x)) == sigs_view(s).push(sig_view(x)),
{
    assert(s.push(x).drop_last() =~= s);
}

/// The doc comment lines of an item: the value of each `doc = "..."` attribute,
/// trimmed of leading and trailing white space, in order.
pub fn extract_docs(attrs: &[AttrModel]) -> (docs: Vec<String>)
    ensures
        strings_view(docs@) == doc_texts(attrs_view(attrs@)),
{
    let mut docs: Vec<String> = Vec::new();
    let ghost av = attrs_view(attrs@);
    let mut i: usize = 0;
    while i < attrs.len()
        invariant
            i <= attrs@.len(),
            av == attrs_view(attrs@),
            strings_view(docs@) == doc_texts(av.take(i as int)),
        decreases attrs@.len() - i,
    {
        let a = &attrs[i];
        let ghost before = docs@;
        assert(av.take(i + 1).drop_last() =~= av.take(i as int));
        if str_equal(a.path.as_str(), "doc") {
            match &a.form {
                AttrForm::NameValue { str_lit: Some(s) } => {
                    let t = trim_string(s.as_str());
                    docs.push(t);
                    assert(strings_view(docs@) =~= strings_view(before).push(t@));
                },
                _ => {},
            }
        }
        i = i + 1;
    }
    assert(av.take(attrs@.len() as int) =~= av);
    docs
}

fn fn_signature_string(sig: &String) -> (s: String)
    ensures
        s@ == fn_text(sig@),
{
    let mut s = String::new();
    s.append("fn   ");
    s.append(sig.as_str());
    s
}

fn field_strings(fields: &Vec<NamedField>) -> (r: Vec<String>)
    ensures
        strings_view(r@) == fields@.map_values(|x: NamedField| (x.name@, x.ty@)).map_values(
            |x: (Seq<char>, Seq<char>)| field_text(x),
        ),
{
    let mut r: Vec<String> = Vec::new();
    let mut i: usize = 0;
    while i < fields.len()
        invariant
            i <= fields@.len(),
            r@.len() == i,
            forall|k: int| 0 <= k < i ==> #[trigger] r@[k]@ == field_text(
                (fields@[k].name@, fields@[k].ty@),
            ),
        decreases fields@.len() - i,
    {
        let mut s = String::new();
        s.append(fields[i].name.as_str());
        s.append(": ");
        s.append(fields[i].ty.as_str());
        r.push(s);
        i = i + 1;
    }
    assert(strings_view(r@) =~= fields@.map_values(|x: NamedField| (x.name@, x.ty@)).map_values(
        |x: (Seq<char>, Seq<char>)| field_text(x),
    ));
    r
}

fn variant_of(v: &VariantModel) -> (r: EnumVariant)
    ensures
        r@ == variant_signature(v@),
{
    let docs = extract_docs(&v.attrs);
    match &v.fields {
        FieldsModel::Named(f) => EnumVariant::Named {
            name: v.ident.clone(),
            docs,
            fields: field_strings(f),
        },
        FieldsModel::Unnamed(t) => {
            let mut types: Vec<String> = Vec::new();
            let mut i: usize = 0;
            while i < t.len()
                invariant
                    i <= t@.len(),
                    types@.len() == i,
                    forall|k: int| 0 <= k < i ==> #[trigger] types@[k]@ == t@[k]@,
                decreases t@.len() - i,
            {
                types.push(t[i].clone());
                i = i + 1;
            }
            assert(strings_view(types@) =~= strings_view(t@));
            EnumVariant::Tuple { name: v.ident.clone(), docs, types }
        },
        FieldsModel::Unit => EnumVariant::Unit { name: v.ident.clone(), docs },
    }
}

fn impl_item_signature(item: &ImplItemModel) -> (r: Option<Signature>)
    ensures
        impl_item_signatures(item@) == (match r {
            Some(s) => seq![s@],
            None => Seq::<SigV>::empty(),
        }),
{
    match item {
        ImplItemModel::Fn { attrs, sig } => {
            let docs = extract_docs(attrs);
            Some(Signature::Fn { docs, signature: fn_signature_string(sig) })
        },
        ImplItemModel::Const { attrs, ident, ty_text } => {
            let docs = extract_docs(attrs);
            let mut s = String::new();
            s.append("const   ");
            s.append(ident.as_str());
            s.append(": ");
            s.append(ty_text.as_str());
            Some(Signature::Fn { docs, signature: s })
        },
        ImplItemModel::Type { ident } => {
            let r = Signature::Impl { trait_name: None, for_type: ident.clone(), associated: Vec::new() };
            assert(sigs_view(Seq::<Signature>::empty()) =~= Seq::<SigV>::empty());
            Some(r)
        },
        ImplItemModel::Other => None,
    }
}

/// Gathers the signatures of visited items, in visiting order.
pub struct SignatureCollector {
    pub signatures: Vec<Signature>,
}

impl SignatureCollector {
    /// A collector that has gathered nothing yet.
    pub fn new() -> (c: Self)
        ensures
            c.signatures@.len() == 0,
    {
        SignatureCollector { signatures: Vec::new() }
    }

    fn push_signature(&mut self, s: Signature)
        ensures
            sigs_view(final(self).signatures@) == sigs_view(old(self).signatures@).push(s@),
    {
        proof {
            lemma_sigs_view_push(self.signatures@, s);
        }
        self.signatures.push(s);
    }

    /// Records a free function: its doc lines and `fn` with its header.
    pub fn visit_item_fn(&mut self, attrs: &Vec<AttrModel>, sig: &String)
        ensures
            sigs_view(final(self).signatures@) == sigs_view(old(self).signatures@).push(
                SigV::Fn { docs: doc_texts(attrs_view(attrs@)), signature: fn_text(sig@) },
            ),
    {
        let docs = extract_docs(attrs);
        self.push_signature(Signature::Fn { docs, signature: fn_signature_string(sig) });
    }

    /// Records a struct: its doc lines, name and generics text.
    pub fn visit_item_struct(&mut self, attrs: &Vec<AttrModel>, ident: &String, generics: &String)
        ensures
            sigs_view(final(self).signatures@) == sigs_view(old(self).signatures@).push(
                SigV::Struct { docs: doc_texts(attrs_view(attrs@)), name: ident@, generics: generics@ },
            ),
    {
        let docs = extract_docs(attrs);
        self.push_signature(Signature::Struct { docs, name: ident.clone(), generics: generics.clone() });
    }

    /// Records a trait: its doc lines, name and generics text.
    pub fn visit_item_trait(&mut self, attrs: &Vec<AttrModel>, ident: &String, generics: &String)
        ensures
            sigs_view(final(self).signatures@) == sigs_view(old(self).signatures@).push(
                SigV::Trait { docs: doc_texts(attrs_view(attrs@)), name: ident@, generics: generics@ },
            ),
    {
        let docs = extract_docs(attrs);
        self.push_signature(Signature::Trait { docs, name: ident.clone(), generics: generics.clone() });
    }

    /// Records an enum: its doc lines, name, generics text and every variant
    /// with its own doc lines and fields.
    pub fn visit_item_enum(
        &mut self,
        attrs: &Vec<AttrModel>,
        ident: &String,
        generics: &String,
        variants: &Vec<VariantModel>,
    )
        ensures
            sigs_view(final(self).signatures@) == sigs_view(old(self).signatures@).push(
                SigV::Enum {
                    docs: doc_texts(attrs_view(attrs@)),
                    name: ident@,
                    generics: generics@,
                    variants: variant_models_view(variants@).map_values(
                        |v: VariantModelV| variant_signature(v),
                    ),
                },
            ),
    {
        let docs = extract_docs(attrs);
        let mut vs: Vec<EnumVariant> = Vec::new();
        let mut i: usize = 0;
        while i < variants.len()
            invariant
                i <= variants@.len(),
                vs@.len() == i,
                forall|k: int| 0 <= k < i ==> #[trigger] vs@[k]@ == variant_signature(variants@[k]@),
            decreases variants@.len() - i,
        {
            let v = variant_of(&variants[i]);
            vs.push(v);
            i = i + 1;
        }
        let s = Signature::Enum { docs, name: ident.clone(), generics: generics.clone(), variants: vs };
        assert(s@ == SigV::Enum {
            docs: doc_texts(attrs_view(attrs@)),
            name: ident@,
            generics: generics@,
            variants: variant_models_view(variants@).map_values(|v: VariantModelV| variant_signature(v)),
        }) by {
            let lhs = crate::types::variants_view(vs@);
            let rhs = variant_models_view(variants@).map_values(|v: VariantModelV| variant_signature(v));
            assert forall|k: int| 0 <= k < lhs.len() implies lhs[k] == rhs[k] by {
                assert(vs@[k]@ == variant_signature(variants@[k]@));
            }
            assert(lhs =~= rhs);
        }
        self.push_signature(s);
    }

    /// Records an impl block: the implemented trait, the type, and one signature
    /// per associated function, constant and type.
    pub fn visit_item_impl(
        &mut self,
        self_ty: &String,
        trait_path: &Option<String>,
        items: &Vec<ImplItemModel>,
    )
        ensures
            sigs_view(final(self).signatures@) == sigs_view(old(self).signatures@).push(
                SigV::Impl {
                    trait_name: match *trait_path {
                        Some(t) => Some(t@),
                        None => None,
                    },
                    for_type: self_ty@,
                    associated: impl_items_signatures(impl_items_view(items@)),
                },
            ),
    {
        let mut associated = SignatureCollector::new();
        let ghost iv = impl_items_view(items@);
        let mut i: usize = 0;
        proof {
            assert(sigs_view(associated.signatures@) =~= Seq::<SigV>::empty());
        }
        while i < items.len()
            invariant
                i <= items@.len(),
                iv == impl_items_view(items@),
                sigs_view(associated.signatures@) == impl_items_signatures(iv.take(i as int)),
            decreases items@.len() - i,
        {
            let ghost before = sigs_view(associated.signatures@);
            match impl_item_signature(&items[i]) {
                Some(s) => associated.push_signature(s),
                None => {},
            }
            assert(iv.take(i + 1).drop_last() =~= iv.take(i as int));
            assert(sigs_view(associated.signatures@) =~= impl_items_signatures(iv.take(i + 1)));
            i = i + 1;
        }
        assert(iv.take(items@.len() as int) =~= iv);
        let trait_name = match trait_path {
            Some(t) => Some(t.clone()),
            None => None,
        };
        self.push_signature(
            Signature::Impl { trait_name, for_type: self_ty.clone(), associated: associated.signatures },
        );
    }

    /// Visits one item: records its signature, or visits the items inside it in order.
    pub fn visit_item(&mut self, item: &ItemModel)
        ensures
            sigs_view(final(self).signatures@) == sigs_view(old(self).signatures@) + item_signatures(
                item@,
            ),
        decreases item,
    {
        let ghost before = sigs_view(self.signatures@);
        match item {
            ItemModel::Fn { attrs, sig } => self.visit_item_fn(attrs, sig),
            ItemModel::Struct { attrs, ident, generics } => self.visit_item_struct(attrs, ident, generics),
            ItemModel::Enum { attrs, ident, generics, variants } => self.visit_item_enum(
                attrs,
                ident,
                generics,
                variants,
            ),
            ItemModel::Trait { attrs, ident, generics } => self.visit_item_trait(attrs, ident, generics),
            ItemModel::Impl { self_ty, trait_path, items } => self.visit_item_impl(
                self_ty,
                trait_path,
                items,
            ),
            ItemModel::Container { items } => {
                proof {
                    assert(decreases_to!(*item => *items));
                }
                self.visit_items(items);
            },
            ItemModel::Other => {},
        }
        assert(sigs_view(self.signatures@) =~= before + item_signatures(item@));
    }

    /// Visits items in order.
    pub fn visit_items(&mut self, items: &Vec<ItemModel>)
        ensures
            sigs_view(final(self).signatures@) == sigs_view(old(self).signatures@) + items_signatures(
                items_view(items@),
            ),
        decreases items,
    {
        let ghost start = sigs_view(self.signatures@);
        let ghost iv = items_view(items@);
        proof {
            lemma_items_view(items@);
        }
        let mut i: usize = 0;
        while i < items.len()
            invariant
                i <= items@.len(),
                iv == items_view(items@),
                iv.len() == items@.len(),
                forall|k: int| 0 <= k < items@.len() ==> iv[k] == #[trigger] item_view(items@[k]),
                sigs_view(self.signatures@) == start + items_signatures(iv.take(i as int)),
            decreases items@.len() - i,
        {
            proof {
                assert(decreases_to!(*items => items@));
                assert(decreases_to!(items@ => items@[i as int]));
            }
            self.visit_item(&items[i]);
            assert(iv.take(i + 1).drop_last() =~= iv.take(i as int));
            assert(sigs_view(self.signatures@) =~= start + items_signatures(iv.take(i + 1)));
            i = i + 1;
        }
        assert(iv.take(items@.len() as int) =~= iv);
    }
}

/// The signatures of the given items, in visiting order: items inside another
/// item follow that item's place.
pub fn collect_signatures(items: &Vec<ItemModel>) -> (sigs: Vec<Signature>)
    ensures
        sigs_view(sigs@) == items_signatures(items_view(items@)),
{
    let mut collector = SignatureCollector::new();
    assert(sigs_view(collector.signatures@) =~= Seq::<SigV>::empty());
    collector.visit_items(items);
    assert(Seq::<SigV>::empty() + items_signatures(items_view(items@)) =~= items_signatures(
        items_view(items@),
    ));
    collector.signatures
}

} // verus!
