//! The signatures that the library extracts, the results it reports, and how a
//! signature is rendered as text.
use vstd::prelude::*;
use crate::text::{
    breaks_indented, indent_string, indented, join_strings, joined, lemma_breaks_indented_concat,
    lemma_indented_lines, lemma_line_breaks_concat, lemma_no_line_breaks, line_breaks, strings_view,
};

verus! {

/// One extracted item signature.
#[derive(Debug)]
pub enum Signature {
    Fn { docs: Vec<String>, signature: String },
    Struct { docs: Vec<String>, name: String, generics: String },
    Enum { docs: Vec<String>, name: String, generics: String, variants: Vec<EnumVariant> },
    Trait { docs: Vec<String>, name: String, generics: String },
    Impl { trait_name: Option<String>, for_type: String, associated: Vec<Signature> },
}

/// One variant of an extracted enum.
#[derive(Debug, Clone)]
pub enum EnumVariant {
    Named { name: String, docs: Vec<String>, fields: Vec<String> },
    Tuple { name: String, docs: Vec<String>, types: Vec<String> },
    Unit { name: String, docs: Vec<String> },
}

/// The signatures found in one file.
#[derive(Debug)]
pub struct FileResult {
    pub path: String,
    pub signatures: Vec<Signature>,
}

/// The outcome of analysing a path.
#[derive(Debug)]
pub enum AnalyzeResult {
    Success { files: Vec<FileResult> },
    Error { message: String },
}

/// One rendered signature that matched a search.
#[derive(Debug)]
pub struct MatchResult {
    pub file: String,
    pub line: String,
}

/// The outcome of a search.
#[derive(Debug)]
pub enum SearchResult {
    Success { matches: Vec<MatchResult>, total_matched: usize },
    Error { message: String },
}

/// Mathematical value of a [`Signature`].
pub enum SigV {
    Fn { docs: Seq<Seq<char>>, signature: Seq<char> },
    Struct { docs: Seq<Seq<char>>, name: Seq<char>, generics: Seq<char> },
    Enum { docs: Seq<Seq<char>>, name: Seq<char>, generics: Seq<char>, variants: Seq<VariantV> },
    Trait { docs: Seq<Seq<char>>, name: Seq<char>, generics: Seq<char> },
    Impl { trait_name: Option<Seq<char>>, for_type: Seq<char>, associated: Seq<SigV> },
}

/// Mathematical value of an [`EnumVariant`].
pub enum VariantV {
    Named { name: Seq<char>, docs: Seq<Seq<char>>, fields: Seq<Seq<char>> },
    Tuple { name: Seq<char>, docs: Seq<Seq<char>>, types: Seq<Seq<char>> },
    Unit { name: Seq<char>, docs: Seq<Seq<char>> },
}

/// Mathematical value of a [`FileResult`].
pub struct FileResultV {
    pub path: Seq<char>,
    pub signatures: Seq<SigV>,
}

/// Mathematical value of an [`AnalyzeResult`].
pub enum AnalyzeV {
    Success { files: Seq<FileResultV> },
    Error { message: Seq<char> },
}

/// Mathematical value of a [`MatchResult`].
pub struct MatchV {
    pub file: Seq<char>,
    pub line: Seq<char>,
}

/// Mathematical value of a [`SearchResult`].
pub enum SearchV {
    Success { matches: Seq<MatchV>, total_matched: nat },
    Error { message: Seq<char> },
}

pub open spec fn opt_string_view(o: Option<String>) -> Option<Seq<char>> {
    match o {
        Some(s) => Some(s@),
        None => None,
    }
}

pub open spec fn variant_view(v: EnumVariant) -> VariantV {
    match v {
        EnumVariant::Named { name, docs, fields } => VariantV::Named {
            name: name@,
            docs: strings_view(docs@),
            fields: strings_view(fields@),
        },
        EnumVariant::Tuple { name, docs, types } => VariantV::Tuple {
            name: name@,
            docs: strings_view(docs@),
            types: strings_view(types@),
        },
        EnumVariant::Unit { name, docs } => VariantV::Unit { name: name@, docs: strings_view(docs@) },
    }
}

pub open spec fn variants_view(v: Seq<EnumVariant>) -> Seq<VariantV> {
    v.map_values(|x: EnumVariant| variant_view(x))
}

pub open spec fn sig_view(s: Signature) -> SigV
    decreases s,
{
    match s {
        Signature::Fn { docs, signature } => SigV::Fn {
            docs: strings_view(docs@),
            signature: signature@,
        },
        Signature::Struct { docs, name, generics } => SigV::Struct {
            docs: strings_view(docs@),
            name: name@,
            generics: generics@,
        },
        Signature::Enum { docs, name, generics, variants } => SigV::Enum {
            docs: strings_view(docs@),
            name: name@,
            generics: generics@,
            variants: variants_view(variants@),
        },
        Signature::Trait { docs, name, generics } => SigV::Trait {
            docs: strings_view(docs@),
            name: name@,
            generics: generics@,
        },
        Signature::Impl { trait_name, for_type, associated } => SigV::Impl {
            trait_name: opt_string_view(trait_name),
            for_type: for_type@,
            associated: sigs_view(associated@),
        },
    }
}

pub open spec fn sigs_view(s: Seq<Signature>) -> Seq<SigV>
    decreases s,
{
    if s.len() == 0 {
        Seq::empty()
    } else {
        sigs_view(s.drop_last()).push(sig_view(s.last()))
    }
}

/// The view of a sequence of signatures has one view per signature, in order.
pub proof fn lemma_sigs_view(s: Seq<Signature>)
    ensures
        sigs_view(s).len() == s.len(),
        forall|k: int| 0 <= k < s.len() ==> #[trigger] sigs_view(s)[k] == sig_view(s[k]),
    decreases s.len(),
{
    if s.len() > 0 {
        lemma_sigs_view(s.drop_last());
    }
}

impl View for Signature {
    type V = SigV;

    open spec fn view(&self) -> SigV {
        sig_view(*self)
    }
}

impl View for EnumVariant {
    type V = VariantV;

    open spec fn view(&self) -> VariantV {
        variant_view(*self)
    }
}

impl View for FileResult {
    type V = FileResultV;

    open spec fn view(&self) -> FileResultV {
        FileResultV { path: self.path@, signatures: sigs_view(self.signatures@) }
    }
}

pub open spec fn files_view(f: Seq<FileResult>) -> Seq<FileResultV> {
    f.map_values(|x: FileResult| x@)
}

impl View for AnalyzeResult {
    type V = AnalyzeV;

    open spec fn view(&self) -> AnalyzeV {
        match self {
            AnalyzeResult::Success { files } => AnalyzeV::Success { files: files_view(files@) },
            AnalyzeResult::Error { message } => AnalyzeV::Error { message: message@ },
        }
    }
}

impl View for MatchResult {
    type V = MatchV;

    open spec fn view(&self) -> MatchV {
        MatchV { file: self.file@, line: self.line@ }
    }
}

pub open spec fn matches_view(m: Seq<MatchResult>) -> Seq<MatchV> {
    m.map_values(|x: MatchResult| x@)
}

impl View for SearchResult {
    type V = SearchV;

    open spec fn view(&self) -> SearchV {
        match self {
            SearchResult::Success { matches, total_matched } => SearchV::Success {
                matches: matches_view(matches@),
                total_matched: *total_matched as nat,
            },
            SearchResult::Error { message } => SearchV::Error { message: message@ },
        }
    }
}

/// Each doc line as `prefix`, the line, and a line break.
pub open spec fn doc_lines(prefix: Seq<char>, docs: Seq<Seq<char>>) -> Seq<char>
    decreases docs.len(),
{
    if docs.len() == 0 {
        Seq::empty()
    } else {
        doc_lines(prefix, docs.drop_last()) + prefix + docs.last() + seq!['\n']
    }
}

/// The text of one enum variant: its doc lines, then one line for the variant.
pub open spec fn rendered_variant(v: VariantV) -> Seq<char> {
    match v {
        VariantV::Named { name, docs, fields } => doc_lines("  /// "@, docs) + "  "@ + name + " { "@
            + joined(fields, ", "@) + " }\n"@,
        VariantV::Tuple { name, docs, types } => doc_lines("  /// "@, docs) + "  "@ + name + "("@
            + joined(types, ", "@) + ")\n"@,
        VariantV::Unit { name, docs } => doc_lines("  /// "@, docs) + "  "@ + name + "\n"@,
    }
}

pub open spec fn rendered_variants(vs: Seq<VariantV>) -> Seq<char>
    decreases vs.len(),
{
    if vs.len() == 0 {
        Seq::empty()
    } else {
        rendered_variants(vs.drop_last()) + rendered_variant(vs.last())
    }
}

/// The text of a signature: doc comments as `///` lines, then its header;
/// an impl lists its associated items below it, each indented by two spaces.
pub open spec fn rendered(s: SigV) -> Seq<char>
    decreases s,
{
    match s {
        SigV::Fn { docs, signature } => doc_lines("/// "@, docs) + signature,
        SigV::Struct { docs, name, generics } => doc_lines("/// "@, docs) + "struct "@ + name
            + generics,
        SigV::Enum { docs, name, generics, variants } => doc_lines("/// "@, docs) + "enum  "@ + name
            + generics + " {\n"@ + rendered_variants(variants) + "}"@,
        SigV::Trait { docs, name, generics } => doc_lines("/// "@, docs) + "trait  "@ + name
            + generics,
        SigV::Impl { trait_name, for_type, associated } => (match trait_name {
            Some(tn) => "impl   "@ + tn + " for "@ + for_type,
            None => "impl   "@ + for_type,
        }) + rendered_associated(associated),
    }
}

/// Each associated item on a line of its own, indented by two spaces.
pub open spec fn rendered_associated(a: Seq<SigV>) -> Seq<char>
    decreases a,
{
    if a.len() == 0 {
        Seq::empty()
    } else {
        rendered_associated(a.drop_last()) + "\n  "@ + indented(rendered(a.last()))
    }
}

/// Doc lines render one after the other: those of two runs of lines are the
/// lines of the first run followed by those of the second, and a single line
/// is the prefix, the line and a line break.
pub proof fn lemma_doc_lines_concat(prefix: Seq<char>, a: Seq<Seq<char>>, b: Seq<Seq<char>>)
    ensures
        doc_lines(prefix, a + b) == doc_lines(prefix, a) + doc_lines(prefix, b),
    decreases b.len(),
{
    if b.len() == 0 {
        assert(a + b =~= a);
        assert(doc_lines(prefix, b) == Seq::<char>::empty());
        assert(doc_lines(prefix, a) + Seq::<char>::empty() =~= doc_lines(prefix, a));
    } else {
        lemma_doc_lines_concat(prefix, a, b.drop_last());
        assert((a + b).drop_last() =~= a + b.drop_last());
        assert((a + b).last() == b.last());
        assert(doc_lines(prefix, a + b) == doc_lines(prefix, a + b.drop_last()) + prefix + b.last() + seq!['\n']);
        assert(doc_lines(prefix, a) + doc_lines(prefix, b) =~= doc_lines(prefix, a) + doc_lines(
            prefix,
            b.drop_last(),
        ) + prefix + b.last() + seq!['\n']);
    }
}

/// One doc line renders as the prefix, the line and a line break.
pub proof fn lemma_doc_line_single(prefix: Seq<char>, line: Seq<char>)
    ensures
        doc_lines(prefix, seq![line]) == prefix + line + seq!['\n'],
{
    assert(seq![line].drop_last() =~= Seq::<Seq<char>>::empty());
    assert(doc_lines(prefix, Seq::<Seq<char>>::empty()) == Seq::<char>::empty());
    assert(Seq::<char>::empty() + prefix + line + seq!['\n'] =~= prefix + line + seq!['\n']);
}

/// The name of a variant.
pub open spec fn variant_name(v: VariantV) -> Seq<char> {
    match v {
        VariantV::Named { name, .. } => name,
        VariantV::Tuple { name, .. } => name,
        VariantV::Unit { name, .. } => name,
    }
}

/// The doc lines of a variant.
pub open spec fn variant_docs(v: VariantV) -> Seq<Seq<char>> {
    match v {
        VariantV::Named { docs, .. } => docs,
        VariantV::Tuple { docs, .. } => docs,
        VariantV::Unit { docs, .. } => docs,
    }
}

/// Every variant, of whatever kind, renders as its doc lines, each indented
/// and behind `/// `, then a line that starts with two spaces and its name and
/// ends the rendering with a line break.
pub proof fn lemma_variant_rendering(v: VariantV)
    ensures
        doc_lines("  /// "@, variant_docs(v)).is_prefix_of(rendered_variant(v)),
        ("  "@ + variant_name(v)).is_prefix_of(rendered_variant(v).skip(doc_lines("  /// "@, variant_docs(v)).len() as int)),
        rendered_variant(v).len() > 0 && rendered_variant(v).last() == '\n',
{
    reveal_strlit("  ");
    reveal_strlit(" }\n");
    reveal_strlit(")\n");
    reveal_strlit("\n");
    let d = doc_lines("  /// "@, variant_docs(v));
    let head = "  "@ + variant_name(v);
    match v {
        VariantV::Named { name, docs, fields } => {
            let tail = " { "@ + joined(fields, ", "@) + " }\n"@;
            assert(rendered_variant(v) =~= d + (head + tail));
            assert(rendered_variant(v).skip(d.len() as int) =~= head + tail);
            assert((" }\n"@).last() == '\n');
            assert(rendered_variant(v).last() == (" }\n"@).last());
        },
        VariantV::Tuple { name, docs, types } => {
            let tail = "("@ + joined(types, ", "@) + ")\n"@;
            assert(rendered_variant(v) =~= d + (head + tail));
            assert(rendered_variant(v).skip(d.len() as int) =~= head + tail);
            assert(rendered_variant(v).last() == (")\n"@).last());
        },
        VariantV::Unit { name, docs } => {
            let tail = "\n"@;
            assert(rendered_variant(v) =~= d + (head + tail));
            assert(rendered_variant(v).skip(d.len() as int) =~= head + tail);
            assert(rendered_variant(v).last() == ("\n"@).last());
        },
    }
}

/// The variants of an enum render one after the other, each as on its own.
pub proof fn lemma_variants_concat(a: Seq<VariantV>, b: Seq<VariantV>)
    ensures
        rendered_variants(a + b) == rendered_variants(a) + rendered_variants(b),
        rendered_variants(seq![b.first()]) == rendered_variant(b.first()) || b.len() == 0,
    decreases b.len(),
{
    if b.len() == 0 {
        assert(a + b =~= a);
        assert(rendered_variants(a) + Seq::<char>::empty() =~= rendered_variants(a));
    } else {
        lemma_variants_concat(a, b.drop_last());
        assert((a + b).drop_last() =~= a + b.drop_last());
        assert((a + b).last() == b.last());
        assert(rendered_variants(a) + rendered_variants(b) =~= rendered_variants(a) + rendered_variants(
            b.drop_last(),
        ) + rendered_variant(b.last()));
        assert(seq![b.first()].drop_last() =~= Seq::<VariantV>::empty());
        assert(rendered_variants(Seq::<VariantV>::empty()) == Seq::<char>::empty());
        assert(Seq::<char>::empty() + rendered_variant(b.first()) =~= rendered_variant(b.first()));
    }
}

/// How each kind of signature renders: its doc lines behind `/// `, then a
/// header of the kind's keyword (`fn` in the function's text, `struct `,
/// `enum  `, `trait  `, `impl   `), its name and generics; an enum then lists
/// its variants between ` {` on the header line and `}`; an impl names the
/// trait before ` for ` and the type, then its associated items, each on a new
/// line indented by two spaces.
pub proof fn lemma_header_renderings(docs: Seq<Seq<char>>, name: Seq<char>, text: Seq<char>, vs: Seq<VariantV>, tn: Option<Seq<char>>, assoc: Seq<SigV>, x: SigV)
    ensures
        rendered(SigV::Fn { docs, signature: text }) == doc_lines("/// "@, docs) + text,
        rendered(SigV::Struct { docs, name, generics: text }) == doc_lines("/// "@, docs) + "struct "@ + name + text,
        rendered(SigV::Trait { docs, name, generics: text }) == doc_lines("/// "@, docs) + "trait  "@ + name + text,
        rendered(SigV::Enum { docs, name, generics: text, variants: vs }) == doc_lines("/// "@, docs) + "enum  "@
            + name + text + " {\n"@ + rendered_variants(vs) + "}"@,
        rendered(SigV::Impl { trait_name: tn, for_type: name, associated: Seq::empty() }) == match tn {
            Some(t) => "impl   "@ + t + " for "@ + name,
            None => "impl   "@ + name,
        },
        rendered_associated(assoc.push(x)) == rendered_associated(assoc) + "\n  "@ + indented(rendered(x)),
        rendered(SigV::Impl { trait_name: tn, for_type: name, associated: assoc.push(x) }) == rendered(
            SigV::Impl { trait_name: tn, for_type: name, associated: assoc },
        ) + "\n  "@ + indented(rendered(x)),
{
    assert(assoc.push(x).drop_last() =~= assoc);
    assert(rendered_associated(Seq::<SigV>::empty()) == Seq::<char>::empty());
    match tn {
        Some(t) => {
            assert(("impl   "@ + t + " for "@ + name) + Seq::<char>::empty() =~= "impl   "@ + t + " for "@ + name);
        },
        None => {
            assert(("impl   "@ + name) + Seq::<char>::empty() =~= "impl   "@ + name);
        },
    }
    let h = match tn {
        Some(t) => "impl   "@ + t + " for "@ + name,
        None => "impl   "@ + name,
    };
    assert(h + rendered_associated(assoc.push(x)) =~= h + rendered_associated(assoc) + "\n  "@ + indented(rendered(x)));
}

/// The number of lines that the associated items' renderings have together.
pub open spec fn associated_lines(a: Seq<SigV>) -> nat
    decreases a.len(),
{
    if a.len() == 0 {
        0
    } else {
        associated_lines(a.drop_last()) + 1 + line_breaks(rendered(a.last()))
    }
}

proof fn lemma_associated_lines(a: Seq<SigV>)
    ensures
        breaks_indented(rendered_associated(a)),
        line_breaks(rendered_associated(a)) == associated_lines(a),
    decreases a.len(),
{
    if a.len() > 0 {
        lemma_associated_lines(a.drop_last());
        let one = "\n  "@ + indented(rendered(a.last()));
        assert(rendered_associated(a) == rendered_associated(a.drop_last()) + one);
        reveal_strlit("\n  ");
        assert("\n  "@ =~= seq!['\n', ' ', ' ']);
        assert(breaks_indented("\n  "@));
        assert(line_breaks("\n  "@) == 1) by {
            assert(seq!['\n', ' ', ' '].drop_last() =~= seq!['\n', ' ']);
            assert(seq!['\n', ' '].drop_last() =~= seq!['\n']);
            assert(seq!['\n'].drop_last() =~= Seq::<char>::empty());
            reveal_with_fuel(line_breaks, 4);
        }
        lemma_indented_lines(rendered(a.last()));
        lemma_breaks_indented_concat("\n  "@, indented(rendered(a.last())));
        lemma_line_breaks_concat("\n  "@, indented(rendered(a.last())));
        lemma_breaks_indented_concat(rendered_associated(a.drop_last()), one);
        lemma_line_breaks_concat(rendered_associated(a.drop_last()), one);
    }
}

/// An impl renders as its header line and then, for each associated item, that
/// item's rendering with every line indented by two more spaces: where the
/// header holds no line break, every line break of the rendering is followed
/// by two spaces, and the rendering has one line more than the associated
/// items' renderings have together.
pub proof fn lemma_impl_rendering_lines(
    trait_name: Option<Seq<char>>,
    for_type: Seq<char>,
    associated: Seq<SigV>,
)
    requires
        !for_type.contains('\n'),
        trait_name matches Some(t) ==> !t.contains('\n'),
    ensures
        breaks_indented(rendered(SigV::Impl { trait_name, for_type, associated })),
        line_breaks(rendered(SigV::Impl { trait_name, for_type, associated })) == associated_lines(
            associated,
        ),
{
    let head = match trait_name {
        Some(tn) => "impl   "@ + tn + " for "@ + for_type,
        None => "impl   "@ + for_type,
    };
    assert(rendered(SigV::Impl { trait_name, for_type, associated }) == head + rendered_associated(
        associated,
    ));
    reveal_strlit("impl   ");
    reveal_strlit(" for ");
    assert(!head.contains('\n')) by {
        if head.contains('\n') {
            let k = choose|k: int| 0 <= k < head.len() && head[k] == '\n';
            match trait_name {
                Some(tn) => {
                    assert(head =~= "impl   "@ + tn + " for "@ + for_type);
                    if k >= 7 && k < 7 + tn.len() {
                        assert(tn[k - 7] == '\n');
                    } else if k >= 12 + tn.len() {
                        assert(for_type[k - 12 - tn.len()] == '\n');
                    }
                },
                None => {
                    if k >= 7 {
                        assert(for_type[k - 7] == '\n');
                    }
                },
            }
        }
    }
    lemma_no_line_breaks(head);
    lemma_associated_lines(associated);
    lemma_breaks_indented_concat(head, rendered_associated(associated));
    lemma_line_breaks_concat(head, rendered_associated(associated));
}

/// A rendering starts with the signature's doc comments, one `/// ` line each;
/// a function's rendering is those lines followed by its signature text, and an
/// impl's rendering starts with `impl`.
pub proof fn lemma_rendering_starts_with_doc_lines(s: SigV)
    ensures
        match s {
            SigV::Fn { docs, signature } => rendered(s) == doc_lines("/// "@, docs) + signature,
            SigV::Struct { docs, .. } => doc_lines("/// "@, docs).is_prefix_of(rendered(s)),
            SigV::Enum { docs, .. } => doc_lines("/// "@, docs).is_prefix_of(rendered(s)),
            SigV::Trait { docs, .. } => doc_lines("/// "@, docs).is_prefix_of(rendered(s)),
            SigV::Impl { .. } => "impl   "@.is_prefix_of(rendered(s)),
        },
{
    match s {
        SigV::Fn { .. } => {},
        SigV::Struct { docs, name, generics } => {
            assert(rendered(s) =~= doc_lines("/// "@, docs) + ("struct "@ + name + generics));
        },
        SigV::Enum { docs, name, generics, variants } => {
            assert(rendered(s) =~= doc_lines("/// "@, docs) + ("enum  "@ + name + generics + " {\n"@
                + rendered_variants(variants) + "}"@));
        },
        SigV::Trait { docs, name, generics } => {
            assert(rendered(s) =~= doc_lines("/// "@, docs) + ("trait  "@ + name + generics));
        },
        SigV::Impl { trait_name, for_type, associated } => {
            match trait_name {
                Some(tn) => assert(rendered(s) =~= "impl   "@ + (tn + " for "@ + for_type + rendered_associated(associated))),
                None => assert(rendered(s) =~= "impl   "@ + (for_type + rendered_associated(associated))),
            }
        },
    }
}

fn append_doc_lines(out: &mut String, prefix: &str, docs: &Vec<String>)
    ensures
        final(out)@ == old(out)@ + doc_lines(prefix@, strings_view(docs@)),
{
    let ghost start = out@;
    let ghost dv = strings_view(docs@);
    let mut i: usize = 0;
    while i < docs.len()
        invariant
            i <= docs@.len(),
            dv == strings_view(docs@),
            out@ == start + doc_lines(prefix@, dv.take(i as int)),
        decreases docs@.len() - i,
    {
        out.append(prefix);
        out.append(docs[i].as_str());
        out.append("\n");
        proof {
            reveal_strlit("\n");
            assert(dv.take(i + 1).drop_last() =~= dv.take(i as int));
            assert(out@ =~= start + doc_lines(prefix@, dv.take(i + 1)));
        }
        i = i + 1;
    }
    assert(dv.take(docs@.len() as int) =~= dv);
}

fn append_variant(out: &mut String, v: &EnumVariant)
    ensures
        final(out)@ == old(out)@ + rendered_variant(v@),
{
    let ghost start = out@;
    match v {
        EnumVariant::Named { name, docs, fields } => {
            append_doc_lines(out, "  /// ", docs);
            out.append("  ");
            out.append(name.as_str());
            out.append(" { ");
            let j = join_strings(fields, ", ");
            out.append(j.as_str());
            out.append(" }\n");
            assert(out@ =~= start + rendered_variant(v@));
        },
        EnumVariant::Tuple { name, docs, types } => {
            append_doc_lines(out, "  /// ", docs);
            out.append("  ");
            out.append(name.as_str());
            out.append("(");
            let j = join_strings(types, ", ");
            out.append(j.as_str());
            out.append(")\n");
            assert(out@ =~= start + rendered_variant(v@));
        },
        EnumVariant::Unit { name, docs } => {
            append_doc_lines(out, "  /// ", docs);
            out.append("  ");
            out.append(name.as_str());
            out.append("\n");
            assert(out@ =~= start + rendered_variant(v@));
        },
    }
}

fn clone_strings(v: &Vec<String>) -> (r: Vec<String>)
    ensures
        strings_view(r@) == strings_view(v@),
{
    let mut r: Vec<String> = Vec::new();
    let mut i: usize = 0;
    while i < v.len()
        invariant
            i <= v@.len(),
            r@.len() == i,
            forall|k: int| 0 <= k < i ==> #[trigger] r@[k]@ == v@[k]@,
        decreases v@.len() - i,
    {
        r.push(v[i].clone());
        i = i + 1;
    }
    assert(strings_view(r@) =~= strings_view(v@));
    r
}

fn clone_variant(v: &EnumVariant) -> (r: EnumVariant)
    ensures
        r@ == v@,
{
    match v {
        EnumVariant::Named { name, docs, fields } => EnumVariant::Named {
            name: name.clone(),
            docs: clone_strings(docs),
            fields: clone_strings(fields),
        },
        EnumVariant::Tuple { name, docs, types } => EnumVariant::Tuple {
            name: name.clone(),
            docs: clone_strings(docs),
            types: clone_strings(types),
        },
        EnumVariant::Unit { name, docs } => EnumVariant::Unit { name: name.clone(), docs: clone_strings(docs) },
    }
}

/// A copy of a signature, equal to it in every field.
pub fn clone_signature(sig: &Signature) -> (r: Signature)
    ensures
        r@ == sig@,
    decreases sig,
{
    match sig {
        Signature::Fn { docs, signature } => Signature::Fn { docs: clone_strings(docs), signature: signature.clone() },
        Signature::Struct { docs, name, generics } => Signature::Struct {
            docs: clone_strings(docs),
            name: name.clone(),
            generics: generics.clone(),
        },
        Signature::Enum { docs, name, generics, variants } => {
            let mut vs: Vec<EnumVariant> = Vec::new();
            let mut i: usize = 0;
            while i < variants.len()
                invariant
                    i <= variants@.len(),
                    vs@.len() == i,
                    forall|k: int| 0 <= k < i ==> #[trigger] vs@[k]@ == variants@[k]@,
                decreases variants@.len() - i,
            {
                vs.push(clone_variant(&variants[i]));
                i = i + 1;
            }
            assert forall|k: int| 0 <= k < vs@.len() implies variants_view(vs@)[k] == variants_view(variants@)[k] by {
                assert(vs@[k]@ == variants@[k]@);
            }
            assert(variants_view(vs@) =~= variants_view(variants@));
            Signature::Enum { docs: clone_strings(docs), name: name.clone(), generics: generics.clone(), variants: vs }
        },
        Signature::Trait { docs, name, generics } => Signature::Trait {
            docs: clone_strings(docs),
            name: name.clone(),
            generics: generics.clone(),
        },
        Signature::Impl { trait_name, for_type, associated } => {
            let mut a: Vec<Signature> = Vec::new();
            let mut i: usize = 0;
            proof {
                lemma_sigs_view(associated@);
                assert(decreases_to!(*sig => *associated));
            }
            while i < associated.len()
                invariant
                    i <= associated@.len(),
                    a@.len() == i,
                    decreases_to!(*sig => *associated),
                    forall|k: int| 0 <= k < i ==> #[trigger] a@[k]@ == associated@[k]@,
                decreases associated@.len() - i,
            {
                proof {
                    assert(decreases_to!(*associated => associated@));
                    assert(decreases_to!(associated@ => associated@[i as int]));
                }
                a.push(clone_signature(&associated[i]));
                i = i + 1;
            }
            proof {
                lemma_sigs_view(a@);
                lemma_sigs_view(associated@);
                assert forall|k: int| 0 <= k < a@.len() implies sigs_view(a@)[k] == sigs_view(associated@)[k] by {
                    assert(a@[k]@ == associated@[k]@);
                }
                assert(sigs_view(a@) =~= sigs_view(associated@));
            }
            let trait_name = match trait_name {
                Some(t) => Some(t.clone()),
                None => None,
            };
            Signature::Impl { trait_name, for_type: for_type.clone(), associated: a }
        },
    }
}

impl Clone for Signature {
    fn clone(&self) -> (r: Self)
        ensures
            r@ == self@,
    {
        clone_signature(self)
    }
}

/// Renders a signature as text: its doc comments as `///` lines, then its header;
/// an enum lists its variants, an impl its associated items indented by two spaces.
pub fn render_signature(sig: &Signature) -> (out: String)
    ensures
        out@ == rendered(sig@),
    decreases sig,
{
    let mut out = String::new();
    match sig {
        Signature::Fn { docs, signature } => {
            append_doc_lines(&mut out, "/// ", docs);
            out.append(signature.as_str());
            assert(out@ =~= rendered(sig@));
        },
        Signature::Struct { docs, name, generics } => {
            append_doc_lines(&mut out, "/// ", docs);
            out.append("struct ");
            out.append(name.as_str());
            out.append(generics.as_str());
            assert(out@ =~= rendered(sig@));
        },
        Signature::Enum { docs, name, generics, variants } => {
            append_doc_lines(&mut out, "/// ", docs);
            out.append("enum  ");
            out.append(name.as_str());
            out.append(generics.as_str());
            out.append(" {\n");
            let ghost head = out@;
            let ghost vv = variants_view(variants@);
            let mut i: usize = 0;
            while i < variants.len()
                invariant
                    i <= variants@.len(),
                    vv == variants_view(variants@),
                    out@ == head + rendered_variants(vv.take(i as int)),
                decreases variants@.len() - i,
            {
                append_variant(&mut out, &variants[i]);
                assert(vv.take(i + 1).drop_last() =~= vv.take(i as int));
                assert(out@ =~= head + rendered_variants(vv.take(i + 1)));
                i = i + 1;
            }
            assert(vv.take(variants@.len() as int) =~= vv);
            out.append("}");
            assert(out@ =~= rendered(sig@));
        },
        Signature::Trait { docs, name, generics } => {
            append_doc_lines(&mut out, "/// ", docs);
            out.append("trait  ");
            out.append(name.as_str());
            out.append(generics.as_str());
            assert(out@ =~= rendered(sig@));
        },
        Signature::Impl { trait_name, for_type, associated } => {
            out.append("impl   ");
            match trait_name {
                Some(tn) => {
                    out.append(tn.as_str());
                    out.append(" for ");
                    out.append(for_type.as_str());
                },
                None => {
                    out.append(for_type.as_str());
                },
            }
            let ghost head = out@;
            let ghost av = sigs_view(associated@);
            proof {
                lemma_sigs_view(associated@);
                assert(decreases_to!(*sig => *associated));
            }
            let mut i: usize = 0;
            while i < associated.len()
                invariant
                    i <= associated@.len(),
                    av == sigs_view(associated@),
                    av.len() == associated@.len(),
                    decreases_to!(*sig => *associated),
                    forall|k: int| 0 <= k < associated@.len() ==> av[k] == #[trigger] associated@[k]@,
                    out@ == head + rendered_associated(av.take(i as int)),
                decreases associated@.len() - i,
            {
                proof {
                    assert(decreases_to!(*associated => associated@));
                    assert(decreases_to!(associated@ => associated@[i as int]));
                }
                let r = render_signature(&associated[i]);
                let ind = indent_string(r.as_str());
                out.append("\n  ");
                out.append(ind.as_str());
                assert(av.take(i + 1).drop_last() =~= av.take(i as int));
                assert(out@ =~= head + rendered_associated(av.take(i + 1)));
                i = i + 1;
            }
            assert(av.take(associated@.len() as int) =~= av);
            assert(out@ =~= rendered(sig@));
        },
    }
    out
}

} // verus!
