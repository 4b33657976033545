//! Searching rendered signatures with a regular expression.
use vstd::prelude::*;
use crate::types::{
    lemma_sigs_view, matches_view, rendered, render_signature, sigs_view, AnalyzeResult, AnalyzeV,
    FileResult, FileResultV, MatchResult, MatchV, SearchResult, SearchV, SigV,
};

verus! {

#[verifier::external_type_specification]
#[verifier::external_body]
pub struct ExRegex(regex::Regex);

/// Whether `regex::Regex::new` accepts the pattern.
pub uninterp spec fn regex_compiles(pattern: Seq<char>) -> bool;

/// The text of the error (`Display`) that `regex::Regex::new` gives for the pattern.
pub uninterp spec fn regex_error_text(pattern: Seq<char>) -> Seq<char>;

/// Whether the regex compiled from the pattern matches somewhere in the text
/// (`regex::Regex::is_match`).
pub uninterp spec fn regex_is_match(pattern: Seq<char>, text: Seq<char>) -> bool;

/// A compiled regular expression together with the pattern it was compiled from.
/// Only [`compile_query`] makes one, so `re` is always the compilation of `pattern`.
pub struct CompiledQuery {
    pattern: String,
    re: regex::Regex,
}

impl CompiledQuery {
    /// The pattern this query was compiled from.
    pub closed spec fn pattern(&self) -> Seq<char> {
        self.pattern@
    }
}

/// `regex::Regex::new`: compiles the pattern, or gives the error's text.
/// Claims that success, the error text and the compiled matcher are decided by
/// the pattern alone.
#[verifier::external_body]
pub(crate) fn compile_query(pattern: &str) -> (r: Result<CompiledQuery, String>)
    ensures
        r is Ok <==> regex_compiles(pattern@),
        r matches Ok(q) ==> q.pattern() == pattern@,
        r matches Err(e) ==> e@ == regex_error_text(pattern@),
{
    match regex::Regex::new(pattern) {
        Ok(re) => Ok(CompiledQuery { pattern: pattern.to_string(), re }),
        Err(e) => Err(e.to_string()),
    }
}

/// `regex::Regex::is_match`: whether the query matches somewhere in the text.
#[verifier::external_body]
pub(crate) fn query_matches(q: &CompiledQuery, text: &str) -> (b: bool)
    ensures
        b == regex_is_match(q.pattern(), text@),
{
    q.re.is_match(text)
}

/// The matches among one file's signatures: each signature whose rendered text
/// the pattern matches, with the file's path, in order.
pub open spec fn signature_matches(path: Seq<char>, sigs: Seq<SigV>, pattern: Seq<char>) -> Seq<MatchV>
    decreases sigs.len(),
{
    if sigs.len() == 0 {
        Seq::empty()
    } else {
        let rest = signature_matches(path, sigs.drop_last(), pattern);
        let line = rendered(sigs.last());
        if regex_is_match(pattern, line) {
            rest.push(MatchV { file: path, line })
        } else {
            rest
        }
    }
}

/// The matches in all files, file by file.
pub open spec fn all_matches(files: Seq<FileResultV>, pattern: Seq<char>) -> Seq<MatchV>
    decreases files.len(),
{
    if files.len() == 0 {
        Seq::empty()
    } else {
        all_matches(files.drop_last(), pattern) + signature_matches(
            files.last().path,
            files.last().signatures,
            pattern,
        )
    }
}

/// The message for a pattern that does not compile.
pub open spec fn invalid_regex_message(query: Seq<char>) -> Seq<char> {
    "Invalid regex \""@ + query + "\": "@ + regex_error_text(query)
}

/// The message for a search that matched nothing.
pub open spec fn no_match_message(query: Seq<char>) -> Seq<char> {
    "No signatures matching regex \""@ + query + "\" found."@
}

/// What searching the files for the query gives: an error message where the
/// query is no regular expression; otherwise the matches with their count, or a
/// no-match result where there are none.
pub open spec fn search_outcome(files: Seq<FileResultV>, query: Seq<char>) -> Result<SearchV, Seq<char>> {
    if !regex_compiles(query) {
        Err(invalid_regex_message(query))
    } else {
        let m = all_matches(files, query);
        if m.len() == 0 {
            Ok(SearchV::Error { message: no_match_message(query) })
        } else {
            Ok(SearchV::Success { matches: m, total_matched: m.len() })
        }
    }
}

proof fn lemma_signature_matches_satisfy(path: Seq<char>, sigs: Seq<SigV>, query: Seq<char>)
    ensures
        forall|k: int| 0 <= k < signature_matches(path, sigs, query).len() ==> {
            let m = #[trigger] signature_matches(path, sigs, query)[k];
            &&& m.file == path
            &&& regex_is_match(query, m.line)
            &&& exists|i: int| 0 <= i < sigs.len() && m.line == rendered(#[trigger] sigs[i])
        },
    decreases sigs.len(),
{
    if sigs.len() > 0 {
        lemma_signature_matches_satisfy(path, sigs.drop_last(), query);
        let rest = signature_matches(path, sigs.drop_last(), query);
        assert forall|k: int| 0 <= k < signature_matches(path, sigs, query).len() implies {
            let m = #[trigger] signature_matches(path, sigs, query)[k];
            &&& m.file == path
            &&& regex_is_match(query, m.line)
            &&& exists|i: int| 0 <= i < sigs.len() && m.line == rendered(#[trigger] sigs[i])
        } by {
            if k < rest.len() {
                let i = choose|i: int| 0 <= i < sigs.drop_last().len() && rest[k].line == rendered(#[trigger] sigs.drop_last()[i]);
                assert(sigs[i] == sigs.drop_last()[i]);
            } else {
                assert(sigs[sigs.len() - 1] == sigs.last());
            }
        }
    }
}

/// Every match that a search reports is the rendering of a signature of the
/// reported file, and the query matches it.
pub proof fn lemma_reported_matches_satisfy_query(files: Seq<FileResultV>, query: Seq<char>)
    ensures
        forall|k: int| 0 <= k < all_matches(files, query).len() ==> {
            let m = #[trigger] all_matches(files, query)[k];
            &&& regex_is_match(query, m.line)
            &&& exists|f: int, i: int| 0 <= f < files.len() && 0 <= i < files[f].signatures.len()
                && m.file == files[f].path && m.line == rendered(#[trigger] files[f].signatures[i])
        },
    decreases files.len(),
{
    if files.len() > 0 {
        lemma_reported_matches_satisfy_query(files.drop_last(), query);
        let last = files.last();
        lemma_signature_matches_satisfy(last.path, last.signatures, query);
        let rest = all_matches(files.drop_last(), query);
        assert forall|k: int| 0 <= k < all_matches(files, query).len() implies {
            let m = #[trigger] all_matches(files, query)[k];
            &&& regex_is_match(query, m.line)
            &&& exists|f: int, i: int| 0 <= f < files.len() && 0 <= i < files[f].signatures.len()
                && m.file == files[f].path && m.line == rendered(#[trigger] files[f].signatures[i])
        } by {
            if k < rest.len() {
                let m = rest[k];
                let (f, i) = choose|f: int, i: int| 0 <= f < files.drop_last().len() && 0 <= i < files.drop_last()[f].signatures.len()
                    && m.file == files.drop_last()[f].path && m.line == rendered(#[trigger] files.drop_last()[f].signatures[i]);
                assert(files[f] == files.drop_last()[f]);
            } else {
                let m = signature_matches(last.path, last.signatures, query)[k - rest.len()];
                let i = choose|i: int| 0 <= i < last.signatures.len() && m.line == rendered(#[trigger] last.signatures[i]);
                assert(files[files.len() - 1] == last);
            }
        }
    }
}

/// A successful search reports at least one match, and its count is the number
/// of matches it reports.
pub proof fn lemma_success_counts_matches(files: Seq<FileResultV>, query: Seq<char>)
    ensures
        search_outcome(files, query) matches Ok(SearchV::Success { matches, total_matched }) ==> (
            matches.len() > 0 && total_matched == matches.len()),
        search_outcome(files, query) is Err <==> !regex_compiles(query),
{
}

pub open spec fn search_result_view(r: Result<SearchResult, String>) -> Result<SearchV, Seq<char>> {
    match r {
        Ok(s) => Ok(s@),
        Err(e) => Err(e@),
    }
}

pub open spec fn file_results_view(f: Seq<FileResult>) -> Seq<FileResultV> {
    f.map_values(|x: FileResult| x@)
}

fn push_match(matches: &mut Vec<MatchResult>, m: MatchResult)
    ensures
        matches_view(final(matches)@) == matches_view(old(matches)@).push(m@),
{
    matches.push(m);
    assert(matches_view(matches@) =~= matches_view(old(matches)@).push(m@));
}

/// The matches among one file's signatures, where `flags` says which
/// signatures matched: each flagged signature's rendered text with the path.
pub open spec fn flagged_signature_matches(path: Seq<char>, sigs: Seq<SigV>, flags: Seq<bool>) -> Seq<MatchV>
    decreases sigs.len(),
{
    if sigs.len() == 0 {
        Seq::empty()
    } else {
        let rest = flagged_signature_matches(path, sigs.drop_last(), flags);
        if flags[sigs.len() - 1] {
            rest.push(MatchV { file: path, line: rendered(sigs.last()) })
        } else {
            rest
        }
    }
}

/// The flagged matches in all files, file by file.
pub open spec fn flagged_matches(files: Seq<FileResultV>, flags: Seq<Seq<bool>>) -> Seq<MatchV>
    decreases files.len(),
{
    if files.len() == 0 {
        Seq::empty()
    } else {
        flagged_matches(files.drop_last(), flags) + flagged_signature_matches(
            files.last().path,
            files.last().signatures,
            flags[files.len() - 1],
        )
    }
}

/// The search result for the flagged matches: a no-match result where there
/// are none, otherwise the matches with their count.
pub open spec fn flagged_outcome(files: Seq<FileResultV>, query: Seq<char>, flags: Seq<Seq<bool>>) -> SearchV {
    let m = flagged_matches(files, flags);
    if m.len() == 0 {
        SearchV::Error { message: no_match_message(query) }
    } else {
        SearchV::Success { matches: m, total_matched: m.len() }
    }
}

/// Whether `flags` has one flag per signature of each file, and each says
/// whether the query matches that signature's rendered text.
pub open spec fn flags_answer_query(files: Seq<FileResultV>, query: Seq<char>, flags: Seq<Seq<bool>>) -> bool {
    &&& flags.len() == files.len()
    &&& forall|i: int| 0 <= i < files.len() ==> (#[trigger] flags[i]).len() == files[i].signatures.len()
    &&& forall|i: int, j: int| 0 <= i < files.len() && 0 <= j < files[i].signatures.len()
        ==> flags[i][j] == regex_is_match(query, rendered(#[trigger] files[i].signatures[j]))
}

proof fn lemma_flagged_signature_matches(path: Seq<char>, sigs: Seq<SigV>, flags: Seq<bool>, query: Seq<char>)
    requires
        flags.len() == sigs.len(),
        forall|j: int| 0 <= j < sigs.len() ==> flags[j] == regex_is_match(query, rendered(#[trigger] sigs[j])),
    ensures
        flagged_signature_matches(path, sigs, flags) == signature_matches(path, sigs, query),
    decreases sigs.len(),
{
    if sigs.len() > 0 {
        let d = sigs.drop_last();
        assert forall|j: int| 0 <= j < d.len() implies flags.take(d.len() as int)[j] == regex_is_match(query, rendered(#[trigger] d[j])) by {
            assert(d[j] == sigs[j]);
        }
        lemma_flagged_signature_matches(path, d, flags.take(d.len() as int), query);
        lemma_flagged_prefix(path, d, flags);
        assert(flags[sigs.len() - 1] == regex_is_match(query, rendered(sigs[sigs.len() - 1])));
    }
}

proof fn lemma_flagged_prefix(path: Seq<char>, sigs: Seq<SigV>, flags: Seq<bool>)
    requires
        sigs.len() <= flags.len(),
    ensures
        flagged_signature_matches(path, sigs, flags) == flagged_signature_matches(path, sigs, flags.take(sigs.len() as int)),
    decreases sigs.len(),
{
    if sigs.len() > 0 {
        lemma_flagged_prefix(path, sigs.drop_last(), flags);
        lemma_flagged_prefix(path, sigs.drop_last(), flags.take(sigs.len() as int));
        assert(flags.take(sigs.len() as int).take(sigs.len() - 1) =~= flags.take(sigs.len() - 1));
    }
}

/// Where the flags answer the query, the flagged matches are the query's matches.
pub proof fn lemma_flags_give_matches(files: Seq<FileResultV>, query: Seq<char>, flags: Seq<Seq<bool>>)
    requires
        flags_answer_query(files, query, flags),
    ensures
        flagged_matches(files, flags) == all_matches(files, query),
        regex_compiles(query) ==> search_outcome(files, query) == Ok::<SearchV, Seq<char>>(flagged_outcome(files, query, flags)),
    decreases files.len(),
{
    if files.len() > 0 {
        let d = files.drop_last();
        let n = files.len() - 1;
        assert(flags_answer_query(d, query, flags.take(n))) by {
            assert forall|i: int| 0 <= i < d.len() implies (#[trigger] flags.take(n)[i]).len() == d[i].signatures.len() by {
                assert(d[i] == files[i]);
            }
            assert forall|i: int, j: int| 0 <= i < d.len() && 0 <= j < d[i].signatures.len()
                implies flags.take(n)[i][j] == regex_is_match(query, rendered(#[trigger] d[i].signatures[j])) by {
                assert(d[i] == files[i]);
            }
        }
        lemma_flags_give_matches(d, query, flags.take(n));
        lemma_flagged_files_prefix(d, flags);
        let last = files.last();
        assert(last == files[n]);
        assert forall|j: int| 0 <= j < last.signatures.len() implies flags[n][j] == regex_is_match(query, rendered(#[trigger] last.signatures[j])) by {}
        lemma_flagged_signature_matches(last.path, last.signatures, flags[n], query);
    }
}

proof fn lemma_flagged_files_prefix(files: Seq<FileResultV>, flags: Seq<Seq<bool>>)
    requires
        files.len() <= flags.len(),
    ensures
        flagged_matches(files, flags) == flagged_matches(files, flags.take(files.len() as int)),
    decreases files.len(),
{
    if files.len() > 0 {
        lemma_flagged_files_prefix(files.drop_last(), flags);
        lemma_flagged_files_prefix(files.drop_last(), flags.take(files.len() as int));
        assert(flags.take(files.len() as int).take(files.len() - 1) =~= flags.take(files.len() - 1));
    }
}

/// How many of the first `n` flags are set.
pub open spec fn flags_set(flags: Seq<bool>, n: int) -> nat
    decreases n,
{
    if n <= 0 {
        0
    } else {
        flags_set(flags, n - 1) + if flags[n - 1] {
            1nat
        } else {
            0nat
        }
    }
}

proof fn lemma_flagged_count(path: Seq<char>, sigs: Seq<SigV>, flags: Seq<bool>)
    requires
        sigs.len() <= flags.len(),
    ensures
        flagged_signature_matches(path, sigs, flags).len() == flags_set(flags, sigs.len() as int),
    decreases sigs.len(),
{
    if sigs.len() > 0 {
        lemma_flagged_count(path, sigs.drop_last(), flags);
    }
}

proof fn lemma_flagged_found(path: Seq<char>, sigs: Seq<SigV>, flags: Seq<bool>)
    requires
        sigs.len() <= flags.len(),
    ensures
        forall|j: int| 0 <= j < sigs.len() && #[trigger] flags[j] ==> exists|k: int|
            0 <= k < flagged_signature_matches(path, sigs, flags).len()
                && flagged_signature_matches(path, sigs, flags)[k] == (MatchV { file: path, line: rendered(sigs[j]) }),
    decreases sigs.len(),
{
    if sigs.len() > 0 {
        let d = sigs.drop_last();
        let n = sigs.len() - 1;
        lemma_flagged_found(path, d, flags);
        let rest = flagged_signature_matches(path, d, flags);
        let all = flagged_signature_matches(path, sigs, flags);
        assert(all == if flags[n] { rest.push(MatchV { file: path, line: rendered(sigs.last()) }) } else { rest });
        assert forall|j: int| 0 <= j < sigs.len() && #[trigger] flags[j] implies exists|k: int|
            0 <= k < all.len() && all[k] == (MatchV { file: path, line: rendered(sigs[j]) }) by {
            if j < n {
                assert(d[j] == sigs[j]);
                let k = choose|k: int| 0 <= k < rest.len() && rest[k] == (MatchV { file: path, line: rendered(d[j]) });
                assert(all[k] == rest[k]);
            } else {
                assert(all[rest.len() as int] == (MatchV { file: path, line: rendered(sigs.last()) }));
            }
        }
    }
}

proof fn lemma_flagged_sound(path: Seq<char>, sigs: Seq<SigV>, flags: Seq<bool>)
    requires
        sigs.len() <= flags.len(),
    ensures
        forall|k: int| 0 <= k < flagged_signature_matches(path, sigs, flags).len() ==> {
            let m = #[trigger] flagged_signature_matches(path, sigs, flags)[k];
            &&& m.file == path
            &&& exists|j: int| 0 <= j < sigs.len() && flags[j] && m.line == rendered(#[trigger] sigs[j])
        },
    decreases sigs.len(),
{
    if sigs.len() > 0 {
        let d = sigs.drop_last();
        let n = sigs.len() - 1;
        lemma_flagged_sound(path, d, flags);
        let rest = flagged_signature_matches(path, d, flags);
        let all = flagged_signature_matches(path, sigs, flags);
        assert(all == if flags[n] { rest.push(MatchV { file: path, line: rendered(sigs.last()) }) } else { rest });
        assert forall|k: int| 0 <= k < all.len() implies {
            let m = #[trigger] all[k];
            &&& m.file == path
            &&& exists|j: int| 0 <= j < sigs.len() && flags[j] && m.line == rendered(#[trigger] sigs[j])
        } by {
            if k < rest.len() {
                assert(all[k] == rest[k]);
                let j = choose|j: int| 0 <= j < d.len() && flags[j] && rest[k].line == rendered(#[trigger] d[j]);
                assert(d[j] == sigs[j]);
            } else {
                assert(sigs[n] == sigs.last());
                assert(flags[n]);
                assert(all[k] == (MatchV { file: path, line: rendered(sigs[n]) }));
            }
        }
    }
}

/// A file's flagged matches are exactly its flagged signatures: every flagged
/// signature is reported with the file's path and its rendering, every report
/// is such a signature, and there are as many reports as flagged signatures.
pub proof fn lemma_flagged_signature_matches_complete(path: Seq<char>, sigs: Seq<SigV>, flags: Seq<bool>)
    requires
        sigs.len() <= flags.len(),
    ensures
        flagged_signature_matches(path, sigs, flags).len() == flags_set(flags, sigs.len() as int),
        forall|j: int| 0 <= j < sigs.len() && #[trigger] flags[j] ==> exists|k: int|
            0 <= k < flagged_signature_matches(path, sigs, flags).len()
                && flagged_signature_matches(path, sigs, flags)[k] == (MatchV { file: path, line: rendered(sigs[j]) }),
        forall|k: int| 0 <= k < flagged_signature_matches(path, sigs, flags).len() ==> {
            let m = #[trigger] flagged_signature_matches(path, sigs, flags)[k];
            &&& m.file == path
            &&& exists|j: int| 0 <= j < sigs.len() && flags[j] && m.line == rendered(#[trigger] sigs[j])
        },
{
    lemma_flagged_count(path, sigs, flags);
    lemma_flagged_found(path, sigs, flags);
    lemma_flagged_sound(path, sigs, flags);
}

/// How many signatures of the files the query matches.
pub open spec fn matching_signatures(files: Seq<FileResultV>, query: Seq<char>) -> nat
    decreases files.len(),
{
    if files.len() == 0 {
        0
    } else {
        matching_signatures(files.drop_last(), query) + matching_in(files.last().signatures, query)
    }
}

/// How many of the signatures the query matches.
pub open spec fn matching_in(sigs: Seq<SigV>, query: Seq<char>) -> nat
    decreases sigs.len(),
{
    if sigs.len() == 0 {
        0
    } else {
        matching_in(sigs.drop_last(), query) + if regex_is_match(query, rendered(sigs.last())) {
            1nat
        } else {
            0nat
        }
    }
}

proof fn lemma_signature_matches_complete(path: Seq<char>, sigs: Seq<SigV>, query: Seq<char>)
    ensures
        signature_matches(path, sigs, query).len() == matching_in(sigs, query),
        forall|j: int| 0 <= j < sigs.len() && regex_is_match(query, rendered(#[trigger] sigs[j])) ==> exists|k: int|
            0 <= k < signature_matches(path, sigs, query).len()
                && signature_matches(path, sigs, query)[k] == (MatchV { file: path, line: rendered(sigs[j]) }),
    decreases sigs.len(),
{
    if sigs.len() > 0 {
        let d = sigs.drop_last();
        let n = sigs.len() - 1;
        lemma_signature_matches_complete(path, d, query);
        let rest = signature_matches(path, d, query);
        let all = signature_matches(path, sigs, query);
        assert forall|j: int| 0 <= j < sigs.len() && regex_is_match(query, rendered(#[trigger] sigs[j])) implies exists|k: int|
            0 <= k < all.len() && all[k] == (MatchV { file: path, line: rendered(sigs[j]) }) by {
            if j < n {
                assert(d[j] == sigs[j]);
                let k = choose|k: int| 0 <= k < rest.len() && rest[k] == (MatchV { file: path, line: rendered(d[j]) });
                assert(all[k] == rest[k]);
            } else {
                assert(sigs[n] == sigs.last());
                assert(all[rest.len() as int] == (MatchV { file: path, line: rendered(sigs.last()) }));
            }
        }
    }
}

/// A search misses nothing: every signature of every file whose rendering the
/// query matches is reported with that file's path, and there are exactly as
/// many reports as matching signatures.
pub proof fn lemma_search_reports_every_match(files: Seq<FileResultV>, query: Seq<char>)
    ensures
        all_matches(files, query).len() == matching_signatures(files, query),
        forall|f: int, i: int|
            0 <= f < files.len() && 0 <= i < files[f].signatures.len() && regex_is_match(
                query,
                rendered(#[trigger] files[f].signatures[i]),
            ) ==> exists|k: int|
                0 <= k < all_matches(files, query).len() && all_matches(files, query)[k] == (MatchV {
                    file: files[f].path,
                    line: rendered(files[f].signatures[i]),
                }),
    decreases files.len(),
{
    if files.len() > 0 {
        let d = files.drop_last();
        let last = files.last();
        lemma_search_reports_every_match(d, query);
        lemma_signature_matches_complete(last.path, last.signatures, query);
        let rest = all_matches(d, query);
        let tail = signature_matches(last.path, last.signatures, query);
        let all = all_matches(files, query);
        assert(all == rest + tail);
        assert forall|f: int, i: int|
            0 <= f < files.len() && 0 <= i < files[f].signatures.len() && regex_is_match(
                query,
                rendered(#[trigger] files[f].signatures[i]),
            ) implies exists|k: int|
                0 <= k < all.len() && all[k] == (MatchV { file: files[f].path, line: rendered(files[f].signatures[i]) }) by {
            if f < d.len() {
                assert(d[f] == files[f]);
                let k = choose|k: int| 0 <= k < rest.len() && rest[k] == (MatchV {
                    file: d[f].path,
                    line: rendered(d[f].signatures[i]),
                });
                assert(all[k] == rest[k]);
            } else {
                assert(files[f] == last);
                assert(regex_is_match(query, rendered(last.signatures[i])));
                let k = choose|k: int| 0 <= k < tail.len() && tail[k] == (MatchV {
                    file: last.path,
                    line: rendered(last.signatures[i]),
                });
                assert(all[rest.len() + k] == tail[k]);
            }
        }
    }
}

/// A search whose query compiles succeeds exactly where some signature matches,
/// and then reports every matching signature and counts them all.
pub proof fn lemma_search_outcome_counts(files: Seq<FileResultV>, query: Seq<char>)
    requires
        regex_compiles(query),
    ensures
        matching_signatures(files, query) == 0 ==> search_outcome(files, query) == Ok::<SearchV, Seq<char>>(
            SearchV::Error { message: no_match_message(query) },
        ),
        matching_signatures(files, query) > 0 ==> search_outcome(files, query) == Ok::<SearchV, Seq<char>>(
            SearchV::Success { matches: all_matches(files, query), total_matched: matching_signatures(files, query) },
        ),
{
    lemma_search_reports_every_match(files, query);
}

pub open spec fn flags_view(f: Seq<Vec<bool>>) -> Seq<Seq<bool>> {
    f.map_values(|x: Vec<bool>| x@)
}

/// The search result from the files and, per signature, whether the query
/// matched its rendered text: the flagged signatures' renderings with their
/// file's path, in order, with their count; a no-match result where none is
/// flagged.
pub fn search_result_from_flags(files: &[FileResult], query: &str, flags: &Vec<Vec<bool>>) -> (r: SearchResult)
    requires
        flags@.len() == files@.len(),
        forall|i: int| 0 <= i < files@.len() ==> (#[trigger] flags@[i])@.len() == files@[i].signatures@.len(),
    ensures
        r@ == flagged_outcome(file_results_view(files@), query@, flags_view(flags@)),
{
    let ghost fv = file_results_view(files@);
    let ghost gv = flags_view(flags@);
    let mut matches: Vec<MatchResult> = Vec::new();
    let mut i: usize = 0;
    while i < files.len()
        invariant
            i <= files@.len(),
            fv == file_results_view(files@),
            gv == flags_view(flags@),
            flags@.len() == files@.len(),
            forall|k: int| 0 <= k < files@.len() ==> (#[trigger] flags@[k])@.len() == files@[k].signatures@.len(),
            matches_view(matches@) == flagged_matches(fv.take(i as int), gv),
        decreases files@.len() - i,
    {
        let file = &files[i];
        let fl = &flags[i];
        let ghost before = matches_view(matches@);
        let ghost sv = sigs_view(file.signatures@);
        proof {
            lemma_sigs_view(file.signatures@);
        }
        let mut j: usize = 0;
        while j < file.signatures.len()
            invariant
                j <= file.signatures@.len(),
                fl@.len() == file.signatures@.len(),
                sv == sigs_view(file.signatures@),
                sv.len() == file.signatures@.len(),
                forall|k: int| 0 <= k < sv.len() ==> sv[k] == #[trigger] file.signatures@[k]@,
                matches_view(matches@) == before + flagged_signature_matches(file.path@, sv.take(j as int), fl@),
            decreases file.signatures@.len() - j,
        {
            if fl[j] {
                let rendered_text = render_signature(&file.signatures[j]);
                push_match(&mut matches, MatchResult { file: file.path.clone(), line: rendered_text });
            }
            assert(sv.take(j + 1).drop_last() =~= sv.take(j as int));
            assert(matches_view(matches@) =~= before + flagged_signature_matches(file.path@, sv.take(j + 1), fl@));
            j = j + 1;
        }
        assert(sv.take(sv.len() as int) =~= sv);
        assert(fv.take(i + 1).drop_last() =~= fv.take(i as int));
        assert(fv[i as int] == file@);
        assert(gv[i as int] == fl@);
        assert(matches_view(matches@) =~= flagged_matches(fv.take(i + 1), gv));
        i = i + 1;
    }
    assert(fv.take(files@.len() as int) =~= fv);
    let total_matched = matches.len();
    if total_matched == 0 {
        let mut message = String::new();
        message.append("No signatures matching regex \"");
        message.append(query);
        message.append("\" found.");
        return SearchResult::Error { message };
    }
    SearchResult::Success { matches, total_matched }
}

/// Searches the rendered signatures of the files (doc comments included) with
/// the regular expression `query`. Fails with a message where the query does
/// not compile; a search that matches nothing gives an error result.
pub fn search_in_files(files: &[FileResult], query: &str) -> (r: Result<SearchResult, String>)
    ensures
        search_result_view(r) == search_outcome(file_results_view(files@), query@),
{
    let re = match compile_query(query) {
        Ok(re) => re,
        Err(e) => {
            let mut msg = String::new();
            msg.append("Invalid regex \"");
            msg.append(query);
            msg.append("\": ");
            msg.append(e.as_str());
            return Err(msg);
        },
    };
    let ghost fv = file_results_view(files@);
    let mut flags: Vec<Vec<bool>> = Vec::new();
    let mut i: usize = 0;
    while i < files.len()
        invariant
            i <= files@.len(),
            fv == file_results_view(files@),
            re.pattern() == query@,
            flags@.len() == i,
            forall|k: int| 0 <= k < i ==> (#[trigger] flags@[k])@.len() == files@[k].signatures@.len(),
            forall|k: int, j: int| 0 <= k < i && 0 <= j < files@[k].signatures@.len()
                ==> flags@[k]@[j] == regex_is_match(query@, rendered(#[trigger] files@[k].signatures@[j]@)),
        decreases files@.len() - i,
    {
        let file = &files[i];
        let mut fl: Vec<bool> = Vec::new();
        let mut j: usize = 0;
        while j < file.signatures.len()
            invariant
                j <= file.signatures@.len(),
                re.pattern() == query@,
                fl@.len() == j,
                forall|k: int| 0 <= k < j ==> fl@[k] == regex_is_match(query@, rendered(#[trigger] file.signatures@[k]@)),
            decreases file.signatures@.len() - j,
        {
            let rendered_text = render_signature(&file.signatures[j]);
            fl.push(query_matches(&re, rendered_text.as_str()));
            j = j + 1;
        }
        flags.push(fl);
        i = i + 1;
    }
    proof {
        let gv = flags_view(flags@);
        assert forall|k: int| 0 <= k < fv.len() implies (#[trigger] gv[k]).len() == fv[k].signatures.len() by {
            lemma_sigs_view(files@[k].signatures@);
        }
        assert forall|k: int, j: int| 0 <= k < fv.len() && 0 <= j < fv[k].signatures.len()
            implies gv[k][j] == regex_is_match(query@, rendered(#[trigger] fv[k].signatures[j])) by {
            lemma_sigs_view(files@[k].signatures@);
            assert(fv[k].signatures[j] == files@[k].signatures@[j]@);
        }
        lemma_flags_give_matches(fv, query@, gv);
    }
    Ok(search_result_from_flags(files, query, &flags))
}

/// What a search over an analysis gives: the analysis error where the analysis
/// failed, the search error where the query is no regular expression, and the
/// search result otherwise.
pub open spec fn search_analysis_outcome(analysis: AnalyzeV, query: Seq<char>) -> SearchV {
    match analysis {
        AnalyzeV::Error { message } => SearchV::Error { message },
        AnalyzeV::Success { files } => match search_outcome(files, query) {
            Ok(s) => s,
            Err(e) => SearchV::Error { message: e },
        },
    }
}

/// Searching an analysis: a failed analysis passes its message on; a query
/// that is no regular expression gives `Invalid regex "query": error`; a query
/// that matches nothing gives `No signatures matching regex "query" found.`;
/// otherwise every match, counted.
pub proof fn lemma_search_analysis_outcome(analysis: AnalyzeV, query: Seq<char>)
    ensures
        analysis matches AnalyzeV::Error { message } ==> search_analysis_outcome(analysis, query) == (SearchV::Error {
            message,
        }),
        analysis is Success && !regex_compiles(query) ==> search_analysis_outcome(analysis, query) == (SearchV::Error {
            message: "Invalid regex \""@ + query + "\": "@ + regex_error_text(query),
        }),
        analysis matches AnalyzeV::Success { files } ==> (regex_compiles(query) ==> (matching_signatures(files, query)
            == 0 ==> search_analysis_outcome(analysis, query) == (SearchV::Error {
            message: "No signatures matching regex \""@ + query + "\" found."@,
        }))),
        analysis matches AnalyzeV::Success { files } ==> (regex_compiles(query) ==> (matching_signatures(files, query)
            > 0 ==> search_analysis_outcome(analysis, query) == (SearchV::Success {
            matches: all_matches(files, query),
            total_matched: matching_signatures(files, query),
        }))),
{
    if let AnalyzeV::Success { files } = analysis {
        if regex_compiles(query) {
            lemma_search_outcome_counts(files, query);
        }
    }
}

/// Searching by flags misses nothing either: every flagged signature of every
/// file is reported with that file's path and its rendering.
pub proof fn lemma_flagged_matches_complete(files: Seq<FileResultV>, flags: Seq<Seq<bool>>)
    requires
        flags.len() == files.len(),
        forall|i: int| 0 <= i < files.len() ==> (#[trigger] flags[i]).len() == files[i].signatures.len(),
    ensures
        forall|f: int, i: int|
            0 <= f < files.len() && 0 <= i < files[f].signatures.len() && #[trigger] flags[f][i] ==> exists|k: int|
                0 <= k < flagged_matches(files, flags).len() && flagged_matches(files, flags)[k] == (MatchV {
                    file: files[f].path,
                    line: rendered(files[f].signatures[i]),
                }),
    decreases files.len(),
{
    if files.len() > 0 {
        let n = files.len() - 1;
        let d = files.drop_last();
        let last = files.last();
        lemma_flagged_files_prefix(d, flags);
        assert forall|i: int| 0 <= i < d.len() implies (#[trigger] flags.take(n)[i]).len() == d[i].signatures.len() by {
            assert(d[i] == files[i]);
        }
        lemma_flagged_matches_complete(d, flags.take(n));
        assert(flags[n].len() == last.signatures.len());
        lemma_flagged_found(last.path, last.signatures, flags[n]);
        let rest = flagged_matches(d, flags);
        let tail = flagged_signature_matches(last.path, last.signatures, flags[n]);
        let all = flagged_matches(files, flags);
        assert(all == rest + tail);
        assert forall|f: int, i: int|
            0 <= f < files.len() && 0 <= i < files[f].signatures.len() && #[trigger] flags[f][i] implies exists|k: int|
                0 <= k < all.len() && all[k] == (MatchV { file: files[f].path, line: rendered(files[f].signatures[i]) }) by {
            if f < n {
                assert(d[f] == files[f]);
                assert(flags.take(n)[f] == flags[f]);
                let k = choose|k: int| 0 <= k < rest.len() && rest[k] == (MatchV {
                    file: d[f].path,
                    line: rendered(d[f].signatures[i]),
                });
                assert(all[k] == rest[k]);
            } else {
                assert(files[f] == last);
                let k = choose|k: int| 0 <= k < tail.len() && tail[k] == (MatchV {
                    file: last.path,
                    line: rendered(last.signatures[i]),
                });
                assert(all[rest.len() + k] == tail[k]);
            }
        }
    }
}

/// The query as a regular expression that matches without regard to case: the
/// inline flag `(?i)` put in front of it.
pub fn case_insensitive_query(query: &str) -> (r: String)
    ensures
        r@ == "(?i)"@ + query@,
{
    let mut r = String::new();
    r.append("(?i)");
    r.append(query);
    r
}

/// Searches the signatures of an analysis; analysis and query errors become
/// error results.
pub fn search_analysis(analysis: AnalyzeResult, query: &str) -> (r: SearchResult)
    ensures
        r@ == search_analysis_outcome(analysis@, query@),
{
    match analysis {
        AnalyzeResult::Error { message } => SearchResult::Error { message },
        AnalyzeResult::Success { files } => {
            proof {
                assert(crate::types::files_view(files@) =~= file_results_view(files@));
            }
            match search_in_files(&files, query) {
                Ok(s) => s,
                Err(e) => SearchResult::Error { message: e },
            }
        },
    }
}

} // verus!
