//! The decisions of analysing a path: which result a file or a directory walk
//! gives, and how a signature limit is spread over the files.
use vstd::prelude::*;
use crate::collector::items_signatures;
use crate::syntax::{analyze_source, source_items};
use crate::text::starts_with;
use crate::types::{files_view, lemma_sigs_view, sigs_view, AnalyzeResult, AnalyzeV, FileResult, FileResultV, Signature};

verus! {

/// Whether a file extension is `rs`.
pub fn has_rust_extension(ext: Option<&str>) -> (b: bool)
    ensures
        b == (ext matches Some(e) && e@ == "rs"@),
{
    match ext {
        Some(e) => {
            let same = starts_with(e, "rs") && e.unicode_len() == "rs".unicode_len();
            proof {
                if same {
                    assert(e@ =~= "rs"@);
                }
            }
            same
        },
        None => false,
    }
}

/// The result for a path that does not exist.
pub open spec fn path_not_found_outcome(target: Seq<char>) -> AnalyzeV {
    AnalyzeV::Error { message: "Path not found: "@ + target }
}

/// The error result for a path that does not exist.
pub fn path_not_found(target: &str) -> (r: AnalyzeResult)
    ensures
        r@ == path_not_found_outcome(target@),
{
    let mut message = String::new();
    message.append("Path not found: ");
    message.append(target);
    AnalyzeResult::Error { message }
}

/// The signatures of one file's source text, under the given path.
pub fn file_result(path: String, src: &str) -> (r: FileResult)
    ensures
        r.path@ == path@,
        sigs_view(r.signatures@) == match source_items(src@) {
            Some(items) => items_signatures(items),
            None => Seq::empty(),
        },
{
    FileResult { path, signatures: analyze_source(src) }
}

/// A file's signatures cut to at most `n`.
pub open spec fn truncated(f: FileResultV, n: nat) -> FileResultV {
    FileResultV {
        path: f.path,
        signatures: if f.signatures.len() <= n { f.signatures } else { f.signatures.take(n as int) },
    }
}

/// Cutting a file's signatures to `n` keeps the first of them, in order, and at most `n`.
pub proof fn lemma_truncated_is_prefix(f: FileResultV, n: nat)
    ensures
        truncated(f, n).path == f.path,
        truncated(f, n).signatures.len() <= n,
        truncated(f, n).signatures.is_prefix_of(f.signatures),
        f.signatures.len() <= n ==> truncated(f, n) == f,
{
}

/// Cutting a file to `n` signatures keeps its path and its first `min(n, len)`
/// signatures.
pub proof fn lemma_truncated_keeps_first(f: FileResultV, n: nat)
    ensures
        truncated(f, n) == (FileResultV {
            path: f.path,
            signatures: f.signatures.subrange(
                0,
                if n < f.signatures.len() { n as int } else { f.signatures.len() as int },
            ),
        }),
{
    if f.signatures.len() <= n {
        assert(f.signatures.subrange(0, f.signatures.len() as int) =~= f.signatures);
    } else {
        assert(f.signatures.take(n as int) =~= f.signatures.subrange(0, n as int));
    }
}

/// The result of analysing a single path that is a file: an error where it has
/// no `rs` extension or could not be read; otherwise that file, its signatures
/// cut to the limit where there is one.
pub open spec fn single_file_outcome_spec(
    is_rust_file: bool,
    analyzed: Option<FileResultV>,
    max: Option<nat>,
) -> AnalyzeV {
    if !is_rust_file {
        AnalyzeV::Error { message: "Not a Rust file."@ }
    } else {
        match analyzed {
            None => AnalyzeV::Error { message: "Failed to parse file."@ },
            Some(f) => AnalyzeV::Success {
                files: seq![
                    match max {
                        Some(m) => truncated(f, m),
                        None => f,
                    },
                ],
            },
        }
    }
}

pub open spec fn opt_nat(o: Option<usize>) -> Option<nat> {
    match o {
        Some(m) => Some(m as nat),
        None => None,
    }
}

pub open spec fn opt_file_view(o: Option<FileResult>) -> Option<FileResultV> {
    match o {
        Some(f) => Some(f@),
        None => None,
    }
}

fn truncate_signatures(f: &mut FileResult, n: usize)
    ensures
        final(f)@ == truncated(old(f)@, n as nat),
{
    proof {
        lemma_sigs_view(f.signatures@);
    }
    let ghost old_sigs = f.signatures@;
    f.signatures.truncate(n);
    proof {
        lemma_sigs_view(f.signatures@);
        if old_sigs.len() > n {
            assert(sigs_view(f.signatures@) =~= sigs_view(old_sigs).take(n as int));
        } else {
            assert(f.signatures@ =~= old_sigs);
        }
    }
}

/// The result of analysing a path that is a file, from whether it has the `rs`
/// extension and, where it has, the file's signatures (`None` where it could
/// not be read).
pub fn single_file_outcome(is_rust_file: bool, analyzed: Option<FileResult>, max: Option<usize>) -> (r: AnalyzeResult)
    ensures
        r@ == single_file_outcome_spec(is_rust_file, opt_file_view(analyzed), opt_nat(max)),
{
    if !is_rust_file {
        let mut message = String::new();
        message.append("Not a Rust file.");
        return AnalyzeResult::Error { message };
    }
    match analyzed {
        None => {
            let mut message = String::new();
            message.append("Failed to parse file.");
            AnalyzeResult::Error { message }
        },
        Some(mut f) => {
            if let Some(m) = max {
                truncate_signatures(&mut f, m);
            }
            let ghost fv = f@;
            let mut files = Vec::new();
            files.push(f);
            assert(files_view(files@) =~= seq![fv]);
            AnalyzeResult::Success { files }
        },
    }
}

/// What the file system shows of a path, as an analysis reads it: nothing
/// there; a file, whether it has the `rs` extension, and its signatures where
/// it could be read; or a directory, with the readable `.rs` files that the
/// walk offers, in walk order.
pub ghost enum PathFacts {
    Missing,
    File { is_rust_file: bool, analyzed: Option<FileResultV> },
    Dir { offered: Seq<FileResultV> },
}

/// The analysis of a path, given what the file system shows of it: the
/// decisions of [`path_not_found`], [`single_file_outcome`] and a
/// [`WalkBudget`] over the offered files.
pub open spec fn path_outcome(target: Seq<char>, facts: PathFacts, max: Option<nat>) -> AnalyzeV {
    match facts {
        PathFacts::Missing => path_not_found_outcome(target),
        PathFacts::File { is_rust_file, analyzed } => single_file_outcome_spec(is_rust_file, analyzed, max),
        PathFacts::Dir { offered } => if walk_kept(offered, max).len() == 0 {
            AnalyzeV::Error { message: "No Rust files found."@ }
        } else {
            AnalyzeV::Success { files: walk_kept(offered, max) }
        },
    }
}

/// The analysis of a path: "Path not found" exactly where nothing is there; for
/// a file, "Not a Rust file." without the `rs` extension, "Failed to parse
/// file." where it could not be read, and otherwise that one file with a
/// prefix of its signatures; for a directory, "No Rust files found." exactly
/// where the walk keeps no file, and otherwise the kept files.
pub proof fn lemma_path_outcome(target: Seq<char>, facts: PathFacts, max: Option<nat>)
    ensures
        path_outcome(target, facts, max) == path_not_found_outcome(target) <==> facts is Missing,
        facts matches PathFacts::File { is_rust_file, analyzed } ==> {
            &&& !is_rust_file ==> path_outcome(target, facts, max) == (AnalyzeV::Error { message: "Not a Rust file."@ })
            &&& is_rust_file && analyzed is None ==> path_outcome(target, facts, max) == (AnalyzeV::Error {
                message: "Failed to parse file."@,
            })
            &&& is_rust_file ==> (analyzed matches Some(f) ==> (path_outcome(target, facts, max) matches AnalyzeV::Success {
                files,
            } && files.len() == 1 && files[0].path == f.path && files[0].signatures.is_prefix_of(f.signatures)))
        },
        facts matches PathFacts::Dir { offered } ==> {
            &&& path_outcome(target, facts, max) == (AnalyzeV::Error { message: "No Rust files found."@ })
                <==> walk_kept(offered, max).len() == 0
            &&& walk_kept(offered, max).len() > 0 ==> path_outcome(target, facts, max) == (AnalyzeV::Success {
                files: walk_kept(offered, max),
            })
        },
{
    reveal_strlit("Path not found: ");
    reveal_strlit("Not a Rust file.");
    reveal_strlit("Failed to parse file.");
    reveal_strlit("No Rust files found.");
    match facts {
        PathFacts::Missing => {},
        PathFacts::File { is_rust_file, analyzed } => {
            if !is_rust_file {
                assert(("Path not found: "@ + target)[0] == 'P');
                assert("Not a Rust file."@[0] == 'N');
            } else {
                match analyzed {
                    None => {
                        assert(("Path not found: "@ + target)[0] == 'P');
                        assert("Failed to parse file."@[0] == 'F');
                    },
                    Some(f) => {
                        match max {
                            Some(m) => lemma_truncated_is_prefix(f, m),
                            None => {},
                        }
                    },
                }
            }
        },
        PathFacts::Dir { offered } => {
            if walk_kept(offered, max).len() == 0 {
                assert(("Path not found: "@ + target)[0] == 'P');
                assert("No Rust files found."@[0] == 'N');
            }
        },
    }
}

/// A single readable Rust file is reported whole without a limit, and with a
/// limit `m` with its first `min(m, n)` signatures of `n`; other files give
/// their errors.
pub proof fn lemma_single_file_outcome(is_rust_file: bool, analyzed: Option<FileResultV>, max: Option<nat>)
    ensures
        !is_rust_file ==> single_file_outcome_spec(is_rust_file, analyzed, max) == (AnalyzeV::Error {
            message: "Not a Rust file."@,
        }),
        is_rust_file && analyzed is None ==> single_file_outcome_spec(is_rust_file, analyzed, max) == (AnalyzeV::Error {
            message: "Failed to parse file."@,
        }),
        is_rust_file && max is None ==> (analyzed matches Some(f) ==> single_file_outcome_spec(
            is_rust_file,
            analyzed,
            max,
        ) == (AnalyzeV::Success { files: seq![f] })),
        is_rust_file ==> (analyzed matches Some(f) ==> (max matches Some(m) ==> single_file_outcome_spec(
            is_rust_file,
            analyzed,
            max,
        ) == (AnalyzeV::Success {
            files: seq![
                FileResultV {
                    path: f.path,
                    signatures: f.signatures.subrange(
                        0,
                        if m < f.signatures.len() { m as int } else { f.signatures.len() as int },
                    ),
                },
            ],
        }))),
{
    if let Some(f) = analyzed {
        if let Some(m) = max {
            if f.signatures.len() <= m {
                assert(f.signatures.subrange(0, f.signatures.len() as int) =~= f.signatures);
            }
        }
    }
}

/// The number of signatures over all files.
pub open spec fn total_signatures(files: Seq<FileResultV>) -> nat
    decreases files.len(),
{
    if files.len() == 0 {
        0
    } else {
        total_signatures(files.drop_last()) + files.last().signatures.len()
    }
}

/// What a walk keeps of the files offered to it in order: without a limit,
/// every file whole; with one, each file cut to what the limit leaves over,
/// until nothing is left over, after which nothing more is kept.
pub open spec fn walk_kept(offered: Seq<FileResultV>, max: Option<nat>) -> Seq<FileResultV>
    decreases offered.len(),
{
    if offered.len() == 0 {
        Seq::empty()
    } else {
        let kept = walk_kept(offered.drop_last(), max);
        let f = offered.last();
        match max {
            None => kept.push(f),
            Some(m) => {
                let left = m - total_signatures(kept);
                if left <= 0 {
                    kept
                } else {
                    kept.push(truncated(f, left as nat))
                }
            },
        }
    }
}

proof fn lemma_total_push(files: Seq<FileResultV>, f: FileResultV)
    ensures
        total_signatures(files.push(f)) == total_signatures(files) + f.signatures.len(),
{
    assert(files.push(f).drop_last() =~= files);
}

/// Over a whole walk: the kept files are the first offered files in order, each
/// with a prefix of its signatures (all of them without a limit); under a
/// limit `m` they hold exactly the smaller of `m` and the offered total.
pub proof fn lemma_walk_keeps_up_to_limit(offered: Seq<FileResultV>, max: Option<nat>)
    ensures
        walk_kept(offered, max).len() <= offered.len(),
        forall|i: int| 0 <= i < walk_kept(offered, max).len() ==> {
            &&& (#[trigger] walk_kept(offered, max)[i]).path == offered[i].path
            &&& walk_kept(offered, max)[i].signatures.is_prefix_of(offered[i].signatures)
        },
        max is None ==> walk_kept(offered, max) == offered,
        max matches Some(m) ==> total_signatures(walk_kept(offered, max)) == if total_signatures(offered) <= m {
            total_signatures(offered)
        } else {
            m
        },
        max matches Some(m) ==> (total_signatures(walk_kept(offered, max)) < m ==> walk_kept(offered, max).len()
            == offered.len()),
    decreases offered.len(),
{
    if offered.len() > 0 {
        let d = offered.drop_last();
        let f = offered.last();
        lemma_walk_keeps_up_to_limit(d, max);
        let kept = walk_kept(d, max);
        match max {
            None => {
                assert(d.push(f) =~= offered);
            },
            Some(m) => {
                let left = m - total_signatures(kept);
                if left > 0 {
                    lemma_total_push(kept, truncated(f, left as nat));
                    lemma_truncated_is_prefix(f, left as nat);
                    assert(kept.len() == d.len());
                }
            },
        }
        assert forall|i: int| 0 <= i < walk_kept(offered, max).len() implies {
            &&& (#[trigger] walk_kept(offered, max)[i]).path == offered[i].path
            &&& walk_kept(offered, max)[i].signatures.is_prefix_of(offered[i].signatures)
        } by {
            if i < kept.len() {
                assert(walk_kept(offered, max)[i] == kept[i]);
                assert(offered[i] == d[i]);
            } else {
                lemma_truncated_is_prefix(f, (if let Some(m) = max { m - total_signatures(kept) } else { 0 }) as nat);
                assert(offered[i] == f);
            }
        }
    }
}

/// A walk cuts at most its last kept file: every kept file before the last is
/// the offered file whole, and where the last one is cut there is a limit and
/// the kept files hold exactly that many signatures.
pub proof fn lemma_walk_cuts_only_the_last(offered: Seq<FileResultV>, max: Option<nat>)
    ensures
        forall|i: int| 0 <= i < walk_kept(offered, max).len() - 1 ==> #[trigger] walk_kept(offered, max)[i]
            == offered[i],
        walk_kept(offered, max).len() > 0 && walk_kept(offered, max).last() != offered[walk_kept(offered, max).len() - 1]
            ==> (max matches Some(m) && total_signatures(walk_kept(offered, max)) == m),
    decreases offered.len(),
{
    if offered.len() > 0 {
        let d = offered.drop_last();
        let f = offered.last();
        lemma_walk_cuts_only_the_last(d, max);
        lemma_walk_keeps_up_to_limit(d, max);
        let kept = walk_kept(d, max);
        assert forall|i: int| 0 <= i < kept.len() implies kept[i] == d[i] || i == kept.len() - 1 by {}
        assert forall|i: int| 0 <= i < kept.len() implies d[i] == offered[i] by {}
        match max {
            None => {
                assert(walk_kept(offered, max) == kept.push(f));
                if kept.len() > 0 {
                    assert(kept.last() == kept[kept.len() - 1]);
                }
                assert(offered[kept.len() as int] == f);
            },
            Some(m) => {
                let left = m - total_signatures(kept);
                if left > 0 {
                    let t = truncated(f, left as nat);
                    assert(walk_kept(offered, max) == kept.push(t));
                    lemma_total_push(kept, t);
                    if kept.len() > 0 {
                        assert(kept.last() == kept[kept.len() - 1]);
                    }
                    assert(kept.len() == d.len());
                    assert(offered[kept.len() as int] == f);
                    if t != f {
                        assert(f.signatures.len() > left);
                        assert(t.signatures.len() == left);
                    }
                }
            },
        }
    }
}

/// The files that a directory walk has kept so far, and how many signatures they
/// hold. With a limit, each file keeps only what the limit leaves over, and the
/// walk stops at the first file for which nothing is left.
pub struct WalkBudget {
    files: Vec<FileResult>,
    total: usize,
    max: Option<usize>,
    offered: Ghost<Seq<FileResultV>>,
}

impl WalkBudget {
    /// The files kept so far, in walk order.
    pub closed spec fn kept(&self) -> Seq<FileResultV> {
        files_view(self.files@)
    }

    /// The files offered so far, in walk order.
    pub closed spec fn offered(&self) -> Seq<FileResultV> {
        self.offered@
    }

    /// The signature limit.
    pub closed spec fn limit(&self) -> Option<nat> {
        opt_nat(self.max)
    }

    /// The walk's invariant: under a limit, the count is the kept signatures'
    /// total and within the limit.
    pub closed spec fn wf(&self) -> bool {
        &&& self.kept() == walk_kept(self.offered(), self.limit())
        &&& self.max matches Some(m) ==> {
            &&& self.total as nat == total_signatures(self.kept())
            &&& self.total <= m
        }
    }

    /// Under a limit, the kept files never hold more signatures than the limit.
    pub proof fn lemma_within_limit(&self)
        requires
            self.wf(),
        ensures
            self.limit() matches Some(m) ==> total_signatures(self.kept()) <= m,
    {
    }

    /// A walk that has kept nothing, under the given limit.
    pub fn new(max: Option<usize>) -> (b: Self)
        ensures
            b.wf(),
            b.kept().len() == 0,
            b.offered().len() == 0,
            b.limit() == opt_nat(max),
    {
        let b = WalkBudget { files: Vec::new(), total: 0, max, offered: Ghost(Seq::empty()) };
        assert(b.kept() =~= Seq::<FileResultV>::empty());
        b
    }

    /// Offers the next analysed file of the walk. Without a limit the file is
    /// kept whole. With one, where no signature is left over the walk ends
    /// (`false`) and nothing is kept; otherwise the file is kept with its
    /// signatures cut to what is left over.
    pub fn offer(&mut self, file: FileResult) -> (go_on: bool)
        requires
            old(self).wf(),
        ensures
            final(self).wf(),
            final(self).limit() == old(self).limit(),
            final(self).offered() == old(self).offered().push(file@),
            match old(self).limit() {
                None => go_on && final(self).kept() == old(self).kept().push(file@),
                Some(m) => {
                    let left = m - total_signatures(old(self).kept());
                    if left == 0 {
                        !go_on && final(self).kept() == old(self).kept()
                    } else {
                        go_on && final(self).kept() == old(self).kept().push(truncated(file@, left as nat))
                    }
                },
            },
    {
        let ghost before = self.kept();
        let ghost offered_before = self.offered@;
        proof {
            self.offered = Ghost(offered_before.push(file@));
            assert(self.offered@.drop_last() =~= offered_before);
        }
        let mut file = file;
        match self.max {
            Some(m) => {
                let remaining = m - self.total;
                if remaining == 0 {
                    return false;
                }
                truncate_signatures(&mut file, remaining);
                proof {
                    lemma_sigs_view(file.signatures@);
                }
                self.total = self.total + file.signatures.len();
            },
            None => {},
        }
        let ghost fv = file@;
        self.files.push(file);
        assert(self.kept() =~= before.push(fv));
        assert(self.kept().drop_last() =~= before);
        true
    }

    /// The walk's result: an error where no file was kept, otherwise the kept files.
    pub fn finish(self) -> (r: AnalyzeResult)
        requires
            self.wf(),
        ensures
            self.kept().len() == 0 ==> r@ == (AnalyzeV::Error { message: "No Rust files found."@ }),
            self.kept().len() > 0 ==> r@ == (AnalyzeV::Success { files: self.kept() }),
            self.limit() matches Some(m) ==> total_signatures(self.kept()) <= m,
            self.kept() == walk_kept(self.offered(), self.limit()),
    {
        if self.files.len() == 0 {
            let mut message = String::new();
            message.append("No Rust files found.");
            AnalyzeResult::Error { message }
        } else {
            AnalyzeResult::Success { files: self.files }
        }
    }
}

} // verus!
