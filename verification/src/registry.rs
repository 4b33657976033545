//! Finding a crate's source directory among the listings of a cargo registry.
use vstd::prelude::*;
use crate::text::{chars_of, replace_char, replaced_char, starts_with, string_of_chars};
use crate::version::{
    flipped, order_versions, parse_version, semver_order, semver_valid, ParsedVersion, VersionOrder,
};

verus! {

/// One entry of a directory listing: its file name where that is valid UTF-8,
/// and whether it is a directory.
#[derive(Debug, Clone)]
pub struct DirEntryInfo {
    pub name: Option<String>,
    pub is_dir: bool,
}

pub struct EntryV {
    pub name: Option<Seq<char>>,
    pub is_dir: bool,
}

impl View for DirEntryInfo {
    type V = EntryV;

    open spec fn view(&self) -> EntryV {
        EntryV {
            name: match self.name {
                Some(n) => Some(n@),
                None => None,
            },
            is_dir: self.is_dir,
        }
    }
}

pub open spec fn entries_view(e: Seq<DirEntryInfo>) -> Seq<EntryV> {
    e.map_values(|x: DirEntryInfo| x@)
}

pub open spec fn listings_view(l: Seq<Vec<DirEntryInfo>>) -> Seq<Seq<EntryV>> {
    l.map_values(|x: Vec<DirEntryInfo>| entries_view(x@))
}

/// The prefix that names the registry's index directories.
pub open spec fn index_dir_prefix() -> Seq<char> {
    "index.crates.io-"@
}

/// Whether a registry entry name is that of an index directory.
pub fn is_index_dir_name(name: &str) -> (b: bool)
    ensures
        b == index_dir_prefix().is_prefix_of(name@),
{
    starts_with(name, "index.crates.io-")
}

/// The cargo home directory: `CARGO_HOME` where set, else `.cargo` under `HOME`,
/// else `.cargo`.
pub fn cargo_home_dir(cargo_home: Option<String>, home: Option<String>) -> (r: String)
    ensures
        r@ == (match cargo_home {
            Some(c) => c@,
            None => match home {
                Some(h) => h@ + "/.cargo"@,
                None => ".cargo"@,
            },
        }),
{
    match cargo_home {
        Some(c) => c,
        None => match home {
            Some(h) => {
                let mut r = h;
                r.append("/.cargo");
                r
            },
            None => {
                let mut r = String::new();
                r.append(".cargo");
                r
            },
        },
    }
}

/// The message for a registry directory that cannot be read.
pub fn registry_read_error(detail: &str) -> (r: String)
    ensures
        r@ == "Cannot read cargo registry src: "@ + detail@,
{
    let mut r = String::new();
    r.append("Cannot read cargo registry src: ");
    r.append(detail);
    r
}

/// The part of a version text before its first `+` (the build metadata).
pub open spec fn before_plus(v: Seq<char>) -> Seq<char>
    decreases v.len(),
{
    if v.len() == 0 || v[0] == '+' {
        Seq::empty()
    } else {
        seq![v[0]] + before_plus(v.drop_first())
    }
}

/// A name with `_` written as `-`, so that crate names compare alike in either
/// spelling.
pub open spec fn dashed(name: Seq<char>) -> Seq<char> {
    replaced_char(name, '_', '-')
}

/// The entries that can hold the crate: directories whose name, with `_`
/// written as `-`, starts with the prefix; each with its index and the rest of
/// its name (the version text).
pub open spec fn candidates(entries: Seq<EntryV>, prefix: Seq<char>) -> Seq<(int, Seq<char>)>
    decreases entries.len(),
{
    if entries.len() == 0 {
        Seq::empty()
    } else {
        let rest = candidates(entries.drop_last(), prefix);
        let e = entries.last();
        if e.name is Some && prefix.is_prefix_of(dashed(e.name->0)) && e.is_dir {
            rest.push((entries.len() - 1, (e.name->0).skip(prefix.len() as int)))
        } else {
            rest
        }
    }
}

/// The first candidate whose version text starts with the requested version.
pub open spec fn first_starting_with(c: Seq<(int, Seq<char>)>, version: Seq<char>) -> Option<int>
    decreases c.len(),
{
    if c.len() == 0 {
        None
    } else if version.is_prefix_of(c[0].1) {
        Some(c[0].0)
    } else {
        first_starting_with(c.drop_first(), version)
    }
}

/// The greatest candidate by semantic version, among those whose version text
/// (build metadata cut off) is a valid version; of equal ones, the last.
pub open spec fn greatest_version(c: Seq<(int, Seq<char>)>) -> Option<(int, Seq<char>)>
    decreases c.len(),
{
    if c.len() == 0 {
        None
    } else {
        let best = greatest_version(c.drop_last());
        let x = c.last();
        if !semver_valid(before_plus(x.1)) {
            best
        } else {
            match best {
                None => Some(x),
                Some(b) => if semver_order(before_plus(b.1), before_plus(x.1)) == VersionOrder::Greater {
                    Some(b)
                } else {
                    Some(x)
                },
            }
        }
    }
}

/// The entry of one index directory that holds the crate: the first whose
/// version starts with the requested one, or without a request the greatest
/// version.
pub open spec fn select_in_listing(entries: Seq<EntryV>, prefix: Seq<char>, version: Option<Seq<char>>) -> Option<int> {
    let c = candidates(entries, prefix);
    match version {
        Some(v) => first_starting_with(c, v),
        None => match greatest_version(c) {
            Some(b) => Some(b.0),
            None => None,
        },
    }
}

/// The first index directory, from `from` on, that holds the crate, with the entry.
pub open spec fn select_in_listings(
    listings: Seq<Seq<EntryV>>,
    from: int,
    prefix: Seq<char>,
    version: Option<Seq<char>>,
) -> Option<(int, int)>
    decreases listings.len() - from,
{
    if from < 0 || from >= listings.len() {
        None
    } else {
        match select_in_listing(listings[from], prefix, version) {
            Some(j) => Some((from, j)),
            None => select_in_listings(listings, from + 1, prefix, version),
        }
    }
}

/// The directory-name prefix for a package: its name with `_` written as `-`,
/// and a `-`; directory names are compared in the same spelling.
pub open spec fn package_prefix(package: Seq<char>) -> Seq<char> {
    dashed(package) + "-"@
}

pub open spec fn not_found_message(package: Seq<char>, version: Option<Seq<char>>) -> Seq<char> {
    match version {
        Some(v) => "Package "@ + package + " v"@ + v + " not found in cargo cache"@,
        None => "Package "@ + package + " not found in cargo cache"@,
    }
}

/// Where the crate's directory is, given the listings of the registry's index
/// directories in order: the index directory and the entry, or the message.
pub open spec fn package_dir_outcome(
    package: Seq<char>,
    version: Option<Seq<char>>,
    listings: Seq<Seq<EntryV>>,
) -> Result<(int, int), Seq<char>> {
    if listings.len() == 0 {
        Err("No crates.io index found in cargo registry. Run cargo build first."@)
    } else {
        match select_in_listings(listings, 0, package_prefix(package), version) {
            Some(p) => Ok(p),
            None => Err(not_found_message(package, version)),
        }
    }
}

proof fn lemma_candidates_sound(entries: Seq<EntryV>, prefix: Seq<char>)
    ensures
        forall|k: int| 0 <= k < candidates(entries, prefix).len() ==> {
            let c = #[trigger] candidates(entries, prefix)[k];
            &&& 0 <= c.0 < entries.len()
            &&& entries[c.0].is_dir
            &&& entries[c.0].name is Some
            &&& prefix.is_prefix_of(dashed(entries[c.0].name->0))
            &&& c.1 == (entries[c.0].name->0).skip(prefix.len() as int)
        },
    decreases entries.len(),
{
    if entries.len() > 0 {
        lemma_candidates_sound(entries.drop_last(), prefix);
        let rest = candidates(entries.drop_last(), prefix);
        assert forall|k: int| 0 <= k < rest.len() implies entries[rest[k].0] == entries.drop_last()[rest[k].0] by {}
    }
}

proof fn lemma_first_starting_with_in(c: Seq<(int, Seq<char>)>, version: Seq<char>)
    ensures
        first_starting_with(c, version) matches Some(j) ==> exists|k: int|
            0 <= k < c.len() && (#[trigger] c[k]).0 == j && version.is_prefix_of(c[k].1),
    decreases c.len(),
{
    if c.len() > 0 && !version.is_prefix_of(c[0].1) {
        lemma_first_starting_with_in(c.drop_first(), version);
        if let Some(j) = first_starting_with(c, version) {
            let k = choose|k: int| 0 <= k < c.drop_first().len() && (#[trigger] c.drop_first()[k]).0 == j && version.is_prefix_of(c.drop_first()[k].1);
            assert(c[k + 1] == c.drop_first()[k]);
        }
    } else if c.len() > 0 {
        assert(c[0].0 == c[0].0);
    }
}

/// Whether entry `i` can hold the crate: a directory whose name, with `_`
/// written as `-`, starts with the prefix.
pub open spec fn holds_crate(entries: Seq<EntryV>, prefix: Seq<char>, i: int) -> bool {
    &&& 0 <= i < entries.len()
    &&& entries[i].is_dir
    &&& entries[i].name is Some
    &&& prefix.is_prefix_of(dashed(entries[i].name->0))
}

/// The version text of entry `i`: its name after the prefix.
pub open spec fn entry_version(entries: Seq<EntryV>, prefix: Seq<char>, i: int) -> Seq<char> {
    (entries[i].name->0).skip(prefix.len() as int)
}

proof fn lemma_candidates_complete(entries: Seq<EntryV>, prefix: Seq<char>)
    ensures
        forall|i: int| #[trigger] holds_crate(entries, prefix, i) ==> exists|k: int|
            0 <= k < candidates(entries, prefix).len() && candidates(entries, prefix)[k] == (
                i,
                entry_version(entries, prefix, i),
            ),
        forall|a: int, b: int|
            0 <= a < b < candidates(entries, prefix).len() ==> (#[trigger] candidates(entries, prefix)[a]).0
                < (#[trigger] candidates(entries, prefix)[b]).0,
        forall|k: int| 0 <= k < candidates(entries, prefix).len() ==> (#[trigger] candidates(entries, prefix)[k]).0
            < entries.len(),
    decreases entries.len(),
{
    if entries.len() > 0 {
        let d = entries.drop_last();
        let n = entries.len() - 1;
        lemma_candidates_complete(d, prefix);
        let rest = candidates(d, prefix);
        let c = candidates(entries, prefix);
        assert forall|i: int| #[trigger] holds_crate(entries, prefix, i) implies exists|k: int|
            0 <= k < c.len() && c[k] == (i, entry_version(entries, prefix, i)) by {
            if i < n {
                assert(entries[i] == d[i]);
                assert(holds_crate(d, prefix, i));
                let k = choose|k: int| 0 <= k < rest.len() && rest[k] == (i, entry_version(d, prefix, i));
                assert(c[k] == rest[k]);
            } else {
                assert(entries.last() == entries[n]);
                assert(c[rest.len() as int] == (i, entry_version(entries, prefix, i)));
            }
        }
    }
}

proof fn lemma_first_starting_with_first(c: Seq<(int, Seq<char>)>, version: Seq<char>)
    ensures
        first_starting_with(c, version) is None <==> forall|k: int| 0 <= k < c.len() ==> !version.is_prefix_of(
            #[trigger] c[k].1,
        ),
        first_starting_with(c, version) matches Some(j) ==> exists|k: int|
            0 <= k < c.len() && (#[trigger] c[k]).0 == j && version.is_prefix_of(c[k].1) && forall|m: int|
                0 <= m < k ==> !version.is_prefix_of(#[trigger] c[m].1),
    decreases c.len(),
{
    if c.len() > 0 {
        let t = c.drop_first();
        lemma_first_starting_with_first(t, version);
        if !version.is_prefix_of(c[0].1) {
            assert forall|k: int| 1 <= k < c.len() implies c[k] == t[k - 1] by {}
            if first_starting_with(c, version) is None {
                assert forall|k: int| 0 <= k < c.len() implies !version.is_prefix_of(#[trigger] c[k].1) by {
                    if k > 0 {
                        assert(c[k] == t[k - 1]);
                    }
                }
            } else {
                assert(!(forall|k: int| 0 <= k < t.len() ==> !version.is_prefix_of(#[trigger] t[k].1)));
                let k0 = choose|k: int| 0 <= k < t.len() && version.is_prefix_of(#[trigger] t[k].1);
                assert(c[k0 + 1] == t[k0]);
            }
            if let Some(j) = first_starting_with(c, version) {
                let k = choose|k: int|
                    0 <= k < t.len() && (#[trigger] t[k]).0 == j && version.is_prefix_of(t[k].1) && forall|m: int|
                        0 <= m < k ==> !version.is_prefix_of(#[trigger] t[m].1);
                assert(c[k + 1] == t[k]);
                assert forall|m: int| 0 <= m < k + 1 implies !version.is_prefix_of(#[trigger] c[m].1) by {
                    if m > 0 {
                        assert(c[m] == t[m - 1]);
                    }
                }
            }
        } else {
            assert(c[0].0 == c[0].0);
        }
    }
}

/// With a requested version, an index directory's listing yields the first
/// entry that can hold the crate and whose version starts with the request,
/// and yields none exactly where no such entry has a version that starts with
/// it: an exact version is always found where its directory is listed.
pub proof fn lemma_requested_version_found(entries: Seq<EntryV>, prefix: Seq<char>, v: Seq<char>)
    ensures
        select_in_listing(entries, prefix, Some(v)) is None <==> forall|i: int|
            #[trigger] holds_crate(entries, prefix, i) ==> !v.is_prefix_of(entry_version(entries, prefix, i)),
        select_in_listing(entries, prefix, Some(v)) matches Some(j) ==> {
            &&& holds_crate(entries, prefix, j)
            &&& v.is_prefix_of(entry_version(entries, prefix, j))
            &&& forall|i: int| 0 <= i < j && #[trigger] holds_crate(entries, prefix, i) ==> !v.is_prefix_of(
                entry_version(entries, prefix, i),
            )
        },
{
    let c = candidates(entries, prefix);
    lemma_candidates_sound(entries, prefix);
    lemma_candidates_complete(entries, prefix);
    lemma_first_starting_with_first(c, v);
    if select_in_listing(entries, prefix, Some(v)) is None {
        assert forall|i: int| #[trigger] holds_crate(entries, prefix, i) implies !v.is_prefix_of(entry_version(entries, prefix, i)) by {
            let k = choose|k: int| 0 <= k < c.len() && c[k] == (i, entry_version(entries, prefix, i));
            assert(!v.is_prefix_of(c[k].1));
        }
    } else {
        let j = select_in_listing(entries, prefix, Some(v))->0;
        let k = choose|k: int|
            0 <= k < c.len() && (#[trigger] c[k]).0 == j && v.is_prefix_of(c[k].1) && forall|m: int|
                0 <= m < k ==> !v.is_prefix_of(#[trigger] c[m].1);
        assert(c[k].0 == j);
        assert(holds_crate(entries, prefix, j));
        assert forall|i: int| 0 <= i < j && #[trigger] holds_crate(entries, prefix, i) implies !v.is_prefix_of(
            entry_version(entries, prefix, i)) by {
            let m = choose|m: int| 0 <= m < c.len() && c[m] == (i, entry_version(entries, prefix, i));
            if m >= k {
                if m > k {
                    assert(c[k].0 < c[m].0);
                }
            }
            assert(m < k);
            assert(!v.is_prefix_of(c[m].1));
        }
        assert(!(forall|i: int| #[trigger] holds_crate(entries, prefix, i) ==> !v.is_prefix_of(entry_version(entries, prefix, i)))) by {
            assert(holds_crate(entries, prefix, j));
        }
    }
}

proof fn lemma_greatest_version_in(c: Seq<(int, Seq<char>)>)
    ensures
        greatest_version(c) matches Some(b) ==> exists|k: int|
            0 <= k < c.len() && #[trigger] c[k] == b && semver_valid(before_plus(b.1)),
    decreases c.len(),
{
    if c.len() > 0 {
        lemma_greatest_version_in(c.drop_last());
        if let Some(b) = greatest_version(c.drop_last()) {
            if greatest_version(c) == Some(b) {
                let k = choose|k: int| 0 <= k < c.drop_last().len() && #[trigger] c.drop_last()[k] == b && semver_valid(before_plus(b.1));
                assert(c[k] == c.drop_last()[k]);
            }
        }
        if greatest_version(c) == Some(c.last()) {
            assert(c[c.len() - 1] == c.last());
        }
    }
}

/// The entry chosen in a listing is a directory named by the prefix; its version
/// starts with the requested one, or, without a request, is a valid semantic
/// version once build metadata is cut off.
pub proof fn lemma_selection_is_candidate(entries: Seq<EntryV>, prefix: Seq<char>, version: Option<Seq<char>>)
    ensures
        select_in_listing(entries, prefix, version) matches Some(j) ==> {
            &&& 0 <= j < entries.len()
            &&& entries[j].is_dir
            &&& entries[j].name is Some
            &&& prefix.is_prefix_of(dashed(entries[j].name->0))
            &&& match version {
                Some(v) => v.is_prefix_of((entries[j].name->0).skip(prefix.len() as int)),
                None => semver_valid(before_plus((entries[j].name->0).skip(prefix.len() as int))),
            }
        },
{
    let c = candidates(entries, prefix);
    lemma_candidates_sound(entries, prefix);
    match version {
        Some(v) => {
            lemma_first_starting_with_in(c, v);
            if let Some(j) = first_starting_with(c, v) {
                let k = choose|k: int| 0 <= k < c.len() && (#[trigger] c[k]).0 == j && v.is_prefix_of(c[k].1);
                assert(c[k].0 == j);
            }
        },
        None => {
            lemma_greatest_version_in(c);
            if let Some(b) = greatest_version(c) {
                let k = choose|k: int| 0 <= k < c.len() && #[trigger] c[k] == b && semver_valid(before_plus(b.1));
                assert(c[k] == b);
            }
        },
    }
}

proof fn lemma_select_in_listings(listings: Seq<Seq<EntryV>>, from: int, prefix: Seq<char>, version: Option<Seq<char>>)
    requires
        0 <= from <= listings.len(),
    ensures
        select_in_listings(listings, from, prefix, version) matches Some(p) ==> {
            &&& from <= p.0 < listings.len()
            &&& select_in_listing(listings[p.0], prefix, version) == Some(p.1)
            &&& forall|k: int| from <= k < p.0 ==> #[trigger] select_in_listing(listings[k], prefix, version) is None
        },
        select_in_listings(listings, from, prefix, version) is None ==> forall|k: int|
            from <= k < listings.len() ==> #[trigger] select_in_listing(listings[k], prefix, version) is None,
    decreases listings.len() - from,
{
    if from < listings.len() {
        lemma_select_in_listings(listings, from + 1, prefix, version);
    }
}

/// Across the index directories: the crate is found in the first index
/// directory whose listing has a matching entry, at the entry that the
/// listing's own selection gives (a directory named by the crate, with a
/// matching or valid version); it is reported missing, under the name as
/// given, exactly where no index directory has one; no index directory at all
/// is its own error.
pub proof fn lemma_package_dir_across_listings(package: Seq<char>, version: Option<Seq<char>>, listings: Seq<Seq<EntryV>>)
    ensures
        package_dir_outcome(package, version, listings) matches Ok(p) ==> {
            &&& 0 <= p.0 < listings.len()
            &&& select_in_listing(listings[p.0], package_prefix(package), version) == Some(p.1)
            &&& forall|k: int| 0 <= k < p.0 ==> #[trigger] select_in_listing(listings[k], package_prefix(package), version) is None
            &&& 0 <= p.1 < listings[p.0].len()
            &&& listings[p.0][p.1].is_dir
            &&& listings[p.0][p.1].name is Some
            &&& package_prefix(package).is_prefix_of(dashed(listings[p.0][p.1].name->0))
        },
        listings.len() == 0 ==> package_dir_outcome(package, version, listings)
            == Err::<(int, int), Seq<char>>("No crates.io index found in cargo registry. Run cargo build first."@),
        listings.len() > 0 ==> (package_dir_outcome(package, version, listings) is Err <==> forall|k: int|
            0 <= k < listings.len() ==> #[trigger] select_in_listing(listings[k], package_prefix(package), version) is None),
        listings.len() > 0 && package_dir_outcome(package, version, listings) is Err ==>
            package_dir_outcome(package, version, listings) == Err::<(int, int), Seq<char>>(not_found_message(package, version)),
{
    let prefix = package_prefix(package);
    lemma_select_in_listings(listings, 0, prefix, version);
    if let Some(p) = select_in_listings(listings, 0, prefix, version) {
        lemma_selection_is_candidate(listings[p.0], prefix, version);
    }
    if listings.len() > 0 {
        if forall|k: int| 0 <= k < listings.len() ==> #[trigger] select_in_listing(listings[k], prefix, version) is None {
            if let Some(p) = select_in_listings(listings, 0, prefix, version) {
                assert(select_in_listing(listings[p.0], prefix, version) is None);
            }
        }
    }
}

/// The version text before build metadata is the longest start of the text
/// without a `+`: it stops at the first `+`, or takes the whole text.
pub proof fn lemma_before_plus_cut(v: Seq<char>)
    ensures
        before_plus(v).is_prefix_of(v),
        forall|j: int| 0 <= j < before_plus(v).len() ==> #[trigger] before_plus(v)[j] != '+',
        before_plus(v).len() == v.len() || v[before_plus(v).len() as int] == '+',
    decreases v.len(),
{
    if v.len() > 0 && v[0] != '+' {
        lemma_before_plus_cut(v.drop_first());
        let r = before_plus(v.drop_first());
        assert(before_plus(v) == seq![v[0]] + r);
        assert forall|j: int| 0 <= j < before_plus(v).len() implies #[trigger] before_plus(v)[j] != '+' by {
            if j > 0 {
                assert(before_plus(v)[j] == r[j - 1]);
            }
        }
        if r.len() < v.drop_first().len() {
            assert(v[r.len() as int + 1] == v.drop_first()[r.len() as int]);
        }
        assert forall|j: int| 0 <= j < before_plus(v).len() implies before_plus(v)[j] == v[j] by {
            if j > 0 {
                assert(before_plus(v)[j] == r[j - 1]);
                assert(r[j - 1] == v.drop_first()[j - 1]);
            }
        }
    }
}

/// A package's directories are named by the package with `_` and `-` alike,
/// then `-` and the version: the prefix is the name with every `_` as `-`,
/// then `-`; the messages name the package as given.
pub proof fn lemma_package_names(package: Seq<char>, v: Seq<char>)
    ensures
        package_prefix(package).len() == package.len() + 1,
        package_prefix(package)[package.len() as int] == '-',
        forall|k: int| 0 <= k < package.len() ==> #[trigger] package_prefix(package)[k] == if package[k] == '_' {
            '-'
        } else {
            package[k]
        },
        not_found_message(package, None) == "Package "@ + package + " not found in cargo cache"@,
        not_found_message(package, Some(v)) == "Package "@ + package + " v"@ + v + " not found in cargo cache"@,
{
    reveal_strlit("-");
    assert(package_prefix(package)[package.len() as int] == "-"@[0]);
}

pub open spec fn cands_view(c: Seq<(usize, String)>) -> Seq<(int, Seq<char>)> {
    c.map_values(|x: (usize, String)| (x.0 as int, x.1@))
}

fn listing_candidates(entries: &Vec<DirEntryInfo>, prefix: &str) -> (c: Vec<(usize, String)>)
    ensures
        cands_view(c@) == candidates(entries_view(entries@), prefix@),
{
    let ghost ev = entries_view(entries@);
    let mut c: Vec<(usize, String)> = Vec::new();
    let mut i: usize = 0;
    while i < entries.len()
        invariant
            i <= entries@.len(),
            ev == entries_view(entries@),
            cands_view(c@) == candidates(ev.take(i as int), prefix@),
        decreases entries@.len() - i,
    {
        let e = &entries[i];
        let ghost before = c@;
        assert(ev.take(i + 1).drop_last() =~= ev.take(i as int));
        assert(ev.take(i + 1).last() == e@);
        if let Some(name) = &e.name {
            let dashed_name = replace_char(name.as_str(), '_', '-');
            if e.is_dir && starts_with(dashed_name.as_str(), prefix) {
                let chars = chars_of(name.as_str());
                let p = prefix.unicode_len();
                let ver = string_of_chars(&chars, p, chars.len());
                c.push((i, ver));
                assert(cands_view(c@) =~= cands_view(before).push((i as int, ver@)));
            }
        }
        i = i + 1;
    }
    assert(ev.take(entries@.len() as int) =~= ev);
    c
}

/// The part of a version text before its first `+`.
pub fn version_before_plus(v: &str) -> (r: String)
    ensures
        r@ == before_plus(v@),
{
    let cs = chars_of(v);
    let mut k: usize = 0;
    while k < cs.len() && cs[k] != '+'
        invariant
            k <= cs@.len(),
            cs@ == v@,
            forall|j: int| 0 <= j < k ==> cs@[j] != '+',
        decreases cs@.len() - k,
    {
        k = k + 1;
    }
    proof {
        lemma_before_plus(v@, k as int);
    }
    string_of_chars(&cs, 0, k)
}

proof fn lemma_before_plus(v: Seq<char>, k: int)
    requires
        0 <= k <= v.len(),
        forall|j: int| 0 <= j < k ==> v[j] != '+',
        k == v.len() || v[k] == '+',
    ensures
        before_plus(v) == v.subrange(0, k),
    decreases k,
{
    if k > 0 {
        lemma_before_plus(v.drop_first(), k - 1);
        assert(v.subrange(0, k) =~= seq![v[0]] + v.drop_first().subrange(0, k - 1));
    } else {
        assert(v.subrange(0, 0) =~= Seq::<char>::empty());
    }
}

fn first_with_version(c: &Vec<(usize, String)>, version: &str) -> (r: Option<usize>)
    ensures
        (match r {
            Some(j) => Some(j as int),
            None => None,
        }) == first_starting_with(cands_view(c@), version@),
{
    let ghost cv = cands_view(c@);
    assert(cv.skip(0) =~= cv);
    let mut k: usize = 0;
    while k < c.len()
        invariant
            k <= c@.len(),
            cv == cands_view(c@),
            first_starting_with(cv, version@) == first_starting_with(cv.skip(k as int), version@),
        decreases c@.len() - k,
    {
        assert(cv.skip(k as int)[0] == (c@[k as int].0 as int, c@[k as int].1@));
        assert(cv.skip(k as int).drop_first() =~= cv.skip(k + 1));
        if starts_with(c[k].1.as_str(), version) {
            return Some(c[k].0);
        }
        k = k + 1;
    }
    None
}

/// Among the first `n` candidates, the position of the greatest valid one under
/// `order` (`order[a][b]` says how candidate `a` compares with candidate `b`);
/// of equal ones, the last.
pub open spec fn greatest_by(valid: Seq<bool>, order: Seq<Seq<VersionOrder>>, n: int) -> Option<int>
    decreases n,
{
    if n <= 0 {
        None
    } else {
        let best = greatest_by(valid, order, n - 1);
        let k = n - 1;
        if !valid[k] {
            best
        } else {
            match best {
                None => Some(k),
                Some(b) => if order[b][k] == VersionOrder::Greater {
                    Some(b)
                } else {
                    Some(k)
                },
            }
        }
    }
}

proof fn lemma_greatest_by_in_range(valid: Seq<bool>, order: Seq<Seq<VersionOrder>>, n: int)
    ensures
        greatest_by(valid, order, n) matches Some(b) ==> 0 <= b < n && valid[b],
    decreases n,
{
    if n > 0 {
        lemma_greatest_by_in_range(valid, order, n - 1);
    }
}

/// Whether `order` behaves as a total order on the valid positions: answers
/// are mirror images, and "not less" is transitive.
pub open spec fn is_total_order_on(valid: Seq<bool>, order: Seq<Seq<VersionOrder>>) -> bool {
    &&& forall|a: int, b: int| 0 <= a < valid.len() && 0 <= b < valid.len() && valid[a] && valid[b] ==> {
        &&& (#[trigger] order[a][b] == VersionOrder::Greater) == (order[b][a] == VersionOrder::Less)
        &&& (order[a][b] == VersionOrder::Equal) == (order[b][a] == VersionOrder::Equal)
    }
    &&& forall|a: int, b: int, c: int|
        0 <= a < valid.len() && 0 <= b < valid.len() && 0 <= c < valid.len() && valid[a] && valid[b] && valid[c]
            && #[trigger] order[a][b] != VersionOrder::Less && #[trigger] order[b][c] != VersionOrder::Less
            ==> order[a][c] != VersionOrder::Less
}

/// Under a total order, the greatest position is valid and not less than any
/// valid position before it; there is one wherever some position is valid.
pub proof fn lemma_greatest_is_maximal(valid: Seq<bool>, order: Seq<Seq<VersionOrder>>, n: int)
    requires
        0 <= n <= valid.len(),
        is_total_order_on(valid, order),
    ensures
        greatest_by(valid, order, n) is None <==> (forall|k: int| 0 <= k < n ==> !#[trigger] valid[k]),
        greatest_by(valid, order, n) matches Some(b) ==> {
            &&& 0 <= b < n
            &&& valid[b]
            &&& forall|k: int| 0 <= k < n && valid[k] ==> #[trigger] order[b][k] != VersionOrder::Less
        },
    decreases n,
{
    if n > 0 {
        lemma_greatest_is_maximal(valid, order, n - 1);
        let k = n - 1;
        if valid[k] {
            assert(order[k][k] != VersionOrder::Less);
            if let Some(b) = greatest_by(valid, order, n - 1) {
                if order[b][k] != VersionOrder::Greater {
                    assert(order[k][b] != VersionOrder::Less);
                    assert forall|j: int| 0 <= j < n && valid[j] implies #[trigger] order[k][j] != VersionOrder::Less by {
                        if j < k {
                            assert(order[b][j] != VersionOrder::Less);
                        }
                    }
                }
            }
        }
    }
}

pub open spec fn order_view(o: Seq<Vec<VersionOrder>>) -> Seq<Seq<VersionOrder>> {
    o.map_values(|x: Vec<VersionOrder>| x@)
}

/// The position of the greatest valid version, given which versions are valid
/// and how each pair compares; of equal ones the last; `None` where none is valid.
pub fn pick_greatest(valid: &Vec<bool>, order: &Vec<Vec<VersionOrder>>) -> (r: Option<usize>)
    requires
        order@.len() == valid@.len(),
        forall|a: int| 0 <= a < order@.len() ==> (#[trigger] order@[a])@.len() == valid@.len(),
    ensures
        (match r {
            Some(j) => Some(j as int),
            None => None,
        }) == greatest_by(valid@, order_view(order@), valid@.len() as int),
{
    let ghost ov = order_view(order@);
    let mut best: Option<usize> = None;
    let mut k: usize = 0;
    while k < valid.len()
        invariant
            k <= valid@.len(),
            ov == order_view(order@),
            order@.len() == valid@.len(),
            forall|a: int| 0 <= a < order@.len() ==> (#[trigger] order@[a])@.len() == valid@.len(),
            (match best {
                Some(j) => Some(j as int),
                None => None,
            }) == greatest_by(valid@, ov, k as int),
        decreases valid@.len() - k,
    {
        proof {
            lemma_greatest_by_in_range(valid@, ov, k as int);
        }
        if valid[k] {
            match best {
                None => {
                    best = Some(k);
                },
                Some(b) => {
                    assert(ov[b as int] == order@[b as int]@);
                    if order[b][k] != VersionOrder::Greater {
                        best = Some(k);
                    }
                },
            }
        }
        k = k + 1;
    }
    best
}

proof fn lemma_greatest_by_agrees(c: Seq<(int, Seq<char>)>, valid: Seq<bool>, order: Seq<Seq<VersionOrder>>, n: int)
    requires
        0 <= n <= c.len(),
        valid.len() == c.len(),
        order.len() == c.len(),
        forall|k: int| 0 <= k < c.len() ==> valid[k] == semver_valid(before_plus(#[trigger] c[k].1)),
        forall|a: int, b: int| 0 <= a < c.len() && 0 <= b < c.len() && valid[a] && valid[b]
            ==> (#[trigger] order[a][b]) == semver_order(before_plus(c[a].1), before_plus(c[b].1)),
    ensures
        greatest_version(c.take(n)) == (match greatest_by(valid, order, n) {
            Some(k) => Some(c[k]),
            None => None,
        }),
    decreases n,
{
    if n > 0 {
        lemma_greatest_by_agrees(c, valid, order, n - 1);
        lemma_greatest_by_in_range(valid, order, n - 1);
        assert(c.take(n).drop_last() =~= c.take(n - 1));
        assert(c.take(n).last() == c[n - 1]);
        let k = n - 1;
        assert(valid[k] == semver_valid(before_plus(c[k].1)));
        if let Some(b) = greatest_by(valid, order, n - 1) {
            if valid[k] {
                assert(order[b][k] == semver_order(before_plus(c[b].1), before_plus(c[k].1)));
            }
        }
    }
}

/// The candidate `g` has a valid version, and no candidate with a valid
/// version is greater.
pub open spec fn is_latest(c: Seq<(int, Seq<char>)>, g: (int, Seq<char>)) -> bool {
    &&& semver_valid(before_plus(g.1))
    &&& forall|m: int|
        0 <= m < c.len() && semver_valid(before_plus(#[trigger] c[m].1)) ==> semver_order(
            before_plus(g.1),
            before_plus(c[m].1),
        ) != VersionOrder::Less
}

/// What the order answers on two version texts tell: swapping them swaps the
/// answer, and "not less" carries on through the second to any valid text.
spec fn order_facts(x: Seq<char>, y: Seq<char>) -> bool {
    &&& semver_order(y, x) == flipped(semver_order(x, y))
    &&& forall|z: Seq<char>|
        semver_valid(z) && semver_order(x, y) != VersionOrder::Less && #[trigger] semver_order(y, z)
            != VersionOrder::Less ==> semver_order(x, z) != VersionOrder::Less
}

fn greatest_candidate(c: &Vec<(usize, String)>) -> (r: Option<usize>)
    ensures
        (match r {
            Some(j) => Some(j as int),
            None => None,
        }) == (match greatest_version(cands_view(c@)) {
            Some(b) => Some(b.0),
            None => None,
        }),
        r matches Some(j) ==> exists|k: int|
            0 <= k < c@.len() && #[trigger] cands_view(c@)[k].0 == j && is_latest(
                cands_view(c@),
                cands_view(c@)[k],
            ),
{
    let ghost cv = cands_view(c@);
    let mut parsed: Vec<Option<ParsedVersion>> = Vec::new();
    let mut valid: Vec<bool> = Vec::new();
    let mut k: usize = 0;
    while k < c.len()
        invariant
            k <= c@.len(),
            cv == cands_view(c@),
            parsed@.len() == k,
            valid@.len() == k,
            forall|j: int| 0 <= j < k ==> (#[trigger] valid@[j]) == semver_valid(before_plus(cv[j].1)),
            forall|j: int| 0 <= j < k ==> (#[trigger] parsed@[j]) is Some == valid@[j],
            forall|j: int| 0 <= j < k ==> (#[trigger] parsed@[j] matches Some(p) ==> p.text() == before_plus(cv[j].1)),
        decreases c@.len() - k,
    {
        let core = version_before_plus(c[k].1.as_str());
        let p = parse_version(core.as_str());
        valid.push(p.is_some());
        parsed.push(p);
        k = k + 1;
    }
    let mut order: Vec<Vec<VersionOrder>> = Vec::new();
    let mut a: usize = 0;
    while a < c.len()
        invariant
            a <= c@.len(),
            cv == cands_view(c@),
            parsed@.len() == c@.len(),
            valid@.len() == c@.len(),
            forall|j: int| 0 <= j < c@.len() ==> (#[trigger] parsed@[j]) is Some == valid@[j],
            forall|j: int| 0 <= j < c@.len() ==> (#[trigger] parsed@[j] matches Some(p) ==> p.text() == before_plus(cv[j].1)),
            order@.len() == a,
            forall|x: int| 0 <= x < a ==> (#[trigger] order@[x])@.len() == c@.len(),
            forall|x: int, y: int| 0 <= x < a && 0 <= y < c@.len() && valid@[x] && valid@[y]
                ==> (#[trigger] order@[x]@[y]) == semver_order(before_plus(cv[x].1), before_plus(cv[y].1))
                && order_facts(before_plus(cv[x].1), before_plus(cv[y].1)),
        decreases c@.len() - a,
    {
        let mut row: Vec<VersionOrder> = Vec::new();
        let mut b: usize = 0;
        while b < c.len()
            invariant
                b <= c@.len(),
                a < c@.len(),
                parsed@.len() == c@.len(),
                valid@.len() == c@.len(),
                forall|j: int| 0 <= j < c@.len() ==> (#[trigger] parsed@[j]) is Some == valid@[j],
                forall|j: int| 0 <= j < c@.len() ==> (#[trigger] parsed@[j] matches Some(p) ==> p.text() == before_plus(cv[j].1)),
                row@.len() == b,
                forall|y: int| 0 <= y < b && valid@[a as int] && valid@[y]
                    ==> (#[trigger] row@[y]) == semver_order(before_plus(cv[a as int].1), before_plus(cv[y].1))
                    && order_facts(before_plus(cv[a as int].1), before_plus(cv[y].1)),
            decreases c@.len() - b,
        {
            let o = match (&parsed[a], &parsed[b]) {
                (Some(pa), Some(pb)) => order_versions(pa, pb),
                _ => VersionOrder::Equal,
            };
            row.push(o);
            b = b + 1;
        }
        order.push(row);
        a = a + 1;
    }
    let r = pick_greatest(&valid, &order);
    proof {
        let ov = order_view(order@);
        assert forall|x: int, y: int| 0 <= x < cv.len() && 0 <= y < cv.len() && valid@[x] && valid@[y]
            implies (#[trigger] ov[x][y]) == semver_order(before_plus(cv[x].1), before_plus(cv[y].1)) by {
            assert(ov[x] == order@[x]@);
            assert(order@[x]@[y] == semver_order(before_plus(cv[x].1), before_plus(cv[y].1)));
        }
        lemma_greatest_by_agrees(cv, valid@, ov, cv.len() as int);
        lemma_greatest_by_in_range(valid@, ov, cv.len() as int);
        assert(cv.take(cv.len() as int) =~= cv);
        assert(is_total_order_on(valid@, ov)) by {
            assert forall|x: int, y: int| 0 <= x < valid@.len() && 0 <= y < valid@.len() && valid@[x]
                && valid@[y] implies {
                &&& (#[trigger] ov[x][y] == VersionOrder::Greater) == (ov[y][x] == VersionOrder::Less)
                &&& (ov[x][y] == VersionOrder::Equal) == (ov[y][x] == VersionOrder::Equal)
            } by {
                assert(ov[x] == order@[x]@);
                assert(ov[y] == order@[y]@);
                assert(order_facts(before_plus(cv[x].1), before_plus(cv[y].1)));
            }
            assert forall|x: int, y: int, z: int|
                0 <= x < valid@.len() && 0 <= y < valid@.len() && 0 <= z < valid@.len() && valid@[x]
                    && valid@[y] && valid@[z] && #[trigger] ov[x][y] != VersionOrder::Less
                    && #[trigger] ov[y][z] != VersionOrder::Less implies ov[x][z] != VersionOrder::Less by {
                assert(ov[x] == order@[x]@);
                assert(ov[y] == order@[y]@);
                assert(order_facts(before_plus(cv[x].1), before_plus(cv[y].1)));
                assert(order@[y]@[z] == semver_order(before_plus(cv[y].1), before_plus(cv[z].1)));
                assert(order@[x]@[z] == semver_order(before_plus(cv[x].1), before_plus(cv[z].1)));
            }
        }
        lemma_greatest_is_maximal(valid@, ov, cv.len() as int);
        if let Some(b) = r {
            assert forall|m: int| 0 <= m < cv.len() && semver_valid(before_plus(#[trigger] cv[m].1))
                implies semver_order(before_plus(cv[b as int].1), before_plus(cv[m].1))
                != VersionOrder::Less by {
                assert(valid@[m]);
                assert(ov[b as int] == order@[b as int]@);
                assert(ov[b as int][m] != VersionOrder::Less);
            }
            assert(is_latest(cv, cv[b as int]));
        }
    }
    match r {
        Some(k) => {
            assert(cv[k as int].0 == c@[k as int].0 as int);
            Some(c[k].0)
        },
        None => None,
    }
}

fn select_in_dir(entries: &Vec<DirEntryInfo>, prefix: &str, version: Option<&str>) -> (r: Option<usize>)
    ensures
        (match r {
            Some(j) => Some(j as int),
            None => None,
        }) == select_in_listing(
            entries_view(entries@),
            prefix@,
            match version {
                Some(v) => Some(v@),
                None => None,
            },
        ),
        version is None ==> (r matches Some(j) ==> is_latest_entry(entries_view(entries@), prefix@, j as int)),
{
    let c = listing_candidates(entries, prefix);
    match version {
        Some(v) => first_with_version(&c, v),
        None => greatest_candidate(&c),
    }
}

/// Entry `j` of the listing is a candidate under `prefix` whose version is
/// valid and not less than any candidate's valid version.
pub open spec fn is_latest_entry(entries: Seq<EntryV>, prefix: Seq<char>, j: int) -> bool {
    exists|k: int|
        0 <= k < candidates(entries, prefix).len() && #[trigger] candidates(entries, prefix)[k].0 == j
            && is_latest(candidates(entries, prefix), candidates(entries, prefix)[k])
}

/// Finds the crate's directory among the listings of the registry's index
/// directories, taken in order: in the first index directory that has a
/// match, the first entry whose version starts with `version`, or without
/// one the greatest semantic version, so that no candidate in that index
/// directory has a greater one. Names compare with `_` and `-` alike. Gives the
/// index directory's position and the entry's position in its listing, or the
/// error message.
pub fn select_package_dir(package: &str, version: Option<&str>, listings: &Vec<Vec<DirEntryInfo>>) -> (r: Result<(usize, usize), String>)
    ensures
        (match r {
            Ok(p) => Ok((p.0 as int, p.1 as int)),
            Err(e) => Err(e@),
        }) == package_dir_outcome(
            package@,
            match version {
                Some(v) => Some(v@),
                None => None,
            },
            listings_view(listings@),
        ),
        version is None ==> (r matches Ok(p) ==> is_latest_entry(
            listings_view(listings@)[p.0 as int],
            package_prefix(package@),
            p.1 as int,
        )),
{
    let ghost vv = match version {
        Some(v) => Some(v@),
        None => None,
    };
    let ghost lv = listings_view(listings@);
    if listings.len() == 0 {
        let mut msg = String::new();
        msg.append("No crates.io index found in cargo registry. Run cargo build first.");
        return Err(msg);
    }
    let mut prefix = replace_char(package, '_', '-');
    prefix.append("-");
    let mut i: usize = 0;
    while i < listings.len()
        invariant
            i <= listings@.len(),
            lv == listings_view(listings@),
            prefix@ == package_prefix(package@),
            vv == (match version {
                Some(v) => Some(v@),
                None => None,
            }),
            select_in_listings(lv, 0, prefix@, vv) == select_in_listings(lv, i as int, prefix@, vv),
        decreases listings@.len() - i,
    {
        assert(lv.len() == listings@.len());
        assert(lv[i as int] == entries_view(listings@[i as int]@));
        let found = select_in_dir(&listings[i], prefix.as_str(), version);
        assert(select_in_listings(lv, i as int, prefix@, vv) == match select_in_listing(lv[i as int], prefix@, vv) {
            Some(j) => Some((i as int, j)),
            None => select_in_listings(lv, i + 1, prefix@, vv),
        });
        match found {
            Some(j) => {
                return Ok((i, j));
            },
            None => {},
        }
        i = i + 1;
    }
    let mut msg = String::new();
    msg.append("Package ");
    msg.append(package);
    match version {
        Some(v) => {
            msg.append(" v");
            msg.append(v);
            msg.append(" not found in cargo cache");
        },
        None => {
            msg.append(" not found in cargo cache");
        },
    }
    Err(msg)
}

} // verus!
