//! Semantic versions, read and ordered by the `semver` crate.
use vstd::prelude::*;

verus! {

#[verifier::external_type_specification]
#[verifier::external_body]
pub struct ExSemverVersion(semver::Version);

/// How two versions are ordered.
#[derive(Debug, Clone, Copy, PartialEq, Eq, Structural)]
pub enum VersionOrder {
    Less,
    Equal,
    Greater,
}

/// Whether `semver::Version::parse` accepts the text.
pub uninterp spec fn semver_valid(text: Seq<char>) -> bool;

/// How the versions parsed from the two texts are ordered (`Ord for semver::Version`).
pub uninterp spec fn semver_order(a: Seq<char>, b: Seq<char>) -> VersionOrder;

/// The answer with its two sides swapped.
pub open spec fn flipped(o: VersionOrder) -> VersionOrder {
    match o {
        VersionOrder::Less => VersionOrder::Greater,
        VersionOrder::Equal => VersionOrder::Equal,
        VersionOrder::Greater => VersionOrder::Less,
    }
}

/// A parsed version together with the text it was parsed from. Only
/// [`parse_version`] makes one, so `version` is always the parse of `text`.
pub struct ParsedVersion {
    text: String,
    version: semver::Version,
}

impl ParsedVersion {
    /// The text this version was parsed from.
    pub closed spec fn text(&self) -> Seq<char> {
        self.text@
    }
}

/// `semver::Version::parse`: the version, or `None` where the text is not one.
/// Claims that success is decided by the text alone.
#[verifier::external_body]
pub(crate) fn parse_version(text: &str) -> (r: Option<ParsedVersion>)
    ensures
        r is Some <==> semver_valid(text@),
        r matches Some(v) ==> v.text() == text@,
{
    semver::Version::parse(text).ok().map(|version| ParsedVersion { text: text.to_string(), version })
}

/// `Ord::cmp` on `semver::Version`: how the two versions are ordered. As `Ord`
/// requires of every implementation, and as the derived order on the version's
/// numbers and the hand-written orders on its pre-release and build parts
/// give, swapping the sides swaps the answer, and "not less" carries on from
/// `b` to any version that `b` is not less than.
#[verifier::external_body]
pub(crate) fn order_versions(a: &ParsedVersion, b: &ParsedVersion) -> (r: VersionOrder)
    ensures
        r == semver_order(a.text(), b.text()),
        semver_order(b.text(), a.text()) == flipped(r),
        forall|c: Seq<char>|
            semver_valid(c) && r != VersionOrder::Less && #[trigger] semver_order(b.text(), c)
                != VersionOrder::Less ==> semver_order(a.text(), c) != VersionOrder::Less,
{
    match a.version.cmp(&b.version) {
        std::cmp::Ordering::Less => VersionOrder::Less,
        std::cmp::Ordering::Equal => VersionOrder::Equal,
        std::cmp::Ordering::Greater => VersionOrder::Greater,
    }
}

} // verus!
