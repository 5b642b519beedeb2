//! Release-channel policy: given the installed version and the version a
//! release feed advertises, decide whether to offer an update.
//!
//! Two rules, each a second, independent guard behind the feed itself:
//!
//!   1. **Never downgrade.** A feed behind the installed build is ignored.
//!   2. **Never offer a prerelease on the stable channel.**
//!
//! Build metadata is ignored, as semver says it must be.
use vstd::prelude::*;

use crate::text::{chars_of, string_of, trim, trim_chars};

verus! {

/// The parts of a semantic version that the policy reads.
#[derive(Debug, Clone)]
pub struct VersionParts {
    pub major: u64,
    pub minor: u64,
    pub patch: u64,
    /// The prerelease identifiers, `""` for a release.
    pub pre: String,
}

/// What `semver::Version::parse` makes of a text: major, minor, patch and
/// prerelease text, or nothing when the text is not a semantic version.
pub uninterp spec fn semver_parse(text: Seq<char>) -> Option<(u64, u64, u64, Seq<char>)>;

pub open spec fn parts_view(p: Option<VersionParts>) -> Option<(u64, u64, u64, Seq<char>)> {
    match p {
        Some(v) => Some((v.major, v.minor, v.patch, v.pre@)),
        None => None,
    }
}

/// `semver::Version::parse`, reduced to the parts the policy reads.
#[verifier::external_body]
fn parse_version(text: &str) -> (r: Option<VersionParts>)
    ensures
        parts_view(r) == semver_parse(text@),
{
    match semver::Version::parse(text) {
        Ok(v) => Some(
            VersionParts {
                major: v.major,
                minor: v.minor,
                patch: v.patch,
                pre: v.pre.as_str().to_string(),
            },
        ),
        Err(_) => None,
    }
}

/// What to do with an advertised version.
#[derive(Debug, Clone, Copy, PartialEq, Eq, Structural)]
pub enum Decision {
    /// Newer, stable, parseable. Offer it.
    Offer,
    /// Nothing to do, and why.
    Ignore(Reason),
}

/// Why an advertised version was not offered.
#[derive(Debug, Clone, Copy, PartialEq, Eq, Structural)]
pub enum Reason {
    /// Same version.
    AlreadyCurrent,
    /// The feed is behind the installed build.
    WouldDowngrade,
    /// A prerelease on the stable channel.
    Prerelease,
    /// The installed version is not semver.
    UnreadableCurrent,
    /// The feed advertised something that is not a version.
    UnreadableCandidate,
}

impl Reason {
    pub open spec fn spec_as_str(self) -> &'static str {
        match self {
            Reason::AlreadyCurrent => "already current",
            Reason::WouldDowngrade => "candidate is older than the installed version",
            Reason::Prerelease => "candidate is a prerelease and this is the stable channel",
            Reason::UnreadableCurrent => "the installed version is not valid semver",
            Reason::UnreadableCandidate => "the feed advertised something that is not a version",
        }
    }

    /// A short phrase for a log line.
    pub fn as_str(self) -> (r: &'static str)
        ensures
            r == self.spec_as_str(),
    {
        match self {
            Reason::AlreadyCurrent => "already current",
            Reason::WouldDowngrade => "candidate is older than the installed version",
            Reason::Prerelease => "candidate is a prerelease and this is the stable channel",
            Reason::UnreadableCurrent => "the installed version is not valid semver",
            Reason::UnreadableCandidate => "the feed advertised something that is not a version",
        }
    }
}

/// `(major, minor, patch)` of `a` is lexicographically greater than `b`'s.
pub open spec fn triple_gt(a: (u64, u64, u64, Seq<char>), b: (u64, u64, u64, Seq<char>)) -> bool {
    a.0 > b.0 || (a.0 == b.0 && (a.1 > b.1 || (a.1 == b.1 && a.2 > b.2)))
}

pub open spec fn same_triple(a: (u64, u64, u64, Seq<char>), b: (u64, u64, u64, Seq<char>)) -> bool {
    a.0 == b.0 && a.1 == b.1 && a.2 == b.2
}

/// The policy on parsed versions. A prerelease candidate is refused before
/// any ordering. A stable candidate is compared with the installed version by
/// semver precedence: by `(major, minor, patch)`, and on a tie a release
/// ranks above a prerelease of the same numbers.
pub open spec fn spec_decide_parsed(
    current: Option<(u64, u64, u64, Seq<char>)>,
    candidate: Option<(u64, u64, u64, Seq<char>)>,
) -> Decision {
    match current {
        None => Decision::Ignore(Reason::UnreadableCurrent),
        Some(cur) => match candidate {
            None => Decision::Ignore(Reason::UnreadableCandidate),
            Some(cand) => if cand.3.len() > 0 {
                Decision::Ignore(Reason::Prerelease)
            } else if triple_gt(cand, cur) || (same_triple(cand, cur) && cur.3.len() > 0) {
                Decision::Offer
            } else if same_triple(cand, cur) {
                Decision::Ignore(Reason::AlreadyCurrent)
            } else {
                Decision::Ignore(Reason::WouldDowngrade)
            },
        },
    }
}

/// The decision on two parsed versions.
pub fn decide_parsed(current: &Option<VersionParts>, candidate: &Option<VersionParts>) -> (d: Decision)
    ensures
        d == spec_decide_parsed(parts_view(*current), parts_view(*candidate)),
{
    let cur = match current {
        None => return Decision::Ignore(Reason::UnreadableCurrent),
        Some(c) => c,
    };
    let cand = match candidate {
        None => return Decision::Ignore(Reason::UnreadableCandidate),
        Some(c) => c,
    };
    let cand_pre = chars_of(cand.pre.as_str());
    if cand_pre.len() > 0 {
        return Decision::Ignore(Reason::Prerelease);
    }
    let cur_pre = chars_of(cur.pre.as_str());
    let greater = cand.major > cur.major || (cand.major == cur.major && (cand.minor > cur.minor || (
    cand.minor == cur.minor && cand.patch > cur.patch)));
    let same = cand.major == cur.major && cand.minor == cur.minor && cand.patch == cur.patch;
    if greater || (same && cur_pre.len() > 0) {
        Decision::Offer
    } else if same {
        Decision::Ignore(Reason::AlreadyCurrent)
    } else {
        Decision::Ignore(Reason::WouldDowngrade)
    }
}

pub open spec fn spec_decide(current: Seq<char>, candidate: Seq<char>) -> Decision {
    spec_decide_parsed(semver_parse(trim(current)), semver_parse(trim(candidate)))
}

/// Decide whether `candidate` should be offered to someone running
/// `current`. Surrounding whitespace on either is ignored.
pub fn decide(current: &str, candidate: &str) -> (d: Decision)
    ensures
        d == spec_decide(current@, candidate@),
{
    let cur_text = string_of(trim_chars(chars_of(current).as_slice()).as_slice());
    let cand_text = string_of(trim_chars(chars_of(candidate).as_slice()).as_slice());
    let cur = parse_version(cur_text.as_str());
    let cand = parse_version(cand_text.as_str());
    decide_parsed(&cur, &cand)
}

/// A prerelease is never offered on the stable channel, whatever the
/// installed version.
pub proof fn law_never_offer_prerelease(current: Seq<char>, candidate: Seq<char>)
    requires
        semver_parse(trim(candidate)) matches Some(c) && c.3.len() > 0,
    ensures
        spec_decide(current, candidate) != Decision::Offer,
{
}

/// An offered version is never behind the installed one: its
/// `(major, minor, patch)` is at least the installed version's.
pub proof fn law_never_downgrade(current: Seq<char>, candidate: Seq<char>)
    requires
        spec_decide(current, candidate) == Decision::Offer,
    ensures
        semver_parse(trim(current)) matches Some(cur) && semver_parse(trim(candidate)) matches Some(
            cand,
        ) && (triple_gt(cand, cur) || same_triple(cand, cur)),
{
}

/// Offering is one-way: if `b` is offered to someone running `a`, then `a`
/// is never offered to someone running `b`.
pub proof fn law_offer_is_one_way(a: Seq<char>, b: Seq<char>)
    requires
        spec_decide(a, b) == Decision::Offer,
    ensures
        spec_decide(b, a) != Decision::Offer,
{
}

/// A version is never offered to itself unless it was a prerelease being
/// replaced by the same numbers' release, which cannot be the same text.
pub proof fn law_same_version_is_not_offered(v: Seq<char>)
    ensures
        spec_decide(v, v) != Decision::Offer,
{
}

/// Semver precedence between two parsed versions, written out: the major,
/// minor and patch numbers compared in that order, and on equal numbers a
/// release ranks above a prerelease.
pub open spec fn ranks_above(a: (u64, u64, u64, Seq<char>), b: (u64, u64, u64, Seq<char>)) -> bool {
    ||| a.0 > b.0
    ||| a.0 == b.0 && a.1 > b.1
    ||| a.0 == b.0 && a.1 == b.1 && a.2 > b.2
    ||| a.0 == b.0 && a.1 == b.1 && a.2 == b.2 && a.3.len() == 0 && b.3.len() > 0
}

/// An update is offered exactly when both versions are readable, the
/// candidate is a release rather than a prerelease, and the candidate ranks
/// above the installed version by semver precedence. So a newer minor or
/// major version is always offered, whatever its lower numbers: 0.10.0 is
/// offered to 0.9.5, and 1.0.0 to 0.99.99.
pub proof fn law_offered_exactly_when_newer_and_stable(
    current: Option<(u64, u64, u64, Seq<char>)>,
    candidate: Option<(u64, u64, u64, Seq<char>)>,
)
    ensures
        (spec_decide_parsed(current, candidate) == Decision::Offer) <==> (current is Some && candidate is Some
            && candidate->Some_0.3.len() == 0 && ranks_above(candidate->Some_0, current->Some_0)),
        current is Some && candidate is Some && candidate->Some_0.3.len() == 0 && !ranks_above(
            candidate->Some_0,
            current->Some_0,
        ) && !(candidate->Some_0.0 == current->Some_0.0 && candidate->Some_0.1 == current->Some_0.1
            && candidate->Some_0.2 == current->Some_0.2) ==> spec_decide_parsed(current, candidate)
            == Decision::Ignore(Reason::WouldDowngrade),
{
}

/// Every refusal names its reason, and each reason comes on exactly its own
/// inputs: an unreadable installed version first, then an unreadable
/// candidate, then a prerelease candidate; a readable release candidate is
/// already current when it has the installed version's numbers on a release,
/// and would be a downgrade exactly when the installed version ranks above it.
pub proof fn law_each_refusal_has_its_reason(
    current: Option<(u64, u64, u64, Seq<char>)>,
    candidate: Option<(u64, u64, u64, Seq<char>)>,
)
    ensures
        current is None ==> spec_decide_parsed(current, candidate) == Decision::Ignore(Reason::UnreadableCurrent),
        current is Some && candidate is None ==> spec_decide_parsed(current, candidate) == Decision::Ignore(
            Reason::UnreadableCandidate,
        ),
        current is Some && candidate is Some && candidate->Some_0.3.len() > 0 ==> spec_decide_parsed(
            current,
            candidate,
        ) == Decision::Ignore(Reason::Prerelease),
        current is Some && candidate is Some && candidate->Some_0.3.len() == 0 ==> ({
            let cur = current->Some_0;
            let c = candidate->Some_0;
            &&& (spec_decide_parsed(current, candidate) == Decision::Ignore(Reason::AlreadyCurrent)) <==> (c.0
                == cur.0 && c.1 == cur.1 && c.2 == cur.2 && cur.3.len() == 0)
            &&& (spec_decide_parsed(current, candidate) == Decision::Ignore(Reason::WouldDowngrade)) <==> ranks_above(
                cur,
                c,
            )
        }),
{
}

/// The same, on the texts: a readable release candidate whose version ranks
/// above the installed one is always offered.
pub proof fn law_newer_release_is_offered(current: Seq<char>, candidate: Seq<char>)
    requires
        semver_parse(trim(current)) is Some,
        semver_parse(trim(candidate)) matches Some(c) && c.3.len() == 0,
        ranks_above(semver_parse(trim(candidate))->Some_0, semver_parse(trim(current))->Some_0),
    ensures
        spec_decide(current, candidate) == Decision::Offer,
{
    law_offered_exactly_when_newer_and_stable(semver_parse(trim(current)), semver_parse(trim(candidate)));
}

} // verus!
