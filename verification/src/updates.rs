//! The update channel's decisions.
//!
//! An install from the Microsoft Store leaves updates to the Store. For any
//! other install the feed is asked, and whatever it advertises passes through
//! the release policy before it is offered: never a prerelease, never a
//! downgrade. Every outcome is an ordinary state the UI renders; none is an
//! error the user must act on.
use vstd::prelude::*;

use crate::logic::release::{
    decide, law_never_downgrade, same_triple, semver_parse, spec_decide, triple_gt, Decision, Reason,
};
use crate::text::{chars_of, string_of, trim, trim_chars};

verus! {

/// Whether this install can update itself, and the version running now.
#[derive(Debug, Clone)]
pub struct UpdateCapability {
    /// True when running from an MSIX: the Store owns updates.
    pub managed_by_store: bool,
    pub current_version: String,
}

/// The outcome of one check.
#[derive(Debug, Clone)]
pub enum UpdateCheck {
    /// Nothing to do; also the answer when the feed is behind or offers a
    /// prerelease.
    UpToDate { current_version: String },
    /// A newer stable release passed the policy.
    Available {
        current_version: String,
        version: String,
        notes: Option<String>,
        published_at: Option<String>,
    },
    /// This install does not update itself.
    Unsupported { reason: String },
    /// The check could not be completed; the app is unaffected.
    Failed { reason: String },
}

/// What the update feed answered when it was asked.
#[derive(Debug, Clone)]
pub enum FeedAnswer {
    /// The updater is misconfigured in this build.
    NotConfigured,
    /// The feed could not be reached or read.
    Unreachable,
    /// The feed advertises nothing newer.
    NoUpdate,
    /// The feed advertises a release.
    Found { version: String, notes: Option<String>, published_at: Option<String> },
}

/// What becomes of the update held for installing.
#[derive(Debug, Clone, Copy, PartialEq, Eq, Structural)]
pub enum PendingChange {
    /// Left as it was.
    Keep,
    /// Nothing is held any more.
    Clear,
    /// The release just offered is held, so what gets installed is what was
    /// checked and shown.
    Hold,
}

pub open spec fn store_reason() -> Seq<char> {
    "Installed from the Microsoft Store, which manages updates."@
}

pub open spec fn misconfigured_reason() -> Seq<char> {
    "The update service is unavailable in this build."@
}

pub open spec fn unreachable_reason() -> Seq<char> {
    "Could not reach GitHub to check for updates."@
}

/// Release notes that are blank after trimming are no notes.
pub open spec fn kept_notes(notes: Option<String>) -> Option<Seq<char>> {
    match notes {
        Some(n) => if trim(n@).len() > 0 {
            Some(n@)
        } else {
            None
        },
        None => None,
    }
}

pub open spec fn opt_text(o: Option<String>) -> Option<Seq<char>> {
    match o {
        Some(s) => Some(s@),
        None => None,
    }
}

/// `r` is the check outcome for an install that is Store-managed or not,
/// running `current`, when the feed answered `answer` (not asked for a
/// Store-managed install).
pub open spec fn check_result(
    packaged: bool,
    current: Seq<char>,
    answer: Option<FeedAnswer>,
    r: (UpdateCheck, PendingChange, Option<Reason>),
) -> bool {
    &&& r.2 == (if packaged {
        None
    } else {
        match answer {
            Some(FeedAnswer::Found { version, .. }) => match spec_decide(current, version@) {
                Decision::Ignore(reason) => Some(reason),
                Decision::Offer => None,
            },
            _ => None,
        }
    })
    &&& if packaged {
        r.0 matches UpdateCheck::Unsupported { reason } && reason@ == store_reason() && r.1 == PendingChange::Keep
    } else {
        match answer {
            Some(FeedAnswer::NotConfigured) => r.0 matches UpdateCheck::Failed { reason } && reason@
                == misconfigured_reason() && r.1 == PendingChange::Keep,
            Some(FeedAnswer::Unreachable) => r.0 matches UpdateCheck::Failed { reason } && reason@
                == unreachable_reason() && r.1 == PendingChange::Keep,
            Some(FeedAnswer::NoUpdate) => r.0 matches UpdateCheck::UpToDate { current_version } && current_version@
                == current && r.1 == PendingChange::Clear,
            Some(FeedAnswer::Found { version, notes, published_at }) => match spec_decide(current, version@) {
                Decision::Offer => r.0 matches UpdateCheck::Available {
                    current_version,
                    version: v,
                    notes: n,
                    published_at: p,
                } && current_version@ == current && v@ == version@ && opt_text(n) == kept_notes(notes)
                    && opt_text(p) == opt_text(published_at) && r.1 == PendingChange::Hold,
                Decision::Ignore(_) => r.0 matches UpdateCheck::UpToDate { current_version }
                    && current_version@ == current && r.1 == PendingChange::Clear,
            },
            None => false,
        }
    }
}

fn text_of(s: &str) -> (r: String)
    ensures
        r@ == s@,
{
    string_of(chars_of(s).as_slice())
}

/// Decide what one check comes to. The feed is asked only for an install
/// that is not Store-managed; whatever it advertises is offered only when
/// the release policy says so.
pub fn check_outcome(packaged: bool, current: &str, answer: Option<FeedAnswer>) -> (r: (
    UpdateCheck,
    PendingChange,
    Option<Reason>,
))
    requires
        packaged || answer is Some,
    ensures
        check_result(packaged, current@, answer, r),
{
    if packaged {
        let reason = text_of("Installed from the Microsoft Store, which manages updates.");
        return (UpdateCheck::Unsupported { reason }, PendingChange::Keep, None);
    }
    match answer {
        Some(FeedAnswer::NotConfigured) => {
            let reason = text_of("The update service is unavailable in this build.");
            (UpdateCheck::Failed { reason }, PendingChange::Keep, None)
        },
        Some(FeedAnswer::Unreachable) => {
            let reason = text_of("Could not reach GitHub to check for updates.");
            (UpdateCheck::Failed { reason }, PendingChange::Keep, None)
        },
        Some(FeedAnswer::NoUpdate) => (
            UpdateCheck::UpToDate { current_version: text_of(current) },
            PendingChange::Clear,
            None,
        ),
        Some(FeedAnswer::Found { version, notes, published_at }) => {
            match decide(current, version.as_str()) {
                Decision::Offer => {
                    let kept = match notes {
                        Some(n) => {
                            let trimmed = trim_chars(chars_of(n.as_str()).as_slice());
                            if trimmed.len() > 0 {
                                Some(n)
                            } else {
                                None
                            }
                        },
                        None => None,
                    };
                    (
                        UpdateCheck::Available {
                            current_version: text_of(current),
                            version,
                            notes: kept,
                            published_at,
                        },
                        PendingChange::Hold,
                        None,
                    )
                },
                Decision::Ignore(reason) => (
                    UpdateCheck::UpToDate { current_version: text_of(current) },
                    PendingChange::Clear,
                    Some(reason),
                ),
            }
        },
        None => {
            proof {
                assert(false);
            }
            (UpdateCheck::UpToDate { current_version: text_of(current) }, PendingChange::Keep, None)
        },
    }
}

/// An update is offered only to an install that updates itself, only when
/// the feed advertised it, and only when it is a stable release that is not
/// behind the running version; it is then the one held for installing.
pub proof fn law_offered_update_is_stable_and_not_older(
    packaged: bool,
    current: Seq<char>,
    answer: Option<FeedAnswer>,
    r: (UpdateCheck, PendingChange, Option<Reason>),
)
    requires
        check_result(packaged, current, answer, r),
        r.0 is Available,
    ensures
        !packaged,
        r.1 == PendingChange::Hold,
        answer matches Some(FeedAnswer::Found { version, .. }) && r.0->Available_version@ == version@,
        answer matches Some(FeedAnswer::Found { version, .. }) && (semver_parse(trim(version@)) matches Some(
            cand,
        ) && cand.3.len() == 0 && (semver_parse(trim(current)) matches Some(cur) && (triple_gt(cand, cur)
            || same_triple(cand, cur)))),
{
    if let Some(FeedAnswer::Found { version, .. }) = answer {
        law_never_downgrade(current, version@);
    }
}

pub open spec fn store_managed_message() -> Seq<char> {
    "This installation is managed by the Microsoft Store."@
}

pub open spec fn nothing_pending_message() -> Seq<char> {
    "No update is ready to install. Check for updates first."@
}

/// Whether an install may start. Nothing is downloaded that a check did not
/// first offer, and a Store-managed install is never touched.
pub fn install_precheck(packaged: bool, has_pending: bool) -> (r: Result<(), String>)
    ensures
        packaged ==> (r matches Err(m) && m@ == store_managed_message()),
        !packaged && !has_pending ==> (r matches Err(m) && m@ == nothing_pending_message()),
        !packaged && has_pending ==> r is Ok,
{
    if packaged {
        return Err(text_of("This installation is managed by the Microsoft Store."));
    }
    if !has_pending {
        return Err(text_of("No update is ready to install. Check for updates first."));
    }
    Ok(())
}

/// What each answer comes to. A Store install is told the Store manages
/// updates and nothing held changes. A failed check is a quiet failure that
/// keeps what was held. No update, or one the policy declines, reads as up to
/// date and clears what was held. A release the policy offers is shown and
/// held. A reason is given exactly when an advertised release was declined.
pub proof fn law_each_answer_has_one_outcome(
    packaged: bool,
    current: Seq<char>,
    answer: Option<FeedAnswer>,
    r: (UpdateCheck, PendingChange, Option<Reason>),
)
    requires
        check_result(packaged, current, answer, r),
    ensures
        packaged ==> r.0 is Unsupported && r.1 == PendingChange::Keep && r.2 is None,
        !packaged && (answer == Some(FeedAnswer::NotConfigured) || answer == Some(FeedAnswer::Unreachable))
            ==> r.0 is Failed && r.1 == PendingChange::Keep && r.2 is None,
        !packaged && answer == Some(FeedAnswer::NoUpdate) ==> r.0 is UpToDate && r.1 == PendingChange::Clear
            && r.2 is None,
        !packaged && answer is Some && answer->Some_0 is Found ==> {
            let version = answer->Some_0->Found_version;
            &&& (r.0 is Available <==> spec_decide(current, version@) == Decision::Offer)
            &&& (r.0 is Available ==> r.1 == PendingChange::Hold && r.2 is None)
            &&& (!(r.0 is Available) ==> r.0 is UpToDate && r.1 == PendingChange::Clear && r.2 is Some)
        },
        r.0 is UpToDate ==> r.0->UpToDate_current_version@ == current,
{
}

} // verus!
