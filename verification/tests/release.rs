//! The update policy.
use localdocks::logic::release::{decide, Decision, Reason};

fn ignored(current: &str, candidate: &str) -> Reason {
    match decide(current, candidate) {
        Decision::Ignore(reason) => reason,
        Decision::Offer => panic!("{candidate} should not have been offered to {current}"),
    }
}

// --- the three cases the release brief names by number -----------------

#[test]
fn a_newer_patch_is_offered() {
    assert_eq!(decide("0.9.0", "0.9.1"), Decision::Offer);
}

#[test]
fn the_same_version_offers_nothing() {
    assert_eq!(ignored("0.9.1", "0.9.1"), Reason::AlreadyCurrent);
}

#[test]
fn an_older_version_is_never_a_downgrade() {
    assert_eq!(ignored("0.9.2", "0.9.1"), Reason::WouldDowngrade);
}

// --- prereleases -------------------------------------------------------

#[test]
fn a_prerelease_is_never_offered_on_the_stable_channel() {
    for candidate in ["0.9.1-beta", "0.9.1-rc.1", "1.0.0-alpha.2", "2.0.0-0"] {
        assert_eq!(
            ignored("0.9.0", candidate),
            Reason::Prerelease,
            "{candidate} reached the stable channel",
        );
    }
}

#[test]
fn a_prerelease_that_is_newer_by_ordering_is_still_refused() {
    // The trap: semver puts 0.9.1-rc.1 above 0.9.0, so an ordering-only
    // check offers it. This is why the prerelease guard runs first.
    assert!(
        semver::Version::parse("0.9.1-rc.1").unwrap()
            > semver::Version::parse("0.9.0").unwrap()
    );
    assert_eq!(ignored("0.9.0", "0.9.1-rc.1"), Reason::Prerelease);
}

#[test]
fn a_stable_release_reaches_someone_running_its_own_prerelease() {
    // Running 0.9.1-rc.1 and 0.9.1 ships: that is an upgrade, and someone
    // on a release candidate is exactly who should get it.
    assert_eq!(decide("0.9.1-rc.1", "0.9.1"), Decision::Offer);
}

// --- malformed feeds ---------------------------------------------------

#[test]
fn a_feed_that_is_not_a_version_changes_nothing() {
    for candidate in ["", "latest", "v0.9.1", "0.9", "0.9.1.4", "<html>", "  "] {
        assert_eq!(
            ignored("0.9.0", candidate),
            Reason::UnreadableCandidate,
            "{candidate:?} was parsed as a version",
        );
    }
}

#[test]
fn an_unreadable_installed_version_offers_nothing() {
    // Belt and braces: this cannot happen, because the installed version
    // comes from Cargo.toml through Tauri. If it ever does, the safe
    // behaviour is to do nothing rather than to guess.
    assert_eq!(ignored("not-a-version", "0.9.1"), Reason::UnreadableCurrent);
}

#[test]
fn surrounding_whitespace_is_tolerated() {
    assert_eq!(decide("0.9.0", " 0.9.1\n"), Decision::Offer);
}

// --- ordering that is easy to get wrong --------------------------------

#[test]
fn build_metadata_alone_is_not_a_new_release() {
    assert_eq!(ignored("0.9.1", "0.9.1+build.7"), Reason::AlreadyCurrent);
}

#[test]
fn versions_compare_numerically_not_as_text() {
    // "0.9.10" sorts before "0.9.9" as a string. It must not here.
    assert_eq!(decide("0.9.9", "0.9.10"), Decision::Offer);
    assert_eq!(ignored("0.9.10", "0.9.9"), Reason::WouldDowngrade);
    assert_eq!(decide("0.9.0", "0.10.0"), Decision::Offer);
    assert_eq!(ignored("0.10.0", "0.9.0"), Reason::WouldDowngrade);
}

#[test]
fn a_major_release_is_offered_like_any_other() {
    assert_eq!(decide("0.9.0", "1.0.0"), Decision::Offer);
}

#[test]
fn every_ignore_reason_can_explain_itself() {
    for reason in [
        Reason::AlreadyCurrent,
        Reason::WouldDowngrade,
        Reason::Prerelease,
        Reason::UnreadableCurrent,
        Reason::UnreadableCandidate,
    ] {
        assert!(!reason.as_str().is_empty());
    }
}
