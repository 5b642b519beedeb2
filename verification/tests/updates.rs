//! The update channel's decisions.
use localdocks::logic::release::Reason;
use localdocks::updates::{check_outcome, install_precheck, FeedAnswer, PendingChange, UpdateCheck};

fn found(version: &str, notes: Option<&str>) -> FeedAnswer {
    FeedAnswer::Found {
        version: version.to_string(),
        notes: notes.map(|n| n.to_string()),
        published_at: Some("2026-08-28 09:00:00.0 +00:00:00".to_string()),
    }
}

#[test]
fn a_store_install_never_asks_the_feed() {
    let (check, pending, _) = check_outcome(true, "0.9.0", None);
    match check {
        UpdateCheck::Unsupported { reason } => {
            assert_eq!(reason, "Installed from the Microsoft Store, which manages updates.")
        }
        other => panic!("expected unsupported, got {other:?}"),
    }
    assert_eq!(pending, PendingChange::Keep);
}

#[test]
fn a_newer_stable_release_is_offered_and_held() {
    let (check, pending, _) = check_outcome(false, "0.9.0", Some(found("0.9.1", Some("Fixes."))));
    match check {
        UpdateCheck::Available { current_version, version, notes, published_at } => {
            assert_eq!(current_version, "0.9.0");
            assert_eq!(version, "0.9.1");
            assert_eq!(notes.as_deref(), Some("Fixes."));
            assert_eq!(published_at.as_deref(), Some("2026-08-28 09:00:00.0 +00:00:00"));
        }
        other => panic!("expected an offer, got {other:?}"),
    }
    assert_eq!(pending, PendingChange::Hold);
}

#[test]
fn blank_release_notes_are_no_notes() {
    let (check, _, _) = check_outcome(false, "0.9.0", Some(found("0.9.1", Some("  \n "))));
    match check {
        UpdateCheck::Available { notes, .. } => assert_eq!(notes, None),
        other => panic!("expected an offer, got {other:?}"),
    }
}

#[test]
fn a_prerelease_or_an_older_version_reads_as_up_to_date() {
    for candidate in ["0.9.1-rc.1", "0.8.0", "0.9.0", "not a version"] {
        let (check, pending, _) = check_outcome(false, "0.9.0", Some(found(candidate, None)));
        match check {
            UpdateCheck::UpToDate { current_version } => assert_eq!(current_version, "0.9.0"),
            other => panic!("{candidate}: expected up to date, got {other:?}"),
        }
        assert_eq!(pending, PendingChange::Clear, "{candidate}");
    }
}

#[test]
fn nothing_advertised_clears_what_was_held() {
    let (check, pending, _) = check_outcome(false, "0.9.0", Some(FeedAnswer::NoUpdate));
    assert!(matches!(check, UpdateCheck::UpToDate { .. }));
    assert_eq!(pending, PendingChange::Clear);
}

#[test]
fn a_failed_check_is_a_quiet_state_that_keeps_what_was_held() {
    let (check, pending, _) = check_outcome(false, "0.9.0", Some(FeedAnswer::Unreachable));
    match check {
        UpdateCheck::Failed { reason } => assert_eq!(reason, "Could not reach GitHub to check for updates."),
        other => panic!("expected a failure, got {other:?}"),
    }
    assert_eq!(pending, PendingChange::Keep);

    let (check, pending, _) = check_outcome(false, "0.9.0", Some(FeedAnswer::NotConfigured));
    match check {
        UpdateCheck::Failed { reason } => assert_eq!(reason, "The update service is unavailable in this build."),
        other => panic!("expected a failure, got {other:?}"),
    }
    assert_eq!(pending, PendingChange::Keep);
}

#[test]
fn an_install_needs_a_checked_update_and_a_self_updating_install() {
    assert_eq!(
        install_precheck(true, true),
        Err("This installation is managed by the Microsoft Store.".to_string())
    );
    assert_eq!(
        install_precheck(false, false),
        Err("No update is ready to install. Check for updates first.".to_string())
    );
    assert_eq!(install_precheck(false, true), Ok(()));
}

#[test]
fn an_ignored_release_carries_the_reason_it_was_ignored() {
    let (_, _, why) = check_outcome(false, "0.9.0", Some(found("0.9.1-rc.1", None)));
    assert_eq!(why, Some(Reason::Prerelease));
    let (_, _, why) = check_outcome(false, "0.9.2", Some(found("0.9.1", None)));
    assert_eq!(why, Some(Reason::WouldDowngrade));
    let (_, _, why) = check_outcome(false, "0.9.0", Some(found("0.9.1", None)));
    assert_eq!(why, None);
}
