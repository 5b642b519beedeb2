//! Identity checks and what a refused operation answers.
use localdocks::errors::SystemError;
use localdocks::models::{FieldState, TerminateResult};
use localdocks::platform::windows::control::{
    detail_for, identity_check, verified_detail, shell_outcome, terminate_failure, terminate_refusal, url_for_shell,
    AccessOutcome,
};

/// 2026-08-28T09:00:00.000Z as a FILETIME's two halves.
fn created() -> (u32, u32) {
    let ticks: u64 = 116_444_736_000_000_000 + 1_787_907_600_000 * 10_000;
    (ticks as u32, (ticks >> 32) as u32)
}

#[test]
fn the_identity_that_was_recorded_is_verified() {
    let (low, high) = created();
    assert!(matches!(
        identity_check(low, high, "2026-08-28T09:00:00.000Z"),
        AccessOutcome::Verified
    ));
}

#[test]
fn a_recycled_pid_is_a_mismatch_that_names_the_new_start() {
    let (low, high) = created();
    match identity_check(low, high, "2026-08-28T08:00:00.000Z") {
        AccessOutcome::IdentityMismatch { actual } => assert_eq!(actual, "2026-08-28T09:00:00.000Z"),
        other => panic!("expected a mismatch, got {other:?}"),
    }
}

#[test]
fn details_for_a_process_that_cannot_be_read_say_why() {
    let id = "8420-2026-08-28T09:00:00.000Z".to_string();
    let denied = detail_for(&id, &AccessOutcome::Denied).unwrap();
    assert_eq!(denied.process_id, id);
    assert!(matches!(denied.executable, FieldState::Denied));
    assert!(matches!(denied.command_line, FieldState::Denied));
    assert!(matches!(denied.working_directory, FieldState::Denied));

    for outcome in [AccessOutcome::Gone, AccessOutcome::IdentityMismatch { actual: "x".into() }] {
        let d = detail_for(&id, &outcome).unwrap();
        assert!(matches!(d.executable, FieldState::Unavailable));
        assert!(matches!(d.command_line, FieldState::Unavailable));
        assert!(matches!(d.working_directory, FieldState::Unavailable));
    }
    assert!(detail_for(&id, &AccessOutcome::Verified).is_none());
}

#[test]
fn a_stale_identity_is_refused_rather_than_terminated() {
    match terminate_refusal(8420, &AccessOutcome::IdentityMismatch { actual: "2026-08-28T10:00:00.000Z".into() }) {
        Some(TerminateResult::Stale { message }) => assert_eq!(
            message,
            "PID 8420 now belongs to a different process, started at 2026-08-28T10:00:00.000Z. Nothing was terminated."
        ),
        other => panic!("expected stale, got {other:?}"),
    }
}

#[test]
fn terminating_a_vanished_pid_reports_stale_not_success() {
    match terminate_refusal(4242, &AccessOutcome::Gone) {
        Some(TerminateResult::Stale { message }) => assert_eq!(
            message,
            "PID 4242 is no longer running. It exited before this action reached it."
        ),
        other => panic!("expected stale, got {other:?}"),
    }
    assert!(matches!(terminate_refusal(1, &AccessOutcome::Denied), Some(TerminateResult::Denied)));
    assert!(terminate_refusal(1, &AccessOutcome::Verified).is_none());
}

#[test]
fn a_failed_terminate_says_what_windows_said() {
    assert!(matches!(terminate_failure(7, true, "ignored"), TerminateResult::Denied));
    match terminate_failure(7, false, "The handle is invalid.") {
        TerminateResult::Failed { message } => {
            assert_eq!(message, "Windows refused to terminate PID 7: The handle is invalid.")
        }
        other => panic!("expected a failure, got {other:?}"),
    }
}

#[test]
fn a_refused_url_never_reaches_the_shell() {
    for bad in [
        "javascript:alert(1)",
        "file:///C:/Windows/System32/cmd.exe",
        "shell:startup",
        "http://localhost\0javascript:alert(1)",
        "",
    ] {
        let e = url_for_shell(bad).expect_err("a refused URL");
        assert!(matches!(e, SystemError::RejectedUrl { .. }), "{bad} should be a URL rejection");
    }
    assert_eq!(url_for_shell("http://localhost:5173"), Ok("http://localhost:5173"));
}

#[test]
fn the_shell_answer_above_thirty_two_is_success() {
    assert!(shell_outcome(33).is_ok());
    match shell_outcome(2) {
        Err(SystemError::ApiFailure { call, code, message }) => {
            assert_eq!(call, "ShellExecuteW");
            assert_eq!(code, 2);
            assert_eq!(message, "Windows could not open the URL. Is a browser registered for http links?");
        }
        other => panic!("expected a failure, got {other:?}"),
    }
}

#[test]
fn details_for_a_vanished_process_are_unavailable() {
    // A PID that does not exist opens as `Gone`.
    let id = localdocks::models::make_process_id(0xFFFF_FFF0, "2026-08-28T09:00:00.000Z");
    let detail = detail_for(&id, &AccessOutcome::Gone).expect("a vanished process is refused");
    assert!(matches!(detail.executable, FieldState::Unavailable));
    assert!(matches!(detail.command_line, FieldState::Unavailable));
    assert_eq!(detail.process_id, id);
}

#[test]
fn a_verified_detail_never_claims_a_working_directory() {
    let id = localdocks::models::make_process_id(8420, "2026-08-28T09:00:00.000Z");
    let d = verified_detail(
        &id,
        FieldState::Value { value: "C:\\bin\\node.exe".to_string() },
        FieldState::Unavailable,
    );
    assert_eq!(d.process_id, id);
    assert!(matches!(d.executable, FieldState::Value { ref value } if value == "C:\\bin\\node.exe"));
    assert!(matches!(d.command_line, FieldState::Unavailable));
    assert!(matches!(d.working_directory, FieldState::Unavailable));
}

#[test]
fn a_creation_time_outside_the_convertible_range_verifies_nothing() {
    // -2^63 ticks: the shift to the Unix epoch leaves 64 bits.
    assert!(matches!(
        identity_check(0, 0x8000_0000, "2026-08-28T09:00:00.000Z"),
        AccessOutcome::Gone
    ));
}
