//! The sampler's tick.
use std::collections::HashSet;
use std::sync::atomic::{AtomicUsize, Ordering};

use localdocks::errors::SystemError;
use localdocks::logic::ports::{IpAddress, RawEndpoint};
use localdocks::logic::process::{ProcessProbe, RawProcess};
use localdocks::models::{Protocol, Relevance, Snapshot};
use localdocks::sampler::{empty_snapshot, validate_interval, SamplerState, MAX_INTERVAL_MS, MIN_INTERVAL_MS};

/// Identities in a snapshot must be unique.
fn has_unique_identities(snapshot: &Snapshot) -> bool {
    let mut seen = HashSet::with_capacity(snapshot.processes.len());
    snapshot.processes.iter().all(|p| seen.insert(&p.id))
}

/// A command-line reader that always fails: no service can be promoted to
/// Developer by accident.
fn no_command_lines(_pid: u32, _started_at: &str) -> Option<String> {
    None
}

const T0: i64 = 1_787_907_600_000;

fn raw(pid: u32, created_at_millis: i64) -> RawProcess {
    RawProcess {
        pid,
        parent_pid: 4,
        name: "node.exe".into(),
        thread_count: 3,
        probe: ProcessProbe::Read {
            created_at_millis,
            cpu_time_100ns: 0,
            working_set_bytes: 4096,
        },
    }
}

fn socket(port: u16, pid: u32) -> RawEndpoint {
    RawEndpoint {
        protocol: Protocol::Tcp,
        address: IpAddress::V4(0x7f00_0001),
        scope_id: 0,
        port,
        pid,
    }
}

fn state() -> SamplerState {
    SamplerState::new(4, 1000, T0)
}

/// One tick, and the snapshot it left in state.
fn tick<F: Fn(u32, &str) -> Option<String>>(
    s: &mut SamplerState,
    captured_at_millis: i64,
    raw: &[RawProcess],
    endpoints: &[RawEndpoint],
    read: &F,
) -> Snapshot {
    s.advance(captured_at_millis, raw, endpoints, read);
    s.snapshot().clone()
}

// ---------------------------------------------------------------- interval

#[test]
fn a_sane_interval_is_accepted() {
    for ms in [MIN_INTERVAL_MS, 500, 1000, 2000, 5000, MAX_INTERVAL_MS] {
        assert!(validate_interval(ms).is_ok(), "{ms} ms should be accepted");
    }
}

#[test]
fn every_interval_the_ui_offers_is_accepted() {
    // If these ever diverge the settings screen would offer a value the
    // backend refuses.
    for ms in [500, 1000, 2000, 5000] {
        assert!(validate_interval(ms).is_ok(), "the UI offers {ms} ms");
    }
}

#[test]
fn an_interval_that_would_busy_loop_is_rejected() {
    for ms in [0, 1, 10, MIN_INTERVAL_MS - 1] {
        assert!(validate_interval(ms).is_err(), "{ms} ms should be rejected");
    }
}

#[test]
fn an_absurdly_slow_interval_is_rejected() {
    assert!(validate_interval(MAX_INTERVAL_MS + 1).is_err());
    assert!(validate_interval(u64::MAX).is_err());
}

#[test]
fn the_rejection_names_the_bounds_it_enforced() {
    match validate_interval(0).unwrap_err() {
        SystemError::InvalidInterval { requested_ms, min_ms, max_ms } => {
            assert_eq!(requested_ms, 0);
            assert_eq!(min_ms, MIN_INTERVAL_MS);
            assert_eq!(max_ms, MAX_INTERVAL_MS);
        }
        other => panic!("expected an interval refusal, got {other:?}"),
    }
}

#[test]
fn setting_a_bad_interval_leaves_the_cadence_alone() {
    let mut s = state();
    assert!(s.set_interval(0).is_err());
    assert_eq!(s.interval_ms(), 1000);

    assert!(s.set_interval(2000).is_ok());
    assert_eq!(s.interval_ms(), 2000);
}

#[test]
fn the_seed_snapshot_is_empty_and_renders_its_instant() {
    let s = empty_snapshot(T0);
    assert_eq!(s.sequence, 0);
    assert_eq!(s.captured_at, "2026-08-28T09:00:00.000Z");
    assert!(s.services.is_empty() && s.processes.is_empty() && s.ports.is_empty());
    assert!(s.conflicts.is_none());
}

#[test]
fn running_is_a_flag_the_sampler_reports_back() {
    let mut s = state();
    assert!(!s.is_running());
    assert!(!s.set_running(true));
    assert!(s.is_running());
    assert!(s.set_running(false));
    assert!(!s.set_running(false), "stopping twice is harmless");
}

// ------------------------------------------------------------------ advance

#[test]
fn the_sequence_increases_by_one_per_tick_and_never_repeats() {
    let mut s = state();
    let scan = vec![raw(1, T0 - 1000)];

    let sequences: Vec<u64> = (0..5)
        .map(|i| tick(&mut s, T0 + i * 1000, &scan, &[], &no_command_lines).sequence)
        .collect();

    assert_eq!(sequences, vec![1, 2, 3, 4, 5]);
    assert_eq!(s.sequence_number(), 5);
}

#[test]
fn snapshot_timestamps_progress() {
    let mut s = state();
    let scan = vec![raw(1, T0 - 1000)];

    let a = tick(&mut s, T0, &scan, &[], &no_command_lines);
    let b = tick(&mut s, T0 + 1000, &scan, &[], &no_command_lines);
    let c = tick(&mut s, T0 + 2000, &scan, &[], &no_command_lines);

    assert!(a.captured_at < b.captured_at);
    assert!(b.captured_at < c.captured_at);
    // ISO-8601 sorts lexicographically, which is why the contract uses it.
    assert_eq!(a.captured_at, "2026-08-28T09:00:00.000Z");
}

#[test]
fn a_snapshot_never_contains_two_rows_with_the_same_identity() {
    let mut s = state();
    let scan: Vec<_> = (1..60u32).map(|pid| raw(pid, T0 - (pid as i64))).collect();
    let snapshot = tick(&mut s, T0, &scan, &[], &no_command_lines);

    assert_eq!(snapshot.processes.len(), 59);
    assert!(has_unique_identities(&snapshot));
}

#[test]
fn one_tick_produces_processes_ports_and_services_that_agree() {
    let mut s = state();
    let snapshot = tick(&mut s, T0, &[raw(1, T0 - 1000)], &[socket(5173, 1)], &no_command_lines);

    assert_eq!(snapshot.processes.len(), 1);
    assert_eq!(snapshot.ports.len(), 1);
    assert_eq!(snapshot.services.len(), 1);

    let process = &snapshot.processes[0];
    let service = &snapshot.services[0];
    let port = &snapshot.ports[0];

    assert_eq!(service.id, process.id, "identity is the process identity");
    assert!(process.is_service, "the process must be marked");
    assert_eq!(port.process_id.as_ref(), Some(&process.id));
    assert_eq!(port.service_label.as_ref(), Some(&service.label));
    assert_eq!(service.endpoints.len(), 1);
    assert_eq!(service.endpoints[0].port, 5173);

    // Conflict detection is still a later milestone.
    assert!(snapshot.conflicts.is_none());
}

#[test]
fn a_process_with_no_sockets_is_not_marked_as_a_service() {
    let mut s = state();
    let snapshot = tick(
        &mut s,
        T0,
        &[raw(1, T0 - 1000), raw(2, T0 - 1000)],
        &[socket(5173, 1)],
        &no_command_lines,
    );

    let marked: Vec<_> = snapshot.processes.iter().filter(|p| p.is_service).map(|p| p.pid).collect();
    assert_eq!(marked, vec![1], "only the socket holder is a service");
    assert_eq!(snapshot.services.len(), 1);
}

#[test]
fn one_tick_attributes_sockets_to_that_same_tick_s_processes() {
    let mut s = state();
    let snapshot = tick(
        &mut s,
        T0,
        &[raw(1, T0 - 1000), raw(2, T0 - 2000)],
        &[socket(5173, 1), socket(8000, 2), socket(9999, 4242)],
        &no_command_lines,
    );

    let by_port = |port: u16| {
        snapshot
            .ports
            .iter()
            .find(|p| p.port == port)
            .unwrap_or_else(|| panic!("no row for port {port}"))
    };

    let owned = by_port(5173);
    let process = snapshot.processes.iter().find(|p| p.pid == 1).unwrap();
    assert_eq!(owned.process_id.as_ref(), Some(&process.id));
    assert!(by_port(8000).process_id.is_some());

    // A PID that was not in this tick's process scan stays informational.
    let orphan = by_port(9999);
    assert_eq!(orphan.process_id, None);
    assert_eq!(orphan.pid, 4242);
    assert_eq!(orphan.process_name, "(exited)");
}

#[test]
fn ports_are_rebuilt_each_tick_rather_than_accumulating() {
    let mut s = state();
    let scan = [raw(1, T0 - 1000)];

    let first = tick(&mut s, T0, &scan, &[socket(5173, 1), socket(8000, 1)], &no_command_lines);
    assert_eq!(first.ports.len(), 2);

    let second = tick(&mut s, T0 + 1000, &scan, &[socket(5173, 1)], &no_command_lines);
    assert_eq!(second.ports.len(), 1, "a closed socket must not linger");
    assert_eq!(second.ports[0].port, 5173);

    let third = tick(&mut s, T0 + 2000, &scan, &[], &no_command_lines);
    assert!(third.ports.is_empty());
}

#[test]
fn previous_cpu_samples_survive_between_ticks() {
    let mut s = state();
    assert_eq!(s.cpu_tracker().remembered_count(), 0);

    tick(&mut s, T0, &[raw(1, T0 - 1000), raw(2, T0 - 1000)], &[], &no_command_lines);
    assert_eq!(s.cpu_tracker().remembered_count(), 2);

    tick(&mut s, T0 + 1000, &[raw(1, T0 - 1000)], &[], &no_command_lines);
    assert_eq!(s.cpu_tracker().remembered_count(), 1, "an exited process must be retired");
}

#[test]
fn a_service_is_classified_from_the_command_line_read_for_it() {
    let mut s = state();
    let vite = |_pid: u32, _at: &str| Some("node vite.js".to_string());
    let snapshot = tick(&mut s, T0, &[raw(1, T0 - 1000)], &[socket(5173, 1)], &vite);
    assert_eq!(snapshot.services[0].relevance, Relevance::Developer);
    assert_eq!(snapshot.services[0].relevance_reason, "Node.js launched with the Vite signature.");
}

#[test]
fn a_command_line_is_read_once_per_identity_and_a_failure_is_remembered() {
    let mut s = state();
    let reads = AtomicUsize::new(0);
    let failing = |_pid: u32, _at: &str| {
        reads.fetch_add(1, Ordering::SeqCst);
        None
    };
    let scan = [raw(1, T0 - 1000)];
    for n in 0..5 {
        let snapshot = tick(&mut s, T0 + n * 1000, &scan, &[socket(5173, 1)], &failing);
        assert_eq!(snapshot.services[0].relevance, Relevance::Unknown);
    }
    assert_eq!(reads.load(Ordering::SeqCst), 1, "one read for one identity");

    // The same PID restarted is a new identity, and is read again.
    tick(&mut s, T0 + 9000, &[raw(1, T0 + 8000)], &[socket(5173, 1)], &failing);
    assert_eq!(reads.load(Ordering::SeqCst), 2);
}

#[test]
fn a_service_decided_by_its_name_costs_no_read() {
    let mut s = state();
    let reads = AtomicUsize::new(0);
    let counting = |_pid: u32, _at: &str| {
        reads.fetch_add(1, Ordering::SeqCst);
        None
    };
    let mut mongo = raw(1, T0 - 1000);
    mongo.name = "mongod.exe".into();
    let snapshot = tick(&mut s, T0, &[mongo], &[socket(27017, 1)], &counting);
    assert_eq!(snapshot.services[0].relevance, Relevance::Developer);
    assert_eq!(reads.load(Ordering::SeqCst), 0);
}

#[test]
fn advancing_replaces_the_cached_snapshot() {
    let mut s = state();
    assert_eq!(s.snapshot().sequence, 0);
    assert!(s.snapshot().processes.is_empty());

    s.advance(
        T0,
        &[raw(1, T0 - 1000), raw(2, T0 - 2000)],
        &[],
        &no_command_lines,
    );

    assert_eq!(s.snapshot().sequence, 1);
    assert_eq!(s.snapshot().processes.len(), 2);
}

#[test]
fn a_stopped_sampler_still_answers_get_snapshot() {
    let s = SamplerState::new(4, 1000, T0);
    let snapshot = s.snapshot();
    assert_eq!(snapshot.sequence, 0);
    assert!(snapshot.processes.is_empty());
    assert!(snapshot.conflicts.is_none());
    assert_eq!(snapshot.captured_at, "2026-08-28T09:00:00.000Z");
}

#[test]
fn stopping_a_sampler_that_never_started_is_harmless() {
    let mut s = SamplerState::new(4, 1000, T0);
    assert!(!s.set_running(false));
    assert!(!s.set_running(false));
    assert!(!s.is_running());
}

#[test]
fn a_tick_is_folded_in_only_when_both_scans_completed() {
    let s = state();
    let failed: Result<Vec<RawProcess>, SystemError> = Err(SystemError::api_failure(
        "CreateToolhelp32Snapshot",
        5,
        "Access is denied.".to_string(),
    ));
    let message = s.scan_failure(&failed, &Some(vec![])).expect("a failed process scan");
    assert_eq!(message, SystemError::api_failure("CreateToolhelp32Snapshot", 5, "Access is denied.".to_string()).message());

    let scanned: Result<Vec<RawProcess>, SystemError> = Ok(vec![raw(1, T0 - 1000)]);
    assert_eq!(
        s.scan_failure(&scanned, &None).as_deref(),
        Some("The socket scan did not complete.")
    );
    assert_eq!(s.scan_failure(&scanned, &Some(vec![socket(5173, 1)])), None);
}
