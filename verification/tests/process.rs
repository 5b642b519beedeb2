//! Mapping enumerated processes onto rows.
use localdocks::logic::cpu::CpuTracker;
use localdocks::logic::process::{map_processes, ProcessProbe, RawProcess};
use localdocks::models::make_process_id;

/// A process whose creation time could be read.
fn known(created_at_millis: i64) -> ProcessProbe {
    ProcessProbe::Read {
        created_at_millis,
        cpu_time_100ns: 0,
        working_set_bytes: 0,
    }
}

const CAPTURED: i64 = 1_787_907_600_000; // 2026-08-28T09:00:00.000Z

fn raw(pid: u32, probe: ProcessProbe) -> RawProcess {
    RawProcess {
        pid,
        parent_pid: 4,
        name: "node.exe".into(),
        thread_count: 18,
        probe,
    }
}

#[test]
fn every_enumerated_process_is_accounted_for() {
    // The invariant that makes the counts trustworthy: nothing vanishes.
    let input = vec![
        raw(100, known(CAPTURED - 1000)),
        raw(200, ProcessProbe::AccessDenied),
        raw(300, ProcessProbe::Gone),
        raw(400, known(CAPTURED - 2000)),
        raw(500, ProcessProbe::AccessDenied),
    ];

    let m = map_processes(&input, CAPTURED, &mut CpuTracker::new(1));

    assert_eq!(m.rows.len(), 2);
    assert_eq!(m.access_denied, 2);
    assert_eq!(m.exited_during_scan, 1);
    assert_eq!(
        m.rows.len() as u32 + m.access_denied + m.exited_during_scan,
        input.len() as u32
    );
}

#[test]
fn identity_pairs_the_pid_with_the_rendered_start_time() {
    // The `id` must be derivable from the row's own fields, or the frontend
    // and backend can disagree about which process a row refers to.
    let m = map_processes(&[raw(8420, known(CAPTURED))], CAPTURED, &mut CpuTracker::new(1));
    let row = &m.rows[0];

    assert_eq!(row.started_at, "2026-08-28T09:00:00.000Z");
    assert_eq!(row.id, "8420-2026-08-28T09:00:00.000Z");
    assert_eq!(row.id, make_process_id(row.pid, &row.started_at));
}

#[test]
fn rows_without_a_readable_start_time_are_never_emitted() {
    // Not "are emitted with a guess". The absence is the point.
    let m = map_processes(
        &[
            raw(4, ProcessProbe::AccessDenied),
            raw(88, ProcessProbe::Gone),
        ],
        CAPTURED,
        &mut CpuTracker::new(1),
    );
    assert!(m.rows.is_empty());
}

#[test]
fn uptime_is_measured_against_the_capture_instant() {
    let m = map_processes(
        &[raw(1, known(CAPTURED - 4_342_000))],
        CAPTURED,
        &mut CpuTracker::new(1),
    );
    assert_eq!(m.rows[0].uptime_millis, 4_342_000);
}

#[test]
fn uptime_never_goes_negative() {
    // A process created mid-scan is newer than the capture instant.
    let m = map_processes(&[raw(1, known(CAPTURED + 500))], CAPTURED, &mut CpuTracker::new(1));
    assert_eq!(m.rows[0].uptime_millis, 0);
}

#[test]
fn all_rows_share_one_reference_instant() {
    // Two processes of the same age must report the same uptime, whatever
    // the scan cost between them.
    let m = map_processes(
        &[
            raw(1, known(CAPTURED - 60_000)),
            raw(2, known(CAPTURED - 60_000)),
        ],
        CAPTURED,
        &mut CpuTracker::new(1),
    );
    assert_eq!(m.rows[0].uptime_millis, m.rows[1].uptime_millis);
}

#[test]
fn platform_facts_are_carried_through_unchanged() {
    let mut p = raw(8420, known(CAPTURED));
    p.parent_pid = 6104;
    p.name = "pwsh.exe".into();
    p.thread_count = 7;

    let m = map_processes(&[p], CAPTURED, &mut CpuTracker::new(1));
    let row = &m.rows[0];

    assert_eq!(row.pid, 8420);
    assert_eq!(row.parent_pid, 6104);
    assert_eq!(row.name, "pwsh.exe");
    assert_eq!(row.thread_count, 7);
}

#[test]
fn no_row_claims_to_be_a_service_while_service_joining_is_unimplemented() {
    let m = map_processes(&[raw(1, known(CAPTURED))], CAPTURED, &mut CpuTracker::new(1));
    assert!(!m.rows[0].is_service);
}

#[test]
fn an_empty_scan_maps_to_an_empty_result() {
    let m = map_processes(&[], CAPTURED, &mut CpuTracker::new(1));
    assert!(m.rows.is_empty());
    assert_eq!(m.access_denied, 0);
    assert_eq!(m.exited_during_scan, 0);
}

#[test]
fn rows_from_distinct_pids_have_distinct_identities() {
    // Same creation instant, different PIDs, and PIDs whose decimal text
    // shares a prefix: every row still has its own identity.
    let input = vec![
        raw(1, known(CAPTURED - 1000)),
        raw(12, known(CAPTURED - 1000)),
        raw(123, known(CAPTURED - 1000)),
        raw(7, ProcessProbe::Gone),
    ];
    let m = map_processes(&input, CAPTURED, &mut CpuTracker::new(1));
    assert_eq!(m.rows.len(), 3);
    for i in 0..m.rows.len() {
        for j in (i + 1)..m.rows.len() {
            assert_ne!(m.rows[i].id, m.rows[j].id);
        }
    }
}
