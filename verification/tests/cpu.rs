//! CPU shares per process.
use localdocks::logic::cpu::{CpuObservation, CpuTracker};

const T0: i64 = 1_787_907_600_000; // 2026-08-28T09:00:00.000Z
const SECOND_100NS: u64 = 10_000_000;

fn obs(id: &str, cpu_100ns: u64, created: i64) -> CpuObservation {
    CpuObservation {
        id: id.into(),
        cpu_time_100ns: cpu_100ns,
        created_at_millis: created,
    }
}

/// Establish a previous sample without asserting on the first tick, so each
/// test below starts from the steady state it is actually about.
fn primed(cores: u32, id: &str, cpu_100ns: u64) -> CpuTracker {
    let mut t = CpuTracker::new(cores);
    t.observe(T0, &[obs(id, cpu_100ns, T0)]);
    t
}

#[test]
fn half_a_core_second_over_one_second_on_one_core_is_fifty_percent() {
    let mut t = primed(1, "8420-x", 0);
    let pct = t.observe(T0 + 1000, &[obs("8420-x", SECOND_100NS / 2, T0)]);
    assert_eq!(pct.get("8420-x"), Some(&5000));
}

#[test]
fn the_scale_is_the_whole_machine_not_one_core() {
    // Two full core-seconds of work in one wall second. On four cores that
    // is half the machine; on two cores it is all of it.
    let mut four = primed(4, "p", 0);
    assert_eq!(
        four.observe(T0 + 1000, &[obs("p", 2 * SECOND_100NS, T0)]).get("p").copied(),
        Some(5000)
    );

    let mut two = primed(2, "p", 0);
    assert_eq!(
        two.observe(T0 + 1000, &[obs("p", 2 * SECOND_100NS, T0)]).get("p").copied(),
        Some(10000)
    );
}

#[test]
fn a_multithreaded_process_cannot_report_more_than_the_whole_machine() {
    // Eight core-seconds on four cores is 200% before clamping. Scheduler
    // quantisation produces smaller versions of this routinely.
    let mut t = primed(4, "p", 0);
    assert_eq!(
        t.observe(T0 + 1000, &[obs("p", 8 * SECOND_100NS, T0)]).get("p").copied(),
        Some(10000)
    );
}

#[test]
fn an_idle_process_reports_zero_rather_than_being_omitted() {
    // Zero is a measurement here: the process was seen twice and burned
    // nothing. That is different from having no measurement at all.
    let mut t = primed(4, "p", 0);
    let pct = t.observe(T0 + 1000, &[obs("p", 0, T0)]);
    assert_eq!(pct.get("p"), Some(&0));
}

#[test]
fn a_process_seen_for_the_first_time_is_measured_over_its_lifetime() {
    // No previous sample, but the creation time is a real reference point.
    // Started 2 s ago, burned 1 core-second, on 1 core -> 50%.
    let mut t = CpuTracker::new(1);
    let pct = t.observe(T0 + 2000, &[obs("new", SECOND_100NS, T0)]);
    assert_eq!(pct.get("new"), Some(&5000));
}

#[test]
fn a_process_appearing_mid_run_does_not_inherit_the_scan_interval() {
    // The tracker has a previous scan, but not for this process. The window
    // must be since the process started (500 ms), not since the last scan
    // (5000 ms) — those differ by 10x.
    let mut t = primed(1, "old", 0);
    let started = T0 + 4500;
    let pct = t.observe(T0 + 5000, &[obs("new", SECOND_100NS / 4, started)]);
    assert_eq!(pct.get("new"), Some(&5000)); // 0.25 core-s over 0.5 s on 1 core
}

#[test]
fn a_process_that_disappears_is_forgotten_and_never_reported() {
    let mut t = CpuTracker::new(1);
    t.observe(T0, &[obs("a", 0, T0), obs("b", 0, T0)]);
    assert_eq!(t.remembered_count(), 2);

    let pct = t.observe(T0 + 1000, &[obs("a", SECOND_100NS, T0)]);
    assert!(pct.contains_key("a"));
    assert!(
        !pct.contains_key("b"),
        "an exited process must not be scored"
    );
    assert_eq!(t.remembered_count(), 1, "state must shrink when processes exit");
}

#[test]
fn a_reused_pid_does_not_inherit_the_previous_occupants_cpu_time() {
    // The identity carries the creation time, so PID 8420 restarting is a
    // different key. Keyed by PID alone, the new process would appear to
    // have burned the old one's entire lifetime total in one interval.
    let old = "8420-2026-08-28T09:00:00.000Z";
    let new = "8420-2026-08-28T09:00:05.000Z";

    let mut t = CpuTracker::new(1);
    t.observe(T0, &[obs(old, 600 * SECOND_100NS, T0)]);

    let restarted_at = T0 + 5000;
    let pct = t.observe(
        T0 + 6000,
        &[CpuObservation {
            id: new.into(),
            cpu_time_100ns: SECOND_100NS / 4,
            created_at_millis: restarted_at,
        }],
    );

    assert!(!pct.contains_key(old), "the old identity is gone");
    // 0.25 core-s over the 1 s it has been alive, not over 600 s of history.
    assert_eq!(pct.get(new), Some(&2500));
    assert_eq!(t.remembered_count(), 1);
}

#[test]
fn two_scans_at_the_same_instant_produce_no_measurement() {
    // Not zero — zero would claim the process was idle. There is simply no
    // interval to divide by.
    let mut t = primed(1, "p", 0);
    let pct = t.observe(T0, &[obs("p", SECOND_100NS, T0)]);
    assert!(pct.len() == 0, "a zero-length window is not a measurement");
}

#[test]
fn a_process_created_this_millisecond_produces_no_measurement() {
    let mut t = CpuTracker::new(1);
    let pct = t.observe(T0, &[obs("brand-new", 0, T0)]);
    assert!(pct.len() == 0);
}

#[test]
fn a_clock_that_goes_backwards_produces_no_measurement_rather_than_a_panic() {
    let mut t = primed(1, "p", 0);
    let pct = t.observe(T0 - 1000, &[obs("p", SECOND_100NS, T0)]);
    assert!(pct.len() == 0);
}

#[test]
fn cumulative_time_that_decreases_is_treated_as_no_work() {
    // Should not happen — the counter is monotonic — but an unsigned
    // subtraction underflowing would report a preposterous spike.
    let mut t = primed(1, "p", 10 * SECOND_100NS);
    let pct = t.observe(T0 + 1000, &[obs("p", SECOND_100NS, T0)]);
    assert_eq!(pct.get("p"), Some(&0));
}

#[test]
fn processes_in_one_scan_are_scored_independently() {
    let mut t = CpuTracker::new(4);
    t.observe(T0, &[obs("a", 0, T0), obs("b", 0, T0), obs("c", 0, T0)]);

    let pct = t.observe(
        T0 + 1000,
        &[
            obs("a", 4 * SECOND_100NS, T0), // all four cores -> 100%
            obs("b", SECOND_100NS, T0),     // one core       ->  25%
            obs("c", 0, T0),                // idle           ->   0%
        ],
    );

    assert_eq!(pct.get("a"), Some(&10000));
    assert_eq!(pct.get("b"), Some(&2500));
    assert_eq!(pct.get("c"), Some(&0));
}

#[test]
fn zero_logical_cores_is_floored_rather_than_dividing_by_zero() {
    let mut t = CpuTracker::new(0);
    t.observe(T0, &[obs("p", 0, T0)]);
    let pct = t.observe(T0 + 1000, &[obs("p", SECOND_100NS / 2, T0)]);
    assert_eq!(pct.get("p"), Some(&5000));
    assert!(*pct.get("p").unwrap() <= 10_000);
}

#[test]
fn state_stays_bounded_across_many_scans() {
    let mut t = CpuTracker::new(4);
    for tick in 0..200i64 {
        // A rolling window of 10 identities: each scan retires one and
        // introduces one.
        let live: Vec<_> = (tick..tick + 10)
            .map(|n| obs(&format!("pid-{n}"), (n as u64) * 1000, T0))
            .collect();
        t.observe(T0 + tick * 1000, &live);
    }
    assert_eq!(t.remembered_count(), 10, "only live processes may be remembered");
}
