//! Machine-wide load.
use localdocks::logic::telemetry::{BusyShare, CpuTimes, MemoryStatus, SystemCpuTracker};

/// The percentage a busy share stands for.
fn pct(s: BusyShare) -> f32 {
    ((s.busy_100ns as f64) / (s.total_100ns as f64) * 100.0) as f32
}

fn times(idle: u64, kernel: u64, user: u64) -> CpuTimes {
    CpuTimes {
        idle_100ns: idle,
        kernel_100ns: kernel,
        user_100ns: user,
    }
}

#[test]
fn the_first_observation_has_nothing_to_difference_and_reports_nothing() {
    let mut t = SystemCpuTracker::new();
    assert_eq!(t.observe(times(0, 0, 0)), None);
    assert_eq!(t.observe_per_core(vec![times(0, 0, 0)]), None);
}

#[test]
fn a_fully_idle_interval_is_zero_percent() {
    let mut t = SystemCpuTracker::new();
    t.observe(times(1_000, 1_000, 0));
    // All of the elapsed kernel time was idle.
    assert_eq!(t.observe(times(2_000, 2_000, 0)).map(pct), Some(0.0));
}

#[test]
fn a_fully_busy_interval_is_one_hundred_percent() {
    let mut t = SystemCpuTracker::new();
    t.observe(times(1_000, 1_000, 0));
    assert_eq!(t.observe(times(1_000, 1_500, 500)).map(pct), Some(100.0));
}

/// The mistake the module docs warn about: kernel time already contains
/// idle time, so the denominator is kernel + user, not kernel + user - idle.
#[test]
fn idle_is_subtracted_from_the_numerator_only() {
    let mut t = SystemCpuTracker::new();
    t.observe(times(0, 0, 0));
    // 800 idle inside 1000 kernel, plus 0 user: 20% busy.
    let percent = pct(t.observe(times(800, 1_000, 0)).unwrap());
    assert!((percent - 20.0).abs() < 0.001, "got {percent}");
}

#[test]
fn two_samples_inside_one_clock_tick_report_nothing_rather_than_zero() {
    let mut t = SystemCpuTracker::new();
    t.observe(times(500, 1_000, 200));
    assert_eq!(t.observe(times(500, 1_000, 200)), None);
}

#[test]
fn a_counter_that_went_backwards_cannot_produce_a_negative_percentage() {
    let mut t = SystemCpuTracker::new();
    t.observe(times(5_000, 9_000, 1_000));
    let percent = t.observe(times(4_000, 9_500, 1_000)).map(pct);
    assert!(
        percent.map_or(true, |p| (0.0..=100.0).contains(&p)),
        "{percent:?}"
    );
}

#[test]
fn per_core_percentages_are_computed_independently_and_in_order() {
    let mut t = SystemCpuTracker::new();
    t.observe_per_core(vec![times(0, 0, 0), times(0, 0, 0)]);
    let cores = t
        .observe_per_core(vec![times(0, 1_000, 0), times(1_000, 1_000, 0)])
        .unwrap();
    assert_eq!(cores.len(), 2);
    assert_eq!(pct(cores[0]), 100.0, "core 0 was fully busy");
    assert_eq!(pct(cores[1]), 0.0, "core 1 was fully idle");
}

#[test]
fn a_changed_processor_count_reports_nothing_rather_than_mispairing_cores() {
    let mut t = SystemCpuTracker::new();
    t.observe_per_core(vec![times(0, 0, 0), times(0, 0, 0)]);
    assert_eq!(t.observe_per_core(vec![times(0, 1_000, 0)]), None);
    // And it recovers on the next matching pair.
    assert!(t.observe_per_core(vec![times(0, 2_000, 0)]).is_some());
}

#[test]
fn an_empty_processor_list_reports_nothing() {
    let mut t = SystemCpuTracker::new();
    t.observe_per_core(Vec::new());
    assert_eq!(t.observe_per_core(Vec::new()), None);
}

#[test]
fn every_percentage_stays_inside_zero_to_one_hundred() {
    let mut t = SystemCpuTracker::new();
    let mut previous = times(0, 0, 0);
    t.observe(previous);
    for step in 1..200u64 {
        previous = times(
            previous.idle_100ns + step % 7,
            previous.kernel_100ns + step % 5,
            previous.user_100ns + step % 3,
        );
        if let Some(p) = t.observe(previous).map(pct) {
            assert!((0.0..=100.0).contains(&p), "{p} out of range");
        }
    }
}

#[test]
fn memory_used_is_total_minus_available() {
    let m = MemoryStatus {
        total_bytes: 16_000_000_000,
        available_bytes: 4_000_000_000,
    };
    assert_eq!(m.used_bytes(), 12_000_000_000);
}

#[test]
fn available_exceeding_total_cannot_underflow() {
    let m = MemoryStatus {
        total_bytes: 1_000,
        available_bytes: 2_000,
    };
    assert_eq!(m.used_bytes(), 0);
}
