//! Timestamps.
use localdocks::time::{filetime_to_unix_millis, to_iso8601};

/// The clock, read the way the app reads it.
fn now_unix_millis() -> i64 {
    match std::time::SystemTime::now().duration_since(std::time::UNIX_EPOCH) {
        Ok(d) => d.as_millis() as i64,
        Err(e) => -(e.duration().as_millis() as i64),
    }
}

#[test]
fn formats_the_epoch() {
    assert_eq!(to_iso8601(0), "1970-01-01T00:00:00.000Z");
}

#[test]
fn keeps_millisecond_precision() {
    assert_eq!(to_iso8601(1), "1970-01-01T00:00:00.001Z");
    assert_eq!(to_iso8601(999), "1970-01-01T00:00:00.999Z");
    assert_eq!(to_iso8601(1000), "1970-01-01T00:00:01.000Z");
}

#[test]
fn formats_a_known_instant() {
    // 2026-08-28T09:00:00.000Z — the value used in the frontend tests.
    assert_eq!(to_iso8601(1_787_907_600_000), "2026-08-28T09:00:00.000Z");
}

#[test]
fn handles_leap_days() {
    // 2024 is a leap year (divisible by 4), so 29 February exists...
    assert_eq!(to_iso8601(1_709_164_800_000), "2024-02-29T00:00:00.000Z");
    assert_eq!(to_iso8601(1_709_251_200_000), "2024-03-01T00:00:00.000Z");

    // ...but 2100 is not (divisible by 100, not by 400), so the day after
    // 28 February is 1 March. This is the case a naive `year % 4` gets wrong.
    assert_eq!(to_iso8601(4_107_456_000_000), "2100-02-28T00:00:00.000Z");
    assert_eq!(to_iso8601(4_107_542_400_000), "2100-03-01T00:00:00.000Z");

    // 2000 was a leap year (divisible by 400) — the other half of the rule.
    assert_eq!(to_iso8601(951_782_400_000), "2000-02-29T00:00:00.000Z");
}

#[test]
fn handles_year_boundaries() {
    assert_eq!(to_iso8601(1_767_225_599_999), "2025-12-31T23:59:59.999Z");
    assert_eq!(to_iso8601(1_767_225_600_000), "2026-01-01T00:00:00.000Z");
}

#[test]
fn floors_rather_than_truncating_before_the_epoch() {
    // Truncation toward zero would give "1969-12-31T23:59:59.-001Z".
    assert_eq!(to_iso8601(-1), "1969-12-31T23:59:59.999Z");
    assert_eq!(to_iso8601(-86_400_000), "1969-12-31T00:00:00.000Z");
}

#[test]
fn round_trips_every_day_for_a_decade() {
    // Guards the civil-date arithmetic against off-by-one drift: each day
    // must be exactly 86_400_000 ms after the previous one.
    let mut previous = to_iso8601(1_577_836_800_000); // 2020-01-01
    for day in 1..3653 {
        let ms = 1_577_836_800_000 + day * 86_400_000;
        let current = to_iso8601(ms);
        assert!(current > previous, "{current} should sort after {previous}");
        assert!(current.ends_with("T00:00:00.000Z"));
        previous = current;
    }
}

#[test]
fn the_current_time_renders_as_a_well_formed_timestamp() {
    // Exercises the path a real scan takes: read the clock once, format it.
    let s = to_iso8601(now_unix_millis());
    assert_eq!(s.len(), 24, "expected YYYY-MM-DDTHH:MM:SS.mmmZ, got {s}");
    assert!(s.ends_with('Z'));
    assert!(s.starts_with("20"), "expected a 21st-century year, got {s}");
}

#[test]
fn filetime_epoch_maps_to_unix_epoch() {
    // 116444736000000000 is 1970-01-01 expressed as a FILETIME.
    let ticks: u64 = 116_444_736_000_000_000;
    let (low, high) = (ticks as u32, (ticks >> 32) as u32);
    assert_eq!(filetime_to_unix_millis(low, high), 0);
    assert_eq!(
        to_iso8601(filetime_to_unix_millis(low, high)),
        "1970-01-01T00:00:00.000Z"
    );
}

#[test]
fn filetime_zero_is_treated_as_unset() {
    // Rather than reporting a 1601 date, which would look like real data.
    assert_eq!(filetime_to_unix_millis(0, 0), 0);
}

#[test]
fn filetime_converts_a_known_instant() {
    // 2026-08-28T09:00:00.000Z
    let ticks: u64 = 116_444_736_000_000_000 + 1_787_907_600_000 * 10_000;
    let (low, high) = (ticks as u32, (ticks >> 32) as u32);
    assert_eq!(
        to_iso8601(filetime_to_unix_millis(low, high)),
        "2026-08-28T09:00:00.000Z"
    );
}

#[test]
fn filetime_splits_the_64_bit_value_correctly() {
    // Guards against swapping low/high, which would silently produce dates
    // centuries away rather than failing loudly.
    let ticks: u64 = 116_444_736_000_000_000 + 86_400_000 * 10_000; // 1970-01-02
    let (low, high) = (ticks as u32, (ticks >> 32) as u32);
    assert_eq!(
        to_iso8601(filetime_to_unix_millis(low, high)),
        "1970-01-02T00:00:00.000Z"
    );
    assert_ne!(
        to_iso8601(filetime_to_unix_millis(high, low)),
        "1970-01-02T00:00:00.000Z"
    );
}

#[test]
fn timestamps_are_fixed_width_and_sort_like_their_instants() {
    let instants: [i64; 8] = [
        -62_167_219_200_000,
        -1,
        0,
        1,
        86_399_999,
        86_400_000,
        1_787_907_600_000,
        253_402_300_799_999,
    ];
    for w in instants.windows(2) {
        let (a, b) = (to_iso8601(w[0]), to_iso8601(w[1]));
        assert_eq!(a.len(), 24, "{a}");
        assert_eq!(b.len(), 24, "{b}");
        assert!(a < b, "{a} should sort before {b}");
    }
    assert_eq!(to_iso8601(-62_167_219_200_000), "0000-01-01T00:00:00.000Z");
    assert_eq!(to_iso8601(253_402_300_799_999), "9999-12-31T23:59:59.999Z");
}

#[test]
fn a_midnight_ends_at_the_start_of_the_day_and_the_fields_read_back() {
    for k in [-719_528i64, -1, 0, 1, 20_693, 2_932_896] {
        let text = to_iso8601(k * 86_400_000);
        assert!(text.ends_with("T00:00:00.000Z"), "{text}");
    }
    let text = to_iso8601(1_787_907_600_123);
    assert_eq!(&text[0..4], "2026");
    assert_eq!(&text[5..7], "08");
    assert_eq!(&text[8..10], "28");
    assert_eq!(&text[11..13], "09");
    assert_eq!(&text[20..23], "123");
}
