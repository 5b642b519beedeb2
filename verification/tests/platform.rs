//! Buffers and names the operating system hands over.
use localdocks::logic::ports::{ipv4, port, IpAddress};
use localdocks::models::FieldState;
use localdocks::platform::windows::control::text;
use localdocks::platform::windows::gpu::{engine_type, parse_luid};
use localdocks::logic::process::ProcessProbe;
use localdocks::logic::telemetry::CpuTimes;
use localdocks::platform::windows::process::{
    exe_name, filetime_ticks, probe_outcome, OpenAttempt, ProcessTimes,
};
use localdocks::platform::windows::system::{
    filetime_u64, per_core_times, record_count, ProcessorRecord,
};

fn v4(a: u8, b: u8, c: u8, d: u8) -> IpAddress {
    IpAddress::V4(u32::from_be_bytes([a, b, c, d]))
}

#[test]
fn an_ipv4_dword_is_read_in_network_order() {
    // 127.0.0.1 as Windows stores it: the first octet in the first byte.
    let raw = u32::from_ne_bytes([127, 0, 0, 1]);
    assert_eq!(ipv4(raw), v4(127, 0, 0, 1));

    assert_eq!(ipv4(u32::from_ne_bytes([0, 0, 0, 0])), v4(0, 0, 0, 0));
    assert_eq!(
        ipv4(u32::from_ne_bytes([192, 168, 68, 103])),
        v4(192, 168, 68, 103)
    );
}

#[test]
fn a_port_dword_uses_only_its_low_two_bytes_big_endian() {
    // 5173 = 0x1435, network order 0x14 0x35, reserved bytes after it.
    assert_eq!(port(u32::from_ne_bytes([0x14, 0x35, 0, 0])), 5173);
    assert_eq!(port(u32::from_ne_bytes([0x00, 0x50, 0, 0])), 80);
    assert_eq!(port(u32::from_ne_bytes([0xFF, 0xFF, 0, 0])), 65535);
    // Reserved bytes set: they must not leak into the value.
    assert_eq!(port(u32::from_ne_bytes([0x14, 0x35, 0xAB, 0xCD])), 5173);
}

#[test]
fn a_byte_swapped_port_would_be_wrong_and_is_not_what_we_produce() {
    // Guards against reading the DWORD little-endian, which turns 5173
    // into 13844 — a plausible-looking port, which is what makes the bug
    // survive a casual look.
    assert_ne!(port(u32::from_ne_bytes([0x14, 0x35, 0, 0])), 13844);
}

#[test]
fn exe_name_stops_at_the_first_nul() {
    let mut buffer = [0u16; 260];
    for (i, c) in "node.exe".encode_utf16().enumerate() {
        buffer[i] = c;
    }
    assert_eq!(exe_name(&buffer), "node.exe");
}

#[test]
fn exe_name_handles_a_completely_full_buffer() {
    // No NUL terminator at all: the whole buffer is the name.
    let buffer = [b'a' as u16; 8];
    assert_eq!(exe_name(&buffer), "aaaaaaaa");
}

#[test]
fn exe_name_of_an_empty_buffer_is_empty() {
    assert_eq!(exe_name(&[0u16; 260]), "");
}

#[test]
fn exe_name_decodes_surrogate_pairs_and_replaces_lone_halves() {
    let name: Vec<u16> = "n€😀.exe".encode_utf16().collect();
    assert_eq!(exe_name(&name), "n€😀.exe");
    // A high surrogate with no low half, and a stray low half.
    assert_eq!(exe_name(&[b'a' as u16, 0xD800, b'b' as u16, 0xDC00, 0]), "a\u{FFFD}b\u{FFFD}");
    assert_eq!(exe_name(&[0xD800]), String::from_utf16_lossy(&[0xD800]));
}

#[test]
fn filetime_ticks_reassembles_both_halves() {
    assert_eq!(filetime_ticks(0x8000_0001, 0x0000_002A), 0x0000_002A_8000_0001);
}

#[test]
fn a_filetime_reassembles_both_halves() {
    assert_eq!(filetime_u64(0x8000_0001, 0x0000_0002), 0x0000_0002_8000_0001);
}

#[test]
fn a_luid_parses_out_of_both_instance_shapes() {
    assert_eq!(
        parse_luid("pid_8420_luid_0x00000000_0x00013C64_phys_0_eng_0_engtype_3D"),
        Some(0x0000_0000_0001_3C64)
    );
    assert_eq!(
        parse_luid("luid_0x00000000_0x00017274_phys_0"),
        Some(0x0000_0000_0001_7274)
    );
    // The high half is part of the key, not decoration.
    assert_eq!(
        parse_luid("luid_0x0000000A_0x00000001_phys_0"),
        Some(0x0000_000A_0000_0001)
    );
    // Case-insensitive hex, as PDH has been observed emitting both.
    assert_eq!(
        parse_luid("luid_0x00000000_0x00013c64_phys_0"),
        parse_luid("luid_0x00000000_0x00013C64_phys_0")
    );
}

#[test]
fn an_instance_without_a_luid_parses_to_nothing_rather_than_a_wrong_key() {
    for bad in [
        "",
        "_Total",
        "pid_8420_phys_0",
        "luid_0x00000000",
        "luid_notahexnumber_0x1_phys_0",
        "luid_0x00000000_0xZZZZ_phys_0",
    ] {
        assert!(parse_luid(bad).is_none(), "{bad} should not parse");
    }
}

#[test]
fn a_luid_half_past_32_bits_or_without_digits_is_refused() {
    assert!(parse_luid("luid_0x100000000_0x1_phys_0").is_none());
    assert!(parse_luid("luid_0x_0x1_phys_0").is_none());
    assert!(parse_luid("luid_0x+_0x1_phys_0").is_none());
    assert_eq!(parse_luid("luid_0x+1_0x2"), Some(0x0000_0001_0000_0002));
    assert_eq!(parse_luid("luid_0xFFFFFFFF_0xffffffff"), Some(u64::MAX));
}

#[test]
fn an_engine_instance_carries_its_engine_type() {
    assert_eq!(
        engine_type("pid_8420_luid_0x00000000_0x00013C64_phys_0_eng_0_engtype_3D").as_deref(),
        Some("3D")
    );
    // Engine types with spaces survive intact — they are the grouping key.
    assert_eq!(
        engine_type("pid_1_luid_0x00000000_0x1_phys_0_eng_7_engtype_High Priority 3D").as_deref(),
        Some("High Priority 3D")
    );
    assert!(engine_type("luid_0x00000000_0x1_phys_0").is_none());
}

#[test]
fn empty_text_is_unavailable_rather_than_an_empty_success() {
    assert!(matches!(text(&[]), FieldState::Unavailable));
    assert!(matches!(text(&[0]), FieldState::Unavailable));
    assert!(matches!(text(&[32, 32, 0]), FieldState::Unavailable));
    match text(&[b'a' as u16, b'b' as u16, 0, b'c' as u16]) {
        FieldState::Value { value } => assert_eq!(value, "ab"),
        other => panic!("expected a value, got {other:?}"),
    }
}

fn times(created: u64, kernel: u64, user: u64) -> ProcessTimes {
    ProcessTimes {
        created_low: created as u32,
        created_high: (created >> 32) as u32,
        kernel_low: kernel as u32,
        kernel_high: (kernel >> 32) as u32,
        user_low: user as u32,
        user_high: (user >> 32) as u32,
    }
}

#[test]
fn a_probe_that_read_everything_reports_the_readings() {
    // 2026-08-28T09:00:00Z is 1_787_907_600_000 ms after the Unix epoch.
    let created = 116_444_736_000_000_000u64 + 1_787_907_600_000u64 * 10_000;
    let p = probe_outcome(
        8420,
        OpenAttempt::Opened,
        Some(times(created, 30_000_000, 12_000_000)),
        Some(4096),
    );
    assert_eq!(
        p,
        ProcessProbe::Read {
            created_at_millis: 1_787_907_600_000,
            cpu_time_100ns: 42_000_000,
            working_set_bytes: 4096,
        }
    );
}

#[test]
fn a_probe_saturates_cpu_time_instead_of_wrapping() {
    let p = probe_outcome(
        7,
        OpenAttempt::Opened,
        Some(times(0, u64::MAX, 5)),
        Some(1),
    );
    assert_eq!(
        p,
        ProcessProbe::Read {
            created_at_millis: 0,
            cpu_time_100ns: u64::MAX,
            working_set_bytes: 1,
        }
    );
}

#[test]
fn a_probe_is_decided_by_the_first_read_that_failed() {
    assert_eq!(probe_outcome(0, OpenAttempt::Opened, None, None), ProcessProbe::Gone);
    assert_eq!(
        probe_outcome(12, OpenAttempt::AccessDenied, None, None),
        ProcessProbe::AccessDenied
    );
    assert_eq!(
        probe_outcome(12, OpenAttempt::InvalidParameter, None, None),
        ProcessProbe::Gone
    );
    assert_eq!(probe_outcome(12, OpenAttempt::Failed, None, None), ProcessProbe::AccessDenied);
    assert_eq!(probe_outcome(12, OpenAttempt::Opened, None, None), ProcessProbe::Gone);
    assert_eq!(
        probe_outcome(12, OpenAttempt::Opened, Some(times(0, 1, 1)), None),
        ProcessProbe::Gone
    );
}

#[test]
fn a_buffer_too_small_for_one_record_holds_none() {
    assert_eq!(record_count(0, 48), None);
    assert_eq!(record_count(47, 48), None);
    assert_eq!(record_count(48, 48), Some(1));
    assert_eq!(record_count(48 * 16 + 5, 48), Some(16));
}

#[test]
fn per_core_counters_are_taken_from_the_records_written() {
    let records = vec![
        ProcessorRecord { idle_time: 10, kernel_time: 30, user_time: 5 },
        ProcessorRecord { idle_time: -1, kernel_time: 7, user_time: -9 },
        ProcessorRecord { idle_time: 1, kernel_time: 2, user_time: 3 },
    ];
    assert_eq!(per_core_times(&records, 0), None);
    assert_eq!(
        per_core_times(&records, 2),
        Some(vec![
            CpuTimes { idle_100ns: 10, kernel_100ns: 30, user_100ns: 5 },
            CpuTimes { idle_100ns: 0, kernel_100ns: 7, user_100ns: 0 },
        ])
    );
    // A count beyond the buffer is capped at what the buffer holds.
    assert_eq!(per_core_times(&records, 9).map(|v| v.len()), Some(3));
}

#[test]
fn a_creation_time_outside_the_convertible_range_gives_no_row() {
    let t = ProcessTimes {
        created_low: 0,
        created_high: 0x8000_0000,
        kernel_low: 1,
        kernel_high: 0,
        user_low: 1,
        user_high: 0,
    };
    assert_eq!(probe_outcome(9, OpenAttempt::Opened, Some(t), Some(1)), ProcessProbe::Gone);
}
