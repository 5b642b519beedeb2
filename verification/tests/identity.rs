//! Reading identities back apart.
use localdocks::logic::identity::parse;
use localdocks::models::make_process_id;

#[test]
fn a_generated_identity_round_trips() {
    let id = make_process_id(8420, "2026-08-28T09:00:00.000Z");
    let parsed = parse(&id).expect("a generated identity must parse");

    assert_eq!(parsed.pid, 8420);
    assert_eq!(parsed.started_at, "2026-08-28T09:00:00.000Z");
}

#[test]
fn the_split_is_at_the_first_hyphen_not_the_last() {
    // The timestamp's own hyphens must survive. Splitting at the last one
    // would give a start time of "28T09:00:00.000Z".
    let parsed = parse(&"8420-2026-08-28T09:00:00.000Z".to_string()).unwrap();
    assert_eq!(parsed.started_at, "2026-08-28T09:00:00.000Z");
    assert!(parsed.started_at.starts_with("2026-08-28"));
}

#[test]
fn every_pid_width_parses() {
    for pid in [1u32, 4, 8420, 65535, 4_294_967_295] {
        let id = make_process_id(pid, "2026-08-28T09:00:00.000Z");
        assert_eq!(parse(&id).unwrap().pid, pid);
    }
}

#[test]
fn a_malformed_identity_is_rejected_rather_than_guessed() {
    for bad in [
        "",                             // empty
        "8420",                         // no separator
        "-2026-08-28T09:00:00.000Z",    // no pid
        "8420-",                        // no timestamp
        "abc-2026-08-28T09:00:00.000Z", // pid not a number
        "84 20-2026-08-28T09:00:00.000Z",
        "0-2026-08-28T09:00:00.000Z", // the Idle process
    ] {
        assert!(
            parse(&bad.to_string()).is_none(),
            "{bad:?} should not parse"
        );
    }
}

#[test]
fn a_pid_with_a_sign_or_padding_is_not_a_second_spelling() {
    // `str::parse::<u32>` would accept "+8420". Identities are generated,
    // so exactly one spelling is correct and anything else is tampering.
    for bad in [
        "+8420-2026-08-28T09:00:00.000Z",
        " 8420-2026-08-28T09:00:00.000Z",
    ] {
        assert!(
            parse(&bad.to_string()).is_none(),
            "{bad:?} should not parse"
        );
    }
}

#[test]
fn a_pid_too_large_for_the_type_is_rejected() {
    assert!(parse(&"4294967296-2026-08-28T09:00:00.000Z".to_string()).is_none());
    assert!(parse(&"99999999999999999999-2026-08-28T09:00:00.000Z".to_string()).is_none());
}

#[test]
fn the_timestamp_is_carried_verbatim_and_not_interpreted() {
    // Whatever the snapshot rendered is what gets compared later. This
    // function is not a date parser and must not become one.
    let parsed = parse(&"8420-not-a-timestamp".to_string()).unwrap();
    assert_eq!(parsed.started_at, "not-a-timestamp");
}

#[test]
fn a_zero_padded_pid_is_not_a_second_spelling() {
    for bad in [
        "08420-2026-08-28T09:00:00.000Z",
        "0-2026-08-28T09:00:00.000Z",
        "00001-t",
    ] {
        assert!(parse(&bad.to_string()).is_none(), "{bad:?} should not parse");
    }
}

#[test]
fn what_parses_formats_back_to_the_same_text() {
    for good in ["8420-2026-08-28T09:00:00.000Z", "1-t", "4294967295-x-y"] {
        let p = parse(&good.to_string()).expect("a canonical identity parses");
        assert_eq!(make_process_id(p.pid, &p.started_at), good);
    }
}
