//! The record types.
use localdocks::models::make_process_id;

#[test]
fn process_id_pairs_pid_with_creation_time() {
    assert_eq!(
        make_process_id(8420, "2026-08-28T09:00:00.000Z"),
        "8420-2026-08-28T09:00:00.000Z"
    );
}
