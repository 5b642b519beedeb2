//! Error sentences.
use localdocks::errors::SystemError;

#[test]
fn display_includes_the_call_and_the_code() {
    let e = SystemError::api_failure("OpenProcess", 0x8007_0005, "Access denied".to_string());
    assert_eq!(
        e.message(),
        "OpenProcess failed (0x80070005): Access denied"
    );
}

#[test]
fn an_invalid_interval_reads_as_a_sentence_in_the_log() {
    assert_eq!(
        SystemError::invalid_interval(10, 250, 60_000).message(),
        "sample interval 10 ms is outside 250-60000 ms"
    );
}
