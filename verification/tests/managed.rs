use ab_av1::duration::Duration;
use ab_av1::process::managed::{ManagedProcessOptions, OutputTruncation, RawOutputChunk};

#[test]
fn raw_output_chunk_exposes_borrowed_bytes_for_parsers() {
    let chunk = RawOutputChunk::new(b"progress".to_vec());
    assert_eq!(chunk.as_bytes(), b"progress");
    assert_eq!(chunk.into_bytes(), b"progress");
}

#[test]
fn output_truncation_is_an_explicit_terminal_collection_state() {
    assert_eq!(OutputTruncation::from_truncated(false), OutputTruncation::Complete);
    assert_eq!(OutputTruncation::from_truncated(true), OutputTruncation::Truncated);
}

#[test]
fn truncation_reports_itself() {
    assert!(OutputTruncation::Truncated.is_truncated());
    assert!(!OutputTruncation::Complete.is_truncated());
}

#[test]
fn options_defaults_and_builders() {
    let d = ManagedProcessOptions::default();
    assert_eq!(d.wait_timeout(), Duration::from_secs(30 * 24 * 60 * 60));
    assert_eq!(d.termination_grace(), Duration::from_millis(25));
    assert_eq!(d.stderr_limit(), 32_768);
    let o = d.with_wait_timeout(Duration::from_secs(5)).with_stderr_limit(4);
    assert_eq!(o.wait_timeout(), Duration::from_secs(5));
    assert_eq!(o.stderr_limit(), 4);
    assert_eq!(o.termination_grace(), Duration::from_millis(25));
}
