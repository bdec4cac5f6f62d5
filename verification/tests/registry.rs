use ab_av1::decimal::terse_milli;
use ab_av1::ffprobe::{is_image, pixel_format, ProbeError};
use ab_av1::command::encoders::PixelFormat;
use ab_av1::duration::Duration;
use ab_av1::log::ProgressLogger;
use ab_av1::process::{ensure_success, exit_ok, exit_ok_stderr, Chunks};
use ab_av1::temporary::{add, unadd, TempFiles, TempKind};
use ab_av1::command::args::svt::{PixelFormat as SvtPixelFormat, SvtEncode};
use ab_av1::text::{replace_all, trim_start_char};

#[test]
fn temp_files_add_and_unadd() {
    let mut t = TempFiles::new();
    add(&mut t, "a.ivf".to_string(), TempKind::Keepable);
    add(&mut t, "b.mkv".to_string(), TempKind::NotKeepable);
    add(&mut t, "c".to_string(), TempKind::Keepable);
    assert_eq!(t.of_kind(TempKind::NotKeepable), vec!["b.mkv".to_string()]);
    assert_eq!(t.of_kind(TempKind::Keepable), vec!["a.ivf".to_string(), "c".to_string()]);
    // adding again sets the kind
    add(&mut t, "a.ivf".to_string(), TempKind::NotKeepable);
    assert_eq!(t.of_kind(TempKind::NotKeepable), vec!["a.ivf".to_string(), "b.mkv".to_string()]);
    assert!(unadd(&mut t, "a.ivf"));
    assert!(!unadd(&mut t, "a.ivf"));
    assert!(!unadd(&mut t, "zzz"));
    assert_eq!(t.of_kind(TempKind::NotKeepable), vec!["b.mkv".to_string()]);
}

#[test]
fn unadd_right_after_add_forgets_the_file() {
    let mut t = TempFiles::new();
    add(&mut t, "x".to_string(), TempKind::Keepable);
    add(&mut t, "y".to_string(), TempKind::Keepable);
    assert!(unadd(&mut t, "y"));
    assert_eq!(t.of_kind(TempKind::Keepable), vec!["x".to_string()]);
}

#[test]
fn exponential_logging() {
    let mut l = ProgressLogger::new();
    assert_eq!(l.next_log_exponential(), Duration::from_secs(16));
    assert!(!l.should_log_exponential(Duration::from_secs(10)));
    assert!(l.should_log_exponential(Duration::from_secs(17)));
    assert_eq!(l.log_count(), 1);
    assert!(!l.should_log_exponential(Duration::from_secs(30)));
    // several log times passed at once
    assert!(l.should_log_exponential(Duration::from_secs(100)));
    assert_eq!(l.log_count(), 3);
    assert_eq!(l.next_log_exponential(), Duration::from_secs(128));
}

#[test]
fn duration_logging() {
    let mut l = ProgressLogger::new();
    let every = Duration::from_secs(30);
    assert!(!l.should_log_duration(Duration::from_secs(29), every));
    assert!(l.should_log_duration(Duration::from_secs(61), every));
    assert_eq!(l.log_count(), 2);
    assert!(!l.should_log_duration(Duration::from_secs(89), every));
    assert!(l.should_log_duration(Duration::from_secs(1), Duration::zero()));
    assert_eq!(l.log_count(), u32::MAX);
}

#[test]
fn exit_codes() {
    assert_eq!(exit_ok("ffmpeg", Some(0)), Ok(()));
    assert_eq!(exit_ok("ffmpeg", Some(1)), Err("ffmpeg exit code 1".to_string()));
    assert_eq!(exit_ok("ffmpeg", None), Err("ffmpeg exit code None".to_string()));
    let mut chunks = Chunks::default();
    chunks.push(b"bad input\n");
    assert_eq!(
        exit_ok_stderr("ffmpeg", Some(-2), "ffmpeg -i x", &chunks),
        Err("ffmpeg exit code -2\n----cmd-----\nffmpeg -i x\n---stderr---\nbad input\n------------".to_string())
    );
    assert_eq!(
        ensure_success("ffprobe", Some(3), b"  oops \n"),
        Err("ffprobe exit code 3\n---stderr---\noops\n------------".to_string())
    );
    assert_eq!(ensure_success("ffprobe", Some(0), b"whatever"), Ok(()));
}

#[test]
fn terse_crf_text() {
    assert_eq!(terse_milli(32_000), "32");
    assert_eq!(terse_milli(32_500), "32.5");
    assert_eq!(terse_milli(33_550), "33.55");
    assert_eq!(terse_milli(125), "0.125");
    assert_eq!(terse_milli(0), "0");
}

#[test]
fn image_headers() {
    assert!(is_image(&[0xFF, 0xD8, 0xFF, 0xAA]));
    assert!(is_image(b"\x89PNG\r\n\x1a\n\0\0\0\rIHDR"));
    assert!(!is_image(b"plain text, not an image"));
    assert!(!is_image(&[]));
}

#[test]
fn probed_pixel_formats() {
    assert_eq!(pixel_format(Some("yuv420p10le")), Some(PixelFormat::Yuv420p10le));
    assert_eq!(pixel_format(Some("nv12")), None);
    assert_eq!(pixel_format(None), None);
    assert_eq!(ProbeError("no video".into()).message(), "no video");
}

#[test]
fn text_helpers() {
    assert_eq!(trim_start_char("--film-grain", '-'), "film-grain");
    assert_eq!(trim_start_char("x-", '-'), "x-");
    assert_eq!(replace_all("scale=1,scale=2", "scale=", "s:"), "s:1,s:2");
    assert_eq!(replace_all("none", "scale=", "s:"), "none");
    assert_eq!(replace_all("aaa", "aa", "b"), "ba");
}

#[test]
fn hint_quotes_the_input_as_debug_does() {
    let svt = SvtEncode {
        input: "a\"b".into(),
        vfilter: None,
        pix_format: SvtPixelFormat::Yuv420p10le,
        preset: 1,
        keyint: None,
        scd: None,
        args: vec![],
    };
    assert_eq!(svt.encode_hint(2), "ab-av1 encode -i \"a\\\"b\" --crf 2 --preset 1");
}
