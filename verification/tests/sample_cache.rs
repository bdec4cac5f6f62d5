use ab_av1::command::encoders::PixelFormat;
use ab_av1::command::sample_encode::cache::{sample_encode_key, sample_encode_key_bytes};
use ab_av1::duration::Duration;
use ab_av1::ffmpeg::{svt_version, FfmpegEncodeArgs, SvtVersionScan};
use ab_av1::sample::{
    check_copy_size, copy_floors_start, copy_needs_genpts, sample_copy_args, sample_copy_extension,
};

fn enc(vcodec: &str, crf: u64) -> FfmpegEncodeArgs {
    FfmpegEncodeArgs {
        input: "vid.mkv".to_string(),
        vcodec: vcodec.to_string(),
        vfilter: None,
        pix_fmt: Some(PixelFormat::Yuv420p10le),
        crf,
        preset: Some("8".to_string()),
        output_args: vec![],
        input_args: vec![],
        video_only: false,
    }
}

#[test]
fn svt_version_read_from_output() {
    let out = b"Svt[info]: -------------------------------------------\nSvt[info]: SVT-AV1 Encoder Lib v2.3.0 (release)\n";
    assert_eq!(svt_version(out), Some("2.3.0".to_string()));
    // not yet known to be complete while the output ends in version bytes
    assert_eq!(svt_version(b"SVT-AV1 Encoder Lib v2.3"), None);
    assert_eq!(svt_version(b"SVT-AV1 Encoder Lib v"), None);
    assert_eq!(svt_version(b"no version here\n"), None);
}

#[test]
fn svt_version_scan_across_reads() {
    let mut scan = SvtVersionScan::new();
    assert_eq!(scan.space(), 256);
    assert_eq!(scan.record(b"Svt[info]: SVT-AV1 Enc"), None);
    assert_eq!(scan.record(b"oder Lib v1.8"), None);
    assert_eq!(scan.record(b".0 (release)\n"), Some("1.8.0".to_string()));
}

#[test]
fn svt_version_scan_keeps_a_bounded_window() {
    let mut scan = SvtVersionScan::new();
    let noise = [b'x'; 200];
    assert_eq!(scan.record(&noise), None);
    // 200 held is over three quarters: the oldest 128 are dropped
    assert_eq!(scan.space(), 256 - 72);
    assert_eq!(scan.record(b"SVT-AV1 Encoder Lib v3.0.1\n"), Some("3.0.1".to_string()));
}

#[test]
fn sample_copy_arguments() {
    assert_eq!(sample_copy_extension("12.5", 240), "sample12.5+240f.mkv");
    let args = sample_copy_args("12", "in.mp4", 48, "/tmp/in.sample12+48f.mkv", false);
    assert_eq!(
        args,
        vec![
            "-y", "-ss", "12", "-i", "in.mp4", "-frames:v", "48", "-c:v", "copy", "-an", "-sn",
            "/tmp/in.sample12+48f.mkv",
        ]
    );
    let args = sample_copy_args("12", "in.mp4", 48, "out.mkv", true);
    assert_eq!(&args[..3], &["-y", "-fflags", "+genpts"]);
    assert_eq!(args.len(), 14);
}

#[test]
fn sample_copy_retries_with_generated_timestamps() {
    let msg = b"[matroska @ 0x1] Can't write packet with unknown timestamp\nerror";
    assert!(copy_needs_genpts(Some(1), msg));
    assert!(copy_needs_genpts(None, msg));
    assert!(!copy_needs_genpts(Some(0), msg));
    assert!(!copy_needs_genpts(Some(1), b"some other failure"));
}

#[test]
fn sample_encode_key_record() {
    let e = enc("libx264", 32_000);
    let bytes = sample_encode_key_bytes("a.sample1+48f.mkv", Duration::from_secs(3), Some("mp4"), 7, false, &e, None, "vmaf");
    // the sample name first: its length as 8 little-endian bytes, then its bytes
    assert_eq!(&bytes[..8], &[17, 0, 0, 0, 0, 0, 0, 0]);
    assert_eq!(&bytes[8..25], b"a.sample1+48f.mkv");
    // then the input duration: 3 seconds, 0 nanoseconds
    assert_eq!(&bytes[25..33], &[3, 0, 0, 0, 0, 0, 0, 0]);
    assert_eq!(&bytes[33..41], &[0; 8]);
    // then the extension, present
    assert_eq!(bytes[41], 1);
    // and the scoring settings last
    assert!(bytes.ends_with(b"vmaf"));
}

#[test]
fn sample_encode_key_depends_on_what_decides_the_result() {
    let key = |e: &FfmpegEncodeArgs, svt: Option<&str>| {
        sample_encode_key("a.sample1+48f.mkv", Duration::from_secs(3), Some("mp4"), 7, false, e, svt, "vmaf")
    };
    let k = key(&enc("libx264", 32_000), None);
    assert_eq!(k.len(), 64);
    assert!(k.chars().all(|c| c.is_ascii_hexdigit() && !c.is_ascii_uppercase()));
    assert_eq!(k, key(&enc("libx264", 32_000), None));
    assert_ne!(k, key(&enc("libx264", 33_000), None));
    // the input path does not count
    let mut other_input = enc("libx264", 32_000);
    other_input.input = "elsewhere.mkv".to_string();
    assert_eq!(k, key(&other_input, None));
    // the svt-av1 version counts for svt-av1 encodes only
    assert_eq!(k, key(&enc("libx264", 32_000), Some("2.3.0")));
    assert_ne!(key(&enc("libsvtav1", 32_000), None), key(&enc("libsvtav1", 32_000), Some("2.3.0")));
    assert_ne!(key(&enc("libsvtav1", 32_000), Some("2.2.0")), key(&enc("libsvtav1", 32_000), Some("2.3.0")));
}

#[test]
fn sample_copy_start_and_size_checks() {
    assert!(copy_floors_start(Duration::from_secs(2)));
    assert!(copy_floors_start(Duration::from_secs(20)));
    assert!(!copy_floors_start(Duration::from_millis(1999)));
    assert_eq!(check_copy_size(1025), Ok(()));
    assert_eq!(check_copy_size(1024), Err("ffmpeg copy failed: encoded sample too small"));
    assert_eq!(check_copy_size(0), Err("ffmpeg copy failed: encoded sample too small"));
}
