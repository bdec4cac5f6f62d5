use ab_av1::command::args::svt;
use ab_av1::command::encoders::{EncoderString, KeyInterval, PixelFormat, Preset};
use ab_av1::duration::Duration;

#[test]
fn pixel_format_order() {
    assert!(PixelFormat::Yuv420p < PixelFormat::Yuv420p10le);
    assert!(PixelFormat::Yuv420p10le < PixelFormat::Yuv444p10le);
}

#[test]
fn encoders_frame_interval_from_str() {
    let from_300 = KeyInterval::from_str("300").unwrap();
    assert_eq!(from_300, KeyInterval::Frames(300));
}

#[test]
fn encoders_duration_interval_from_str() {
    let from_10s = KeyInterval::from_str("10s").unwrap();
    assert_eq!(from_10s, KeyInterval::Duration(Duration::from_secs(10)));
}

#[test]
fn svt_frame_interval_from_str() {
    let from_300 = svt::KeyInterval::from_str("300").unwrap();
    assert_eq!(from_300, svt::KeyInterval::Frames(300));
}

#[test]
fn svt_duration_interval_from_str() {
    let from_10s = svt::KeyInterval::from_str("10s").unwrap();
    assert_eq!(from_10s, svt::KeyInterval::Duration(Duration::from_secs(10)));
}

#[test]
fn key_interval_error_names_both_readings() {
    let err = KeyInterval::from_str("abc").unwrap_err();
    assert!(err.starts_with("frames: invalid digit found in string, duration: "), "{err}");
}

#[test]
fn key_interval_display() {
    assert_eq!(KeyInterval::Frames(-3).display(), "-3");
    assert_eq!(KeyInterval::Duration(Duration::from_secs(90)).display(), "1m 30s");
}

#[test]
fn encoder_defaults() {
    let x264 = EncoderString::from_str("libx264");
    assert_eq!(x264.default_crf_increment(), 100);
    assert_eq!(x264.default_max_crf(), 46_000);
    assert_eq!(x264.default_min_crf(), 10_000);
    let svt = EncoderString::from_str("svt-av1");
    assert_eq!(svt.as_str(), "libsvtav1");
    assert_eq!(svt.default_crf_increment(), 1000);
    assert_eq!(svt.default_max_crf(), 55_000);
    let mpeg2 = EncoderString::from_str("mpeg2video");
    assert_eq!(mpeg2.default_max_crf(), 30_000);
    assert_eq!(mpeg2.default_min_crf(), 2_000);
    assert_eq!(EncoderString::from_str("librav1e").default_max_crf(), 255_000);
    assert_eq!(EncoderString::from_str("libvpx-vp9").default_crf_increment(), 1000);
}

#[test]
fn encoder_default_ffmpeg_args() {
    assert_eq!(EncoderString::from_str("libaom-av1").default_ffmpeg_args(), vec![("-b:v", "0")]);
    assert_eq!(
        EncoderString::from_str("av1_qsv").default_ffmpeg_args(),
        vec![("-look_ahead", "1"), ("-extbrc", "1"), ("-look_ahead_depth", "40")]
    );
    assert!(EncoderString::from_str("libsvtav1").default_ffmpeg_args().is_empty());
}

#[test]
fn preset_number_or_name() {
    assert_eq!(Preset::from_str("8"), Preset::Number(8));
    assert_eq!(Preset::from_str("slow"), Preset::Name("slow".to_string()));
    assert_eq!(Preset::from_str("300"), Preset::Name("300".to_string()));
    assert_eq!(Preset::Number(8).display(), "8");
}

#[test]
fn pixel_format_names() {
    assert_eq!(PixelFormat::try_from("yuv420p10le"), Ok(PixelFormat::Yuv420p10le));
    assert_eq!(PixelFormat::try_from("rgb24"), Err(()));
    assert_eq!(PixelFormat::Yuv420p.max(PixelFormat::Yuv444p10le), PixelFormat::Yuv444p10le);
    assert_eq!(PixelFormat::Yuv444p10le.as_str(), "yuv444p10le");
}

fn duration_text(secs: u64, nanos: u32) -> String {
    KeyInterval::Duration(Duration::new(secs, nanos)).display()
}

#[test]
fn key_interval_duration_text_parts() {
    assert_eq!(duration_text(0, 0), "0s");
    assert_eq!(duration_text(10, 0), "10s");
    assert_eq!(duration_text(9420, 0), "2h 37m");
    assert_eq!(duration_text(0, 32_000_000), "32ms");
    assert_eq!(duration_text(3661, 0), "1h 1m 1s");
    assert_eq!(duration_text(65_918_017, 0), "2years 1month 2days 1s");
    assert_eq!(duration_text(31_557_600, 0), "1year");
    assert_eq!(duration_text(0, 1_001_001), "1ms 1us 1ns");
    assert_eq!(duration_text(1, 500), "1s 500ns");
}

#[test]
fn key_interval_duration_of_huge_numbers_is_refused() {
    // the sum that humantime would carry into `Duration::new(u64::MAX, 1_000_000_000)`
    let err = KeyInterval::from_str("18446744073709551615s 1000000000ns").unwrap_err();
    assert!(err.starts_with("frames: "));
    assert!(err.ends_with(", duration: number is too large or cannot be represented without a lack of precision (values below 1ns are not supported)"));
    // numbers summing to at most 500 000 000 000 are read, leading zeros or not
    assert_eq!(
        KeyInterval::from_str("500000000000s"),
        Ok(KeyInterval::Duration(Duration::from_secs(500_000_000_000)))
    );
    assert_eq!(
        KeyInterval::from_str("000000000001s"),
        Ok(KeyInterval::Duration(Duration::from_secs(1)))
    );
    assert_eq!(
        KeyInterval::from_str("1 2 3s"),
        Ok(KeyInterval::Duration(Duration::from_secs(123)))
    );
    assert!(KeyInterval::from_str("500000000001s").is_err());
}
