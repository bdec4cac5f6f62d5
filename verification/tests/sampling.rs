use ab_av1::command::args::Sample;
use ab_av1::command::sample_encode::{sample_plan, sample_start, ScoreKind, Work};
use ab_av1::duration::Duration;

fn sample_args(samples: Option<u64>, every_secs: u64, min_samples: Option<u64>) -> Sample {
    Sample {
        samples,
        sample_every: Duration::from_secs(every_secs),
        min_samples,
        sample_duration: Duration::from_secs(20),
        keep: false,
        temp_dir: None,
        extension: None,
    }
}

#[test]
fn sample_count_by_duration() {
    // 25-36 minutes with samples every 12m: 3 samples
    let s = sample_args(None, 12 * 60, None);
    assert_eq!(s.sample_count(Duration::from_secs(25 * 60)), 3);
    assert_eq!(s.sample_count(Duration::from_secs(36 * 60)), 3);
    assert_eq!(s.sample_count(Duration::from_secs(36 * 60 + 1)), 4);
    assert_eq!(s.sample_count(Duration::zero()), 1);
}

#[test]
fn sample_count_overrides() {
    assert_eq!(sample_args(Some(7), 60, None).sample_count(Duration::from_secs(10)), 7);
    assert_eq!(sample_args(None, 60, Some(5)).sample_count(Duration::from_secs(60)), 5);
    assert_eq!(sample_args(Some(0), 60, None).sample_count(Duration::from_secs(600)), 1);
    // sample_every below a second counts as a second
    assert_eq!(sample_args(None, 0, None).sample_count(Duration::from_secs(10)), 10);
}

#[test]
fn images_are_encoded_whole() {
    let p = sample_plan(true, 5, Duration::from_secs(20), Duration::zero(), None);
    assert_eq!((p.samples, p.full_pass), (1, true));
    assert_eq!(p.sample_duration, Duration::from_secs(1));
}

#[test]
fn mostly_covered_inputs_are_encoded_whole() {
    // 3 x 20s of a 70s input: 60s >= 59.5s
    let p = sample_plan(false, 3, Duration::from_secs(20), Duration::from_secs(70), None);
    assert_eq!((p.samples, p.full_pass), (1, true));
    assert_eq!(p.sample_duration, Duration::from_secs(70));
    // 3 x 20s of a 71s input: 60s < 60.35s
    let p = sample_plan(false, 3, Duration::from_secs(20), Duration::from_secs(71), None);
    assert_eq!((p.samples, p.full_pass), (3, false));
    assert_eq!(p.sample_duration, Duration::from_secs(20));
    // zero sample duration
    let p = sample_plan(false, 3, Duration::zero(), Duration::from_secs(71), None);
    assert!(p.full_pass);
}

#[test]
fn samples_last_at_least_a_frame() {
    let frame = Duration::from_millis(40);
    let p = sample_plan(false, 2, Duration::from_millis(10), Duration::from_secs(100), Some(frame));
    assert_eq!(p.sample_duration, frame);
    let p = sample_plan(false, 2, Duration::from_millis(50), Duration::from_secs(100), Some(frame));
    assert_eq!(p.sample_duration, Duration::from_millis(50));
}

#[test]
fn samples_are_spread_evenly() {
    // 100s input, 2 samples of 20s: gaps of 20s
    let d = Duration::from_secs(100);
    let sd = Duration::from_secs(20);
    assert_eq!(sample_start(d, sd, 2, 0), Duration::from_secs(20));
    assert_eq!(sample_start(d, sd, 2, 1), Duration::from_secs(60));
    // samples longer than the input start back to back
    assert_eq!(sample_start(Duration::from_secs(10), sd, 2, 1), Duration::from_secs(20));
}

#[test]
fn work_labels() {
    assert_eq!(Work::default(), Work::Encode);
    assert_eq!(Work::Encode.fps_label(), "enc");
    assert_eq!(Work::Score(ScoreKind::Vmaf).fps_label(), "vmaf");
    assert_eq!(Work::Score(ScoreKind::Xpsnr).fps_label(), "xpsnr");
    assert_eq!(ScoreKind::Vmaf.display_str(), "VMAF");
    assert_eq!(ScoreKind::Xpsnr.display_str(), "XPSNR");
}

#[test]
fn encoded_sample_extension() {
    let mut s = sample_args(None, 60, None);
    assert_eq!(s.encode_extension(), "mkv");
    s.set_extension_from_input(Some("mp4"), "avif", false);
    assert_eq!(s.encode_extension(), "mp4");
    s.set_extension_from_input(Some("avi"), "avif", false);
    assert_eq!(s.encode_extension(), "mkv");
    s.set_extension_from_input(Some("png"), "avif", true);
    assert_eq!(s.encode_extension(), "avif");
    s.set_extension_from_output(Some("webm"));
    assert_eq!(s.extension.as_deref(), Some("webm"));
    s.set_extension_from_output(None);
    assert_eq!(s.extension, None);
    assert_eq!(s.encode_extension(), "mkv");
    assert_eq!(s.sample_duration, Duration::from_secs(20));
}
