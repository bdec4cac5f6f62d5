use ab_av1::command::args::Encode;
use ab_av1::command::encoders::{KeyInterval, PixelFormat};
use ab_av1::duration::Duration;
use ab_av1::ffmpeg::decode_args;

fn encode(encoder: &str) -> Encode {
    Encode {
        encoder: encoder.to_string(),
        input: "vid.mkv".to_string(),
        vfilter: None,
        pix_format: None,
        preset: None,
        keyint: None,
        enc_args: vec![],
        enc_input_args: vec![],
    }
}

#[test]
fn encoder_defaults_come_before_given_output_args() {
    let mut e = encode("libaom-av1");
    e.enc_args = vec!["-g".to_string(), "240".to_string()];
    e.enc_input_args = vec!["-hwaccel".to_string(), "auto".to_string()];
    e.preset = Some("08".to_string());
    e.vfilter = Some("scale=1280:-1".to_string());
    e.pix_format = Some(PixelFormat::Yuv420p);
    let f = e.to_ffmpeg_args(32_500, "sample.mkv");
    assert_eq!(f.input, "sample.mkv");
    assert_eq!(f.vcodec, "libaom-av1");
    assert_eq!(f.output_args, vec!["-b:v", "0", "-g", "240"]);
    assert_eq!(f.input_args, vec!["-hwaccel", "auto"]);
    // numeric presets are passed as numbers
    assert_eq!(f.preset.as_deref(), Some("8"));
    assert_eq!(f.vfilter.as_deref(), Some("scale=1280:-1"));
    assert_eq!(f.pix_fmt, Some(PixelFormat::Yuv420p));
    assert_eq!(f.crf, 32_500);
    assert!(!f.video_only);
    // named presets as they are, and the svt-av1 alias
    let mut e = encode("svt-av1");
    e.preset = Some("veryslow".to_string());
    let f = e.to_ffmpeg_args(30_000, "in.mp4");
    assert_eq!(f.vcodec, "libsvtav1");
    assert_eq!(f.preset.as_deref(), Some("veryslow"));
    assert!(f.output_args.is_empty());
}

#[test]
fn encode_hint_repeats_the_args() {
    let mut e = encode("svt-av1");
    assert_eq!(e.encode_hint(32_000), "ab-av1 encode -e libsvtav1 -i \"vid.mkv\" --crf 32");
    e.preset = Some("6".to_string());
    e.keyint = Some(KeyInterval::Duration(Duration::from_secs(10)));
    e.pix_format = Some(PixelFormat::Yuv420p10le);
    e.vfilter = Some("scale=1280:-1".to_string());
    e.enc_args = vec!["-svtav1-params".to_string(), "tune=0".to_string()];
    assert_eq!(
        e.encode_hint(27_500),
        "ab-av1 encode -e libsvtav1 -i \"vid.mkv\" --crf 27.5 --preset 6 --keyint 10s \
         --pix-format yuv420p10le --vfilter \"scale=1280:-1\" --enc=-svtav1-params --enc=tune=0"
    );
    e.keyint = Some(KeyInterval::Frames(300));
    assert!(e.encode_hint(27_500).contains(" --keyint 300 "));
}

#[test]
fn full_decode_arguments() {
    assert_eq!(
        decode_args("out.mkv"),
        vec![
            "-v", "error", "-stats", "-xerror", "-i", "out.mkv", "-map", "0:v?", "-map", "0:a?", "-f", "null", "-",
        ]
    );
}
