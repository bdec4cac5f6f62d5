use ab_av1::command::args::encode::Encode;
use ab_av1::command::args::svt::{parse_svt_arg, KeyInterval, PixelFormat, SvtEncode};
use ab_av1::command::encode::{
    bar_len, default_output_ext, default_output_extension, stereo_downmix, tmp_output_file_name,
    verify_duration,
};
use ab_av1::command::encoders::PixelFormat as EncPixelFormat;
use ab_av1::cuda::CudaConfig;
use ab_av1::duration::Duration;
use ab_av1::ffmpeg::{
    crf_arg, crf_value, encode_args, pre_extension_name, preset_arg, remove_arg, sample_encode_args,
    sample_suffix, FfmpegEncodeArgs,
};
use ab_av1::svtav1::{default_audio_codec, svt_app_args, SvtArgs};
use ab_av1::x264::{x264_sample_args, X26xArgs};

fn strings(v: &[&str]) -> Vec<String> {
    v.iter().map(|s| s.to_string()).collect()
}

#[test]
fn svt_args_get_their_dashes() {
    assert_eq!(parse_svt_arg("film-grain=30"), Ok("--film-grain=30".to_string()));
    assert_eq!(parse_svt_arg("x"), Ok("-x".to_string()));
    assert_eq!(parse_svt_arg("--tune=0"), Ok("--tune=0".to_string()));
    assert_eq!(parse_svt_arg("é=1"), Ok("--é=1".to_string()));
}

#[test]
fn svt_args_that_are_set_here_are_refused() {
    assert_eq!(parse_svt_arg("crf=30"), Err("svt arg --crf cannot be used here".to_string()));
    assert_eq!(parse_svt_arg("i=x"), Err("svt arg -i cannot be used here".to_string()));
    assert_eq!(parse_svt_arg("b=2"), Err("svt arg -b cannot be used here".to_string()));
    assert_eq!(parse_svt_arg("--keyint=3"), Err("svt arg --keyint cannot be used here".to_string()));
}

#[test]
fn svt_encode_hint() {
    let svt = SvtEncode {
        input: "vid.mp4".into(),
        vfilter: Some("scale=320:-1,fps=film".into()),
        pix_format: PixelFormat::Yuv420p,
        preset: 8,
        keyint: Some(KeyInterval::Frames(240)),
        scd: Some(true),
        args: strings(&["--film-grain=30"]),
    };
    assert_eq!(
        svt.encode_hint(32),
        "ab-av1 encode -i \"vid.mp4\" --crf 32 --preset 8 --keyint 240 --scd true \
         --pix-format yuv420p --vfilter \"scale=320:-1,fps=film\" --svt film-grain=30"
    );
    let plain = SvtEncode {
        input: "a b.mkv".into(),
        vfilter: None,
        pix_format: PixelFormat::Yuv420p10le,
        preset: 4,
        keyint: None,
        scd: None,
        args: vec![],
    };
    assert_eq!(plain.encode_hint(30), "ab-av1 encode -i \"a b.mkv\" --crf 30 --preset 4");
}

#[test]
fn svt_pixel_formats() {
    assert_eq!(PixelFormat::Yuv420p10le.as_str(), "yuv420p10le");
    assert_eq!(PixelFormat::Yuv420p.as_str(), "yuv420p");
    assert_eq!(PixelFormat::Yuv420p10le.input_depth(), "10");
    assert_eq!(PixelFormat::Yuv420p.input_depth(), "8");
}

#[test]
fn svt_app_arguments() {
    let a = SvtArgs {
        input: "in.mkv".into(),
        vfilter: None,
        pix_fmt: PixelFormat::Yuv420p10le,
        crf: 32,
        preset: 8,
        keyint: Some(240),
        scd: 1,
        args: strings(&["--film-grain", "30"]),
    };
    assert_eq!(
        svt_app_args(&a, "out.ivf"),
        strings(&[
            "-i", "stdin", "--crf", "32", "--preset", "8", "--input-depth", "10", "--keyint", "240",
            "--scd", "1", "-b", "out.ivf", "--film-grain", "30",
        ])
    );
}

#[test]
fn audio_codec_defaults() {
    assert_eq!(default_audio_codec(Some("mkv"), Some("mkv"), true, true), "libopus");
    assert_eq!(default_audio_codec(Some("mkv"), Some("mkv"), false, true), "copy");
    assert_eq!(default_audio_codec(Some("mp4"), Some("mkv"), false, false), "copy");
    assert_eq!(default_audio_codec(Some("mp4"), Some("mkv"), false, true), "libopus");
    assert_eq!(default_audio_codec(None, None, false, true), "libopus");
}

#[test]
fn x264_sample_arguments() {
    let a = X26xArgs {
        input: "in.mp4".into(),
        vfilter: Some("scale=1280:-1".into()),
        pix_fmt: EncPixelFormat::Yuv420p,
        crf: 23,
        preset: Some("slow".into()),
        keyint: Some(250),
    };
    assert_eq!(
        x264_sample_args(&a, "out.mp4"),
        strings(&[
            "-i", "in.mp4", "-c:v", "libx264", "-crf", "23", "-x264-params", "keyint=250",
            "-pix_fmt", "yuv420p", "-preset", "slow", "-vf", "scale=1280:-1", "-an", "out.mp4",
        ])
    );
}

#[test]
fn encoder_names_in_files() {
    assert_eq!(pre_extension_name("libsvtav1"), "av1");
    assert_eq!(pre_extension_name("libvpx-vp9"), "vp9");
    assert_eq!(pre_extension_name("libx265"), "x265");
    assert_eq!(pre_extension_name("lib"), "lib");
    assert_eq!(pre_extension_name("av1_vaapi"), "av1_vaapi");
}

#[test]
fn encoder_specific_args() {
    assert_eq!(preset_arg("libaom-av1"), "-cpu-used");
    assert_eq!(preset_arg("librav1e"), "-speed");
    assert_eq!(preset_arg("libsvtav1"), "-preset");
    assert_eq!(crf_arg("librav1e"), "-qp");
    assert_eq!(crf_arg("mpeg2video"), "-q");
    assert_eq!(crf_arg("hevc_videotoolbox"), "-q:v");
    assert_eq!(crf_arg("av1_vaapi"), "-qp");
    assert_eq!(crf_arg("h264_vaapi"), "-qp");
    assert_eq!(crf_arg("av1_vulkan"), "-qp");
    assert_eq!(crf_arg("hevc_nvenc"), "-cq");
    assert_eq!(crf_arg("av1_qsv"), "-global_quality");
    assert_eq!(crf_arg("libsvtav1"), "-crf");
    assert_eq!(crf_value("libsvtav1", 70_000), 63_000);
    assert_eq!(crf_value("libaom-av1", 70_000), 70_000);
}

#[test]
fn remove_arg_drops_the_value_too() {
    let mut args = strings(&["-a", "1", "-b", "2", "-a", "3", "-c"]);
    remove_arg(&mut args, "-a");
    assert_eq!(args, strings(&["-b", "2", "-c"]));
    // a repeated arg is dropped with the value after its last occurrence
    let mut args = strings(&["-x", "-x", "v", "keep"]);
    remove_arg(&mut args, "-x");
    assert_eq!(args, strings(&["keep"]));
}

fn enc_args() -> FfmpegEncodeArgs {
    FfmpegEncodeArgs {
        input: "in.mkv".into(),
        vcodec: "libsvtav1".into(),
        vfilter: None,
        pix_fmt: Some(EncPixelFormat::Yuv420p10le),
        crf: 32_500,
        preset: Some("8".into()),
        output_args: vec![],
        input_args: vec![],
        video_only: false,
    }
}

#[test]
fn sample_encode_arguments() {
    assert_eq!(
        sample_encode_args(&enc_args(), "s.mkv"),
        strings(&[
            "-y", "-i", "in.mkv", "-c:v", "libsvtav1", "-fps_mode", "passthrough", "-crf", "32.5",
            "-pix_fmt", "yuv420p10le", "-preset", "8", "-an", "s.mkv",
        ])
    );
    assert_eq!(sample_suffix("libsvtav1", 32_500, Some("8"), "mkv"), "av1.crf32_5.8.mkv");
    assert_eq!(sample_suffix("libx264", 23_000, None, "mp4"), "x264.crf23.mp4");
}

#[test]
fn full_encode_arguments() {
    let mut e = enc_args();
    e.output_args = strings(&["-g", "240"]);
    assert_eq!(
        encode_args(&e, "out.mp4", Some("mp4"), true, None, true),
        strings(&[
            "-y", "-i", "in.mkv", "-map", "0", "-c:v", "copy", "-c:v:0", "libsvtav1", "-metadata",
            "AB_AV1_FFMPEG_ARGS=-c:v libsvtav1 -crf 32.5 -preset 8", "-c:a", "libopus", "-c:s", "copy",
            "-g", "240", "-crf", "32.5", "-pix_fmt", "yuv420p10le", "-preset", "8", "-ac", "2", "-b:a",
            "128k", "-movflags", "+faststart", "out.mp4",
        ])
    );
    e.video_only = true;
    e.output_args = strings(&["-cues_to_front", "n"]);
    assert_eq!(
        encode_args(&e, "out.mkv", Some("mkv"), true, Some("aac"), false),
        strings(&[
            "-y", "-i", "in.mkv", "-map", "0:v:0", "-c:v", "copy", "-c:v:0", "libsvtav1", "-metadata",
            "AB_AV1_FFMPEG_ARGS=-c:v libsvtav1 -crf 32.5 -preset 8", "-c:a", "aac", "-c:s", "copy",
            "-cues_to_front", "n", "-crf", "32.5", "-pix_fmt", "yuv420p10le", "-preset", "8", "-dn",
            "out.mkv",
        ])
    );
}

#[test]
fn cuda_decoding_arguments() {
    let c = CudaConfig {
        decoder: "h264_cuvid".into(),
        filters: strings(&["scale_cuda=1280:720", "hwdownload"]),
        surfaces: 8,
    };
    assert_eq!(
        c.ffmpeg_args(),
        strings(&[
            "-hwaccel", "cuda", "-hwaccel_output_format", "cuda", "-extra_hw_frames", "8", "-c:v",
            "h264_cuvid", "-vf", "scale_cuda=1280:720,hwdownload",
        ])
    );
    let bare = CudaConfig { decoder: "hevc_cuvid".into(), filters: vec![], surfaces: 0 };
    assert_eq!(bare.ffmpeg_args().len(), 8);
}

#[test]
fn cuda_scaled_encode_arguments() {
    let e = Encode {
        vfilter: "scale=1280:-1,fps=24".into(),
        cuda_scaling_method: None,
        auto_hw_decoder: true,
        detected_input_codec: Some("h264".into()),
    };
    assert_eq!(e.scaling_method(), "lanczos");
    assert_eq!(
        e.to_ffmpeg_args("scale_cuda=interp_algo=lanczos:", Some("h264_cuvid")),
        strings(&[
            "-hwaccel", "cuda", "-hwaccel_output_format", "cuda", "-c:v", "h264_cuvid", "-vf",
            "scale_cuda=interp_algo=lanczos:1280:-1,fps=24",
        ])
    );
    let no_hw = Encode { auto_hw_decoder: false, ..e.clone() };
    assert_eq!(no_hw.to_ffmpeg_args("s=", Some("x")), strings(&["-vf", "s=1280:-1,fps=24"]));
}

#[test]
fn encode_decisions() {
    assert_eq!(stereo_downmix(true, Some(6), None), Ok(true));
    assert_eq!(stereo_downmix(true, Some(2), Some("copy")), Ok(false));
    assert_eq!(
        stereo_downmix(true, Some(6), Some("copy")),
        Err("--stereo-downmix cannot be used with --acodec copy".to_string())
    );
    assert_eq!(bar_len(1000, true), 1500);
    assert_eq!(bar_len(0, false), 1);
    assert_eq!(default_output_ext(Some("mp4"), "avif", false), "mp4");
    assert_eq!(default_output_ext(Some("mov"), "avif", false), "mkv");
    assert_eq!(default_output_ext(Some("png"), "avif", true), "avif");
    assert_eq!(default_output_extension("libsvtav1", "mkv"), "av1.mkv");
    assert_eq!(tmp_output_file_name("vid.mkv"), ".tmp.ab-av1-encoding.vid.mkv");
}

#[test]
fn output_duration_is_verified() {
    assert_eq!(verify_duration(Duration::from_secs(60), Duration::from_secs(62)), Ok(()));
    assert_eq!(verify_duration(Duration::zero(), Duration::from_secs(99)), Ok(()));
    assert_eq!(
        verify_duration(Duration::from_secs(60), Duration::new(57, 999_999)),
        Err("verify: output duration 57s does not match input duration 1m".to_string())
    );
}

#[test]
fn svt_hint_round_trips_svt_args() {
    let a = parse_svt_arg("film-grain=30").unwrap();
    let b = parse_svt_arg("g=240").unwrap();
    let svt = SvtEncode {
        input: "vid.mp4".to_string(),
        vfilter: None,
        pix_format: PixelFormat::Yuv420p10le,
        preset: 8,
        keyint: None,
        scd: None,
        args: vec![a.clone(), b.clone()],
    };
    let hint = svt.encode_hint(30);
    assert!(hint.contains(" --svt film-grain=30"));
    assert!(hint.contains(" --svt g=240"));
    assert_eq!(parse_svt_arg("film-grain=30").unwrap(), a);
    assert_eq!(parse_svt_arg("g=240").unwrap(), b);
    assert!(!hint.contains(" --pix-format "));
}
