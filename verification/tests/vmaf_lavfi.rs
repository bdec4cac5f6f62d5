use ab_av1::command::args::vmaf::{
    minimally_scale, parse_vmaf_scale, Vmaf, VmafModel, VmafScale,
};
use ab_av1::command::encoders::PixelFormat;

fn strings(v: &[&str]) -> Vec<String> {
    v.iter().map(|s| s.to_string()).collect()
}

#[test]
fn vmaf_lavfi() {
    let vmaf = Vmaf {
        vmaf_args: strings(&["n_threads=5", "n_subsample=4"]),
        vmaf_scale: VmafScale::Auto,
    };
    assert_eq!(
        vmaf.ffmpeg_lavfi(None, PixelFormat::Yuv420p, Some("scale=1280:-1,fps=24"), 8),
        "[0:v]format=yuv420p,setpts=PTS-STARTPTS[dis];\
         [1:v]format=yuv420p,scale=1280:-1,fps=24,setpts=PTS-STARTPTS[ref];\
         [dis][ref]libvmaf=n_threads=5:n_subsample=4"
    );
}

#[test]
fn vmaf_lavfi_default() {
    let vmaf = Vmaf {
        vmaf_args: vec![],
        vmaf_scale: VmafScale::Auto,
    };
    let threads = 12;
    let expected = format!(
        "[0:v]format=yuv420p10le,setpts=PTS-STARTPTS[dis];\
         [1:v]format=yuv420p10le,setpts=PTS-STARTPTS[ref];\
         [dis][ref]libvmaf=n_threads={}",
        threads
    );
    assert_eq!(vmaf.ffmpeg_lavfi(None, PixelFormat::Yuv420p10le, None, threads), expected);
}

#[test]
fn vmaf_lavfi_include_n_threads() {
    let vmaf = Vmaf {
        vmaf_args: strings(&["log_path=output.xml"]),
        vmaf_scale: VmafScale::Auto,
    };
    let threads = 3;
    let expected = format!(
        "[0:v]format=yuv420p,setpts=PTS-STARTPTS[dis];\
         [1:v]format=yuv420p,setpts=PTS-STARTPTS[ref];\
         [dis][ref]libvmaf=log_path=output.xml:n_threads={}",
        threads
    );
    assert_eq!(vmaf.ffmpeg_lavfi(None, PixelFormat::Yuv420p, None, threads), expected);
}

/// Low resolution videos should be upscaled to 1080p
#[test]
fn vmaf_lavfi_small_width() {
    let vmaf = Vmaf {
        vmaf_args: strings(&["n_threads=5", "n_subsample=4"]),
        vmaf_scale: VmafScale::Auto,
    };
    assert_eq!(
        vmaf.ffmpeg_lavfi(Some((1280, 720)), PixelFormat::Yuv420p, None, 8),
        "[0:v]format=yuv420p,scale=1920:-1:flags=bicubic,setpts=PTS-STARTPTS[dis];\
         [1:v]format=yuv420p,scale=1920:-1:flags=bicubic,setpts=PTS-STARTPTS[ref];\
         [dis][ref]libvmaf=n_threads=5:n_subsample=4"
    );
}

/// 4k videos should use 4k model
#[test]
fn vmaf_lavfi_4k() {
    let vmaf = Vmaf {
        vmaf_args: strings(&["n_threads=5", "n_subsample=4"]),
        vmaf_scale: VmafScale::Auto,
    };
    assert_eq!(
        vmaf.ffmpeg_lavfi(Some((3840, 2160)), PixelFormat::Yuv420p, None, 8),
        "[0:v]format=yuv420p,setpts=PTS-STARTPTS[dis];\
         [1:v]format=yuv420p,setpts=PTS-STARTPTS[ref];\
         [dis][ref]libvmaf=n_threads=5:n_subsample=4:model=version=vmaf_4k_v0.6.1"
    );
}

/// >2k videos should be upscaled to 4k & use 4k model
#[test]
fn vmaf_lavfi_3k_upscale_to_4k() {
    let vmaf = Vmaf {
        vmaf_args: strings(&["n_threads=5"]),
        vmaf_scale: VmafScale::Auto,
    };
    assert_eq!(
        vmaf.ffmpeg_lavfi(Some((3008, 1692)), PixelFormat::Yuv420p, None, 8),
        "[0:v]format=yuv420p,scale=3840:-1:flags=bicubic,setpts=PTS-STARTPTS[dis];\
         [1:v]format=yuv420p,scale=3840:-1:flags=bicubic,setpts=PTS-STARTPTS[ref];\
         [dis][ref]libvmaf=n_threads=5:model=version=vmaf_4k_v0.6.1"
    );
}

/// If user has overridden the model, don't default a vmaf width
#[test]
fn vmaf_lavfi_small_width_custom_model() {
    let vmaf = Vmaf {
        vmaf_args: strings(&["model=version=foo", "n_threads=5", "n_subsample=4"]),
        vmaf_scale: VmafScale::Auto,
    };
    assert_eq!(
        vmaf.ffmpeg_lavfi(Some((1280, 720)), PixelFormat::Yuv420p, None, 8),
        "[0:v]format=yuv420p,setpts=PTS-STARTPTS[dis];\
         [1:v]format=yuv420p,setpts=PTS-STARTPTS[ref];\
         [dis][ref]libvmaf=model=version=foo:n_threads=5:n_subsample=4"
    );
}

#[test]
fn vmaf_lavfi_custom_model_and_width() {
    let vmaf = Vmaf {
        vmaf_args: strings(&["model=version=foo", "n_threads=5", "n_subsample=4"]),
        // if specified just do it
        vmaf_scale: VmafScale::Custom {
            width: 123,
            height: 720,
        },
    };
    assert_eq!(
        vmaf.ffmpeg_lavfi(Some((1280, 720)), PixelFormat::Yuv420p, None, 8),
        "[0:v]format=yuv420p,scale=123:-1:flags=bicubic,setpts=PTS-STARTPTS[dis];\
         [1:v]format=yuv420p,scale=123:-1:flags=bicubic,setpts=PTS-STARTPTS[ref];\
         [dis][ref]libvmaf=model=version=foo:n_threads=5:n_subsample=4"
    );
}

#[test]
fn vmaf_lavfi_1080p() {
    let vmaf = Vmaf {
        vmaf_args: strings(&["n_threads=5", "n_subsample=4"]),
        vmaf_scale: VmafScale::Auto,
    };
    assert_eq!(
        vmaf.ffmpeg_lavfi(Some((1920, 1080)), PixelFormat::Yuv420p, None, 8),
        "[0:v]format=yuv420p,setpts=PTS-STARTPTS[dis];\
         [1:v]format=yuv420p,setpts=PTS-STARTPTS[ref];\
         [dis][ref]libvmaf=n_threads=5:n_subsample=4"
    );
}

#[test]
fn vmaf_lavfi_custom_scale_without_resolution() {
    let vmaf = Vmaf {
        vmaf_args: strings(&["n_threads=2"]),
        vmaf_scale: VmafScale::Custom { width: 640, height: 360 },
    };
    assert_eq!(
        vmaf.ffmpeg_lavfi(None, PixelFormat::Yuv420p, Some("crop=10:10,"), 8),
        "[0:v]format=yuv420p,scale=640:360:flags=bicubic,setpts=PTS-STARTPTS[dis];\
         [1:v]format=yuv420p,crop=10:10,scale=640:360:flags=bicubic,setpts=PTS-STARTPTS[ref];\
         [dis][ref]libvmaf=n_threads=2"
    );
}

#[test]
fn vmaf_lavfi_no_scale() {
    let vmaf = Vmaf {
        vmaf_args: vec![],
        vmaf_scale: VmafScale::Disabled,
    };
    assert_eq!(
        vmaf.ffmpeg_lavfi(Some((1280, 720)), PixelFormat::Yuv420p, None, 4),
        "[0:v]format=yuv420p,setpts=PTS-STARTPTS[dis];\
         [1:v]format=yuv420p,setpts=PTS-STARTPTS[ref];\
         [dis][ref]libvmaf=n_threads=4"
    );
}

#[test]
fn vmaf_default_options() {
    assert!(Vmaf { vmaf_args: vec![], vmaf_scale: VmafScale::Auto }.is_default());
    assert!(!Vmaf { vmaf_args: strings(&["x=1"]), vmaf_scale: VmafScale::Auto }.is_default());
    assert!(!Vmaf { vmaf_args: vec![], vmaf_scale: VmafScale::Disabled }.is_default());
}

#[test]
fn vmaf_model_choice() {
    assert_eq!(VmafModel::from_args(&vec![]), None);
    assert_eq!(VmafModel::from_args(&vec!["model=version=vmaf_v0.6.1"]), Some(VmafModel::Vmaf1K));
    assert_eq!(VmafModel::from_args(&vec!["model=version=vmaf_4k_v0.6.1"]), Some(VmafModel::Vmaf4K));
    assert_eq!(VmafModel::from_args(&vec!["model=path=x.json"]), Some(VmafModel::Custom));
    assert_eq!(
        VmafModel::from_args(&vec!["model=version=vmaf_v0.6.1", "model=x"]),
        Some(VmafModel::Custom)
    );
}

#[test]
fn minimal_scale_picks_the_tighter_side() {
    assert_eq!(minimally_scale((1280, 720), (1920, 1080)), (1920, -1));
    assert_eq!(minimally_scale((720, 1280), (1920, 1080)), (-1, 1080));
    assert_eq!(minimally_scale((1000, 1000), (1920, 1080)), (-1, 1080));
}

#[test]
fn vmaf_scale_parse_and_display() {
    assert_eq!(parse_vmaf_scale("none"), Ok(VmafScale::Disabled));
    assert_eq!(parse_vmaf_scale("auto"), Ok(VmafScale::Auto));
    assert_eq!(
        parse_vmaf_scale("1920x1080"),
        Ok(VmafScale::Custom { width: 1920, height: 1080 })
    );
    let err = "vmaf-scale must be 'none', 'auto' or WxH format e.g. '1920x1080'".to_string();
    assert_eq!(parse_vmaf_scale("1920"), Err(err.clone()));
    assert_eq!(parse_vmaf_scale("ax1"), Err(err.clone()));
    assert_eq!(parse_vmaf_scale("1x-1"), Err(err));
    assert_eq!(VmafScale::Custom { width: 1920, height: 1080 }.display(), "1920x1080");
    assert_eq!(VmafScale::Disabled.display(), "none");
    assert_eq!(VmafScale::Auto.display(), "auto");
}

#[test]
fn vmaf_scale_text_round_trips() {
    for v in [
        VmafScale::Disabled,
        VmafScale::Auto,
        VmafScale::Custom { width: 0, height: 4294967295 },
        VmafScale::Custom { width: 123, height: 720 },
    ] {
        assert_eq!(parse_vmaf_scale(&v.display()), Ok(v));
    }
}
