//! svt-av1 encoder arguments.
use vstd::prelude::*;
use crate::command::args::svt::PixelFormat;
use crate::decimal::{spec_decimal, spec_signed_decimal, u64_to_string, i64_to_string};
use crate::text::{extend_owned, push_owned, str_eq, strings_view};

verus! {

/// Exposed SvtAv1EncApp args.
#[derive(Debug, Clone)]
pub struct SvtArgs {
    pub input: String,
    pub vfilter: Option<String>,
    pub pix_fmt: PixelFormat,
    pub crf: u8,
    pub preset: u8,
    pub keyint: Option<i32>,
    pub scd: u8,
    pub args: Vec<String>,
}

/// The `--input-depth` of a format.
pub open spec fn spec_input_depth(p: PixelFormat) -> Seq<char> {
    match p {
        PixelFormat::Yuv420p10le => "10"@,
        PixelFormat::Yuv420p => "8"@,
    }
}

/// The SvtAv1EncApp args that encode yuv from stdin to the bitstream `bitstream`.
pub open spec fn spec_svt_app_args(a: SvtArgs, bitstream: Seq<char>) -> Seq<Seq<char>> {
    let keyint = match a.keyint {
        Some(k) => seq!["--keyint"@, spec_signed_decimal(k as int)],
        None => Seq::empty(),
    };
    seq![
        "-i"@,
        "stdin"@,
        "--crf"@,
        spec_decimal(a.crf as nat),
        "--preset"@,
        spec_decimal(a.preset as nat),
        "--input-depth"@,
        spec_input_depth(a.pix_fmt),
    ] + keyint + seq!["--scd"@, spec_decimal(a.scd as nat), "-b"@, bitstream] + strings_view(a.args@)
}

/// The SvtAv1EncApp args (after the program name) that encode yuv from stdin
/// to `bitstream` (a file, or `stdout`).
pub fn svt_app_args(a: &SvtArgs, bitstream: &str) -> (r: Vec<String>)
    ensures
        strings_view(r@) == spec_svt_app_args(*a, bitstream@),
{
    let mut v: Vec<String> = Vec::new();
    push_owned(&mut v, "-i");
    push_owned(&mut v, "stdin");
    push_owned(&mut v, "--crf");
    let crf = u64_to_string(a.crf as u64);
    push_owned(&mut v, crf.as_str());
    push_owned(&mut v, "--preset");
    let preset = u64_to_string(a.preset as u64);
    push_owned(&mut v, preset.as_str());
    push_owned(&mut v, "--input-depth");
    push_owned(&mut v, a.pix_fmt.input_depth());
    if let Some(k) = a.keyint {
        push_owned(&mut v, "--keyint");
        let ks = i64_to_string(k as i64);
        push_owned(&mut v, ks.as_str());
    }
    push_owned(&mut v, "--scd");
    let scd = u64_to_string(a.scd as u64);
    push_owned(&mut v, scd.as_str());
    push_owned(&mut v, "-b");
    push_owned(&mut v, bitstream);
    extend_owned(&mut v, &a.args);
    assert(strings_view(v@) =~= spec_svt_app_args(*a, bitstream@));
    v
}

/// The audio codec of a full encode without a chosen one: `libopus` where audio
/// is downmixed; `copy` where input and output have the same extension, or there
/// is no audio; otherwise `libopus`.
pub open spec fn spec_default_audio_codec(
    input_ext: Option<Seq<char>>,
    output_ext: Option<Seq<char>>,
    downmix_to_stereo: bool,
    has_audio: bool,
) -> Seq<char> {
    if downmix_to_stereo {
        "libopus"@
    } else if input_ext is Some && input_ext == output_ext {
        "copy"@
    } else if !has_audio {
        "copy"@
    } else {
        "libopus"@
    }
}

/// The audio codec of a full encode without a chosen one.
pub fn default_audio_codec(
    input_ext: Option<&str>,
    output_ext: Option<&str>,
    downmix_to_stereo: bool,
    has_audio: bool,
) -> (r: &'static str)
    ensures
        r@ == spec_default_audio_codec(
            match input_ext {
                Some(e) => Some(e@),
                None => None,
            },
            match output_ext {
                Some(e) => Some(e@),
                None => None,
            },
            downmix_to_stereo,
            has_audio,
        ),
{
    let same = match (input_ext, output_ext) {
        (Some(a), Some(b)) => str_eq(a, b),
        _ => false,
    };
    if downmix_to_stereo {
        "libopus"
    } else if same {
        "copy"
    } else if !has_audio {
        "copy"
    } else {
        "libopus"
    }
}

} // verus!
