//! libx264 encoding arguments.
use vstd::prelude::*;
use crate::command::encoders::{PixelFormat, pixel_format_name};
use crate::decimal::{spec_decimal, spec_signed_decimal, u64_to_string, i64_to_string};
use crate::ffmpeg::{opt_pair, opt_string};
use crate::text::{push_owned, push_str, strings_view};

verus! {

/// Exposed ffmpeg libx264 / libx265 encoding args.
#[derive(Debug, Clone)]
pub struct X26xArgs {
    pub input: String,
    pub vfilter: Option<String>,
    pub pix_fmt: PixelFormat,
    pub crf: u8,
    pub preset: Option<String>,
    pub keyint: Option<i32>,
}

/// The ffmpeg args that encode a libx264 sample to `dest`, video only.
pub open spec fn spec_x264_sample_args(a: X26xArgs, dest: Seq<char>) -> Seq<Seq<char>> {
    seq!["-i"@, a.input@, "-c:v"@, "libx264"@, "-crf"@, spec_decimal(a.crf as nat)] + opt_pair(
        "-x264-params"@,
        match a.keyint {
            Some(k) => Some("keyint="@ + spec_signed_decimal(k as int)),
            None => None,
        },
    ) + seq!["-pix_fmt"@, pixel_format_name(a.pix_fmt)] + opt_pair("-preset"@, opt_string(a.preset))
        + opt_pair("-vf"@, opt_string(a.vfilter)) + seq!["-an"@, dest]
}

/// The ffmpeg args (after the program name) that encode a libx264 sample to `dest`.
pub fn x264_sample_args(a: &X26xArgs, dest: &str) -> (r: Vec<String>)
    ensures
        strings_view(r@) == spec_x264_sample_args(*a, dest@),
{
    let mut v: Vec<String> = Vec::new();
    push_owned(&mut v, "-i");
    push_owned(&mut v, a.input.as_str());
    push_owned(&mut v, "-c:v");
    push_owned(&mut v, "libx264");
    push_owned(&mut v, "-crf");
    let crf = u64_to_string(a.crf as u64);
    push_owned(&mut v, crf.as_str());
    if let Some(k) = a.keyint {
        push_owned(&mut v, "-x264-params");
        let mut p = String::from_str("keyint=");
        let ks = i64_to_string(k as i64);
        push_str(&mut p, ks.as_str());
        push_owned(&mut v, p.as_str());
    }
    push_owned(&mut v, "-pix_fmt");
    push_owned(&mut v, a.pix_fmt.as_str());
    if let Some(p) = &a.preset {
        push_owned(&mut v, "-preset");
        push_owned(&mut v, p.as_str());
    }
    if let Some(f) = &a.vfilter {
        push_owned(&mut v, "-vf");
        push_owned(&mut v, f.as_str());
    }
    push_owned(&mut v, "-an");
    push_owned(&mut v, dest);
    assert(strings_view(v@) =~= spec_x264_sample_args(*a, dest@));
    v
}

} // verus!
