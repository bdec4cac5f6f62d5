//! The decisions of a full encode around the ffmpeg run.
use vstd::prelude::*;
use crate::command::encoders::{humantime_format, humantime_format_duration};
use crate::duration::{Duration, floor_ms, spec_floor_ms, NANOS_PER_SEC};
use crate::ffmpeg::{pre_extension_name, spec_pre_extension_name};
use crate::text::{push_str, str_eq};

verus! {

/// Allowed difference between the input duration and the output duration, in
/// seconds: encoders may round the final frame duration.
pub const DURATION_TOLERANCE_SECS: u64 = 2;

/// Share of the progress bar taken by `--verify-decode`, as a divisor of the
/// encode length.
pub const VERIFY_BAR_DIVISOR: u64 = 2;

/// Whether audio is downmixed to stereo: where asked and the input has more than
/// 3 channels; an error where it is asked with the audio codec `copy`.
pub open spec fn spec_stereo_downmix(
    downmix_to_stereo: bool,
    max_audio_channels: Option<i64>,
    audio_codec: Option<Seq<char>>,
) -> Option<bool> {
    let downmix = downmix_to_stereo && match max_audio_channels {
        Some(c) => c > 3,
        None => false,
    };
    if downmix && audio_codec == Some("copy"@) {
        None
    } else {
        Some(downmix)
    }
}

/// Whether audio is downmixed to stereo, or the error of a downmix asked with
/// `--acodec copy`.
pub fn stereo_downmix(downmix_to_stereo: bool, max_audio_channels: Option<i64>, audio_codec: Option<&str>) -> (r: Result<bool, String>)
    ensures
        match spec_stereo_downmix(
            downmix_to_stereo,
            max_audio_channels,
            match audio_codec {
                Some(a) => Some(a@),
                None => None,
            },
        ) {
            Some(d) => r == Ok::<bool, String>(d),
            None => r matches Err(m) && m@ == "--stereo-downmix cannot be used with --acodec copy"@,
        },
{
    let downmix = downmix_to_stereo && match max_audio_channels {
        Some(c) => c > 3,
        None => false,
    };
    let copy = match audio_codec {
        Some(a) => str_eq(a, "copy"),
        None => false,
    };
    if downmix && copy {
        Err(String::from_str("--stereo-downmix cannot be used with --acodec copy"))
    } else {
        Ok(downmix)
    }
}

/// The progress bar length of an encode of `duration_micros`: half as long again
/// where the output is decoded to verify it, at least 1.
pub open spec fn spec_bar_len(duration_micros: u64, verify_decode: bool) -> int {
    let len = if verify_decode {
        duration_micros + duration_micros / 2
    } else {
        duration_micros as int
    };
    if len > 1 {
        len
    } else {
        1
    }
}

/// The progress bar length of an encode.
pub fn bar_len(duration_micros: u64, verify_decode: bool) -> (r: u64)
    requires
        verify_decode ==> duration_micros + duration_micros / 2 <= u64::MAX,
    ensures
        r == spec_bar_len(duration_micros, verify_decode),
{
    let mut len = duration_micros;
    if verify_decode {
        len = len + len / VERIFY_BAR_DIVISOR;
    }
    if len > 1 {
        len
    } else {
        1
    }
}

/// Whether the output's duration matches the input's: where the input declares
/// one (nonzero), within the tolerance.
pub open spec fn spec_duration_ok(expected: Duration, actual: Duration) -> bool {
    expected.total_nanos() == 0 || {
        let d = expected.total_nanos() - actual.total_nanos();
        -(DURATION_TOLERANCE_SECS * NANOS_PER_SEC) <= d <= DURATION_TOLERANCE_SECS * NANOS_PER_SEC
    }
}

/// The verify error of an output whose duration differs from the input's.
pub open spec fn spec_duration_mismatch(expected: Duration, actual: Duration) -> Seq<char> {
    let a = spec_floor_ms(actual);
    let e = spec_floor_ms(expected);
    "verify: output duration "@ + humantime_format((a / 1_000_000_000) as u64, (a % 1_000_000_000) as u32)
        + " does not match input duration "@ + humantime_format(
        (e / 1_000_000_000) as u64,
        (e % 1_000_000_000) as u32,
    )
}

/// Check the output duration against the input's.
pub fn verify_duration(expected: Duration, actual: Duration) -> (r: Result<(), String>)
    requires
        expected.wf(),
        actual.wf(),
    ensures
        r is Ok <==> spec_duration_ok(expected, actual),
        r matches Err(m) ==> m@ == spec_duration_mismatch(expected, actual),
{
    let e = expected.as_nanos();
    let a = actual.as_nanos();
    let tol: u128 = DURATION_TOLERANCE_SECS as u128 * 1_000_000_000;
    let diff = if e >= a {
        e - a
    } else {
        a - e
    };
    if e == 0 || diff <= tol {
        return Ok(());
    }
    let af = floor_ms(actual);
    let ef = floor_ms(expected);
    let mut m = String::from_str("verify: output duration ");
    let at = humantime_format_duration(af.as_secs(), af.subsec_nanos());
    push_str(&mut m, at.as_str());
    push_str(&mut m, " does not match input duration ");
    let et = humantime_format_duration(ef.as_secs(), ef.subsec_nanos());
    push_str(&mut m, et.as_str());
    proof {
        assert(af.spec_secs() == spec_floor_ms(actual) / 1_000_000_000) by (nonlinear_arith)
            requires
                af.total_nanos() == spec_floor_ms(actual),
                af.total_nanos() == af.spec_secs() * 1_000_000_000 + af.spec_nanos(),
                af.spec_nanos() < 1_000_000_000,
        ;
        assert(ef.spec_secs() == spec_floor_ms(expected) / 1_000_000_000) by (nonlinear_arith)
            requires
                ef.total_nanos() == spec_floor_ms(expected),
                ef.total_nanos() == ef.spec_secs() * 1_000_000_000 + ef.spec_nanos(),
                ef.spec_nanos() < 1_000_000_000,
        ;
    }
    Err(m)
}

/// The extension of a default output: the image extension for an image, `mp4` for
/// an mp4 input, otherwise `mkv`.
pub open spec fn spec_default_output_ext(input_ext: Option<Seq<char>>, image_ext: Seq<char>, is_image: bool) -> Seq<char> {
    if is_image {
        image_ext
    } else if input_ext == Some("mp4"@) {
        "mp4"@
    } else {
        "mkv"@
    }
}

/// * vid.mp4 -> "mp4"
/// * vid.??? -> "mkv"
/// * image.??? -> the encoder's image extension
pub fn default_output_ext<'a>(input_ext: Option<&str>, image_ext: &'a str, is_image: bool) -> (r: &'a str)
    ensures
        r@ == spec_default_output_ext(
            match input_ext {
                Some(e) => Some(e@),
                None => None,
            },
            image_ext@,
            is_image,
        ),
{
    if is_image {
        return image_ext;
    }
    let mp4 = match input_ext {
        Some(e) => str_eq(e, "mp4"),
        None => false,
    };
    if mp4 {
        "mp4"
    } else {
        "mkv"
    }
}

/// The new extension of a default output name, e.g. `av1.mkv` for vid.mkv.
pub fn default_output_extension(vcodec: &str, ext: &str) -> (r: String)
    ensures
        r@ == spec_pre_extension_name(vcodec@) + "."@ + ext@,
{
    let mut r = pre_extension_name(vcodec);
    push_str(&mut r, ".");
    push_str(&mut r, ext);
    r
}

/// The file name an encode writes before moving it into place.
pub fn tmp_output_file_name(file_name: &str) -> (r: String)
    ensures
        r@ == ".tmp.ab-av1-encoding."@ + file_name@,
{
    let mut r = String::from_str(".tmp.ab-av1-encoding.");
    push_str(&mut r, file_name);
    r
}

} // verus!
