//! Copying samples out of the input with ffmpeg, `-c:v copy` so it is cheap.
use vstd::prelude::*;
use crate::decimal::{spec_decimal, u64_to_string};
use crate::duration::Duration;
use crate::process::{stderr_text, utf8_lossy};
use crate::text::{contains_str, push_owned, push_str, spec_contains, strings_view};

verus! {

/// The file extension of a sample copied from `start` (seconds, as text) of
/// `frames` frames: always mkv, which works better for samples than the input's.
pub open spec fn spec_copy_extension(start: Seq<char>, frames: u32) -> Seq<char> {
    "sample"@ + start + "+"@ + spec_decimal(frames as nat) + "f.mkv"@
}

/// The extension of the file a sample is copied to.
pub fn sample_copy_extension(start: &str, frames: u32) -> (r: String)
    ensures
        r@ == spec_copy_extension(start@, frames),
{
    let mut s = String::new();
    push_str(&mut s, "sample");
    push_str(&mut s, start);
    push_str(&mut s, "+");
    let n = u64_to_string(frames as u64);
    push_str(&mut s, n.as_str());
    push_str(&mut s, "f.mkv");
    proof {
        reveal_strlit("sample");
        reveal_strlit("+");
        reveal_strlit("f.mkv");
    }
    assert(s@ =~= spec_copy_extension(start@, frames));
    s
}

/// The ffmpeg arguments that copy `frames` video frames of `input` from `start`
/// (seconds, as text) to `dest`, without audio or subtitles, seeking before the
/// input and counting frames rather than time; with generated timestamps where
/// `genpts`.
pub open spec fn spec_copy_args(
    start: Seq<char>,
    input: Seq<char>,
    frames: u32,
    dest: Seq<char>,
    genpts: bool,
) -> Seq<Seq<char>> {
    seq!["-y"@] + (if genpts {
        seq!["-fflags"@, "+genpts"@]
    } else {
        Seq::empty()
    }) + seq![
        "-ss"@,
        start,
        "-i"@,
        input,
        "-frames:v"@,
        spec_decimal(frames as nat),
        "-c:v"@,
        "copy"@,
        "-an"@,
        "-sn"@,
        dest,
    ]
}

/// The ffmpeg arguments of a sample copy.
pub fn sample_copy_args(start: &str, input: &str, frames: u32, dest: &str, genpts: bool) -> (r: Vec<String>)
    ensures
        strings_view(r@) == spec_copy_args(start@, input@, frames, dest@, genpts),
{
    let mut v: Vec<String> = Vec::new();
    push_owned(&mut v, "-y");
    if genpts {
        push_owned(&mut v, "-fflags");
        push_owned(&mut v, "+genpts");
    }
    push_owned(&mut v, "-ss");
    push_owned(&mut v, start);
    push_owned(&mut v, "-i");
    push_owned(&mut v, input);
    push_owned(&mut v, "-frames:v");
    let n = u64_to_string(frames as u64);
    push_owned(&mut v, n.as_str());
    push_owned(&mut v, "-c:v");
    push_owned(&mut v, "copy");
    push_owned(&mut v, "-an");
    push_owned(&mut v, "-sn");
    push_owned(&mut v, dest);
    assert(strings_view(v@) =~= spec_copy_args(start@, input@, frames, dest@, genpts));
    v
}

/// What ffmpeg says when a stream copy meets packets without timestamps.
pub open spec fn unknown_timestamp_msg() -> Seq<char> {
    "Can't write packet with unknown timestamp"@
}

/// Whether a sample copy that exited with `code` is tried again with generated
/// timestamps: it failed, and its stderr tells of packets without timestamps.
pub fn copy_needs_genpts(code: Option<i32>, stderr: &[u8]) -> (r: bool)
    ensures
        r == (code != Some(0i32) && spec_contains(stderr_text(stderr@), unknown_timestamp_msg())),
{
    if code == Some(0i32) {
        return false;
    }
    let text = utf8_lossy(stderr);
    proof {
        reveal_strlit("Can't write packet with unknown timestamp");
    }
    contains_str(text.as_str(), "Can't write packet with unknown timestamp")
}


/// Whether a sample copy starts at a whole second: where samples last at least
/// two seconds.
pub fn copy_floors_start(sample_duration: Duration) -> (r: bool)
    requires
        sample_duration.wf(),
    ensures
        r == (sample_duration.total_nanos() >= 2_000_000_000),
{
    sample_duration.ge(&Duration::from_secs(2))
}

/// A copied sample of `size` bytes is usable: ffmpeg may fail to copy yet exit
/// successfully, leaving a small or empty file.
pub fn check_copy_size(size: u64) -> (r: Result<(), &'static str>)
    ensures
        r is Ok <==> size > 1024,
        r matches Err(m) ==> m@ == "ffmpeg copy failed: encoded sample too small"@,
{
    if size > 1024 {
        Ok(())
    } else {
        Err("ffmpeg copy failed: encoded sample too small")
    }
}

} // verus!
