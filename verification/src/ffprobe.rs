//! What a probe of the input tells the encoder.
use vstd::prelude::*;
use crate::command::encoders::{PixelFormat, pixel_format_name};

verus! {

/// Why a property of the input could not be probed.
#[derive(Debug, Clone, PartialEq, Eq)]
pub struct ProbeError(pub String);

impl ProbeError {
    /// The message (`Display`).
    pub fn message(&self) -> (r: String)
        ensures
            r@ == self.0@,
    {
        self.0.clone()
    }
}

/// Whether a file whose first bytes are `header` holds an image, as
/// `infer::is_image` decides it.
pub uninterp spec fn infer_is_image(header: Seq<u8>) -> bool;

/// `infer::is_image`: whether the bytes begin like an image format that infer
/// knows. The contract names the answer; which formats count is infer's.
#[verifier::external_body]
fn infer_image(header: &[u8]) -> (r: bool)
    ensures
        r == infer_is_image(header@),
{
    infer::is_image(header)
}

/// Whether the input is an image, from its first bytes (up to 8 KiB).
pub fn is_image(file_header: &[u8]) -> (r: bool)
    ensures
        r == infer_is_image(file_header@),
{
    infer_image(file_header)
}

/// The pixel format of the input's video stream, where it is one the encoders know.
pub fn pixel_format(pix_fmt: Option<&str>) -> (r: Option<PixelFormat>)
    ensures
        match pix_fmt {
            None => r is None,
            Some(p) => match r {
                Some(f) => pixel_format_name(f) == p@,
                None => forall|f: PixelFormat| pixel_format_name(f) != p@,
            },
        },
{
    match pix_fmt {
        None => None,
        Some(p) => match PixelFormat::try_from(p) {
            Ok(f) => Some(f),
            Err(_) => None,
        },
    }
}


/// One stream of the input as ffprobe reports it: the fields a probe reads.
#[derive(Debug, Clone)]
pub struct Stream {
    pub codec_type: Option<String>,
    /// Audio channels.
    pub channels: Option<i64>,
    pub width: Option<i64>,
    pub height: Option<i64>,
    pub pix_fmt: Option<String>,
    /// Average frame rate, e.g. `30000/1001`.
    pub avg_frame_rate: String,
    /// Real base frame rate.
    pub r_frame_rate: String,
}

/// The stream is of the codec type `kind`.
pub open spec fn is_kind(s: Stream, kind: Seq<char>) -> bool {
    match s.codec_type {
        Some(t) => t@ == kind,
        None => false,
    }
}

/// An audio stream.
pub open spec fn is_audio(s: Stream) -> bool {
    is_kind(s, "audio"@)
}

/// A video stream.
pub open spec fn is_video(s: Stream) -> bool {
    is_kind(s, "video"@)
}

/// Whether a stream's codec type is `kind`.
fn stream_is(s: &Stream, kind: &str) -> (r: bool)
    ensures
        r == is_kind(*s, kind@),
{
    match &s.codec_type {
        Some(t) => crate::text::str_eq(t.as_str(), kind),
        None => false,
    }
}

/// The first value that `f` gives for a stream, from stream `i` on.
pub open spec fn first_of<T>(s: Seq<Stream>, f: spec_fn(Stream) -> Option<T>, i: int) -> Option<T>
    decreases s.len() - i,
{
    if i < 0 || i >= s.len() {
        None
    } else if f(s[i]) is Some {
        f(s[i])
    } else {
        first_of(s, f, i + 1)
    }
}

/// The input has audio stream(s).
pub fn has_audio(streams: &Vec<Stream>) -> (r: bool)
    ensures
        r == exists|k: int| 0 <= k < streams@.len() && is_audio(#[trigger] streams@[k]),
{
    proof {
        reveal_strlit("audio");
    }
    let mut i: usize = 0;
    while i < streams.len()
        invariant
            i <= streams@.len(),
            forall|k: int| 0 <= k < i ==> !is_audio(#[trigger] streams@[k]),
        decreases streams@.len() - i,
    {
        if stream_is(&streams[i], "audio") {
            return true;
        }
        i = i + 1;
    }
    false
}

/// The channels of a stream where it is audio and reports them.
pub open spec fn audio_channels(s: Stream) -> Option<i64> {
    if is_audio(s) {
        s.channels
    } else {
        None
    }
}

/// The highest number of channels of the audio streams that report one.
pub fn max_audio_channels(streams: &Vec<Stream>) -> (r: Option<i64>)
    ensures
        match r {
            None => forall|k: int| 0 <= k < streams@.len() ==> (#[trigger] audio_channels(streams@[k])) is None,
            Some(c) => (exists|k: int| 0 <= k < streams@.len() && #[trigger] audio_channels(streams@[k]) == Some(c))
                && forall|k: int|
                0 <= k < streams@.len() ==> (#[trigger] audio_channels(streams@[k]) matches Some(d) ==> d <= c),
        },
{
    proof {
        reveal_strlit("audio");
    }
    let mut best: Option<i64> = None;
    let mut i: usize = 0;
    while i < streams.len()
        invariant
            i <= streams@.len(),
            match best {
                None => forall|k: int| 0 <= k < i ==> (#[trigger] audio_channels(streams@[k])) is None,
                Some(c) => (exists|k: int| 0 <= k < i && #[trigger] audio_channels(streams@[k]) == Some(c))
                    && forall|k: int|
                    0 <= k < i ==> (#[trigger] audio_channels(streams@[k]) matches Some(d) ==> d <= c),
            },
        decreases streams@.len() - i,
    {
        let s = &streams[i];
        if stream_is(s, "audio") {
            if let Some(ch) = s.channels {
                best = match best {
                    Some(c) => if ch > c {
                        Some(ch)
                    } else {
                        Some(c)
                    },
                    None => Some(ch),
                };
            }
        }
        proof {
            assert(audio_channels(streams@[i as int]) == (if is_audio(*s) { s.channels } else { None }));
        }
        i = i + 1;
    }
    best
}

/// A reported size that fits a `u32`.
pub open spec fn size_u32(v: Option<i64>) -> Option<u32> {
    match v {
        Some(x) => if 0 <= x <= u32::MAX {
            Some(x as u32)
        } else {
            None
        },
        None => None,
    }
}

/// The resolution of a stream: where it is video and reports a width and a height
/// that fit a `u32`.
pub open spec fn stream_resolution(s: Stream) -> Option<(u32, u32)> {
    if is_video(s) {
        match (size_u32(s.width), size_u32(s.height)) {
            (Some(w), Some(h)) => Some((w, h)),
            _ => None,
        }
    } else {
        None
    }
}

/// A reported size as a `u32`, where it fits.
fn to_u32(v: Option<i64>) -> (r: Option<u32>)
    ensures
        r == size_u32(v),
{
    match v {
        Some(x) => if 0 <= x && x <= u32::MAX as i64 {
            Some(x as u32)
        } else {
            None
        },
        None => None,
    }
}

/// The resolution of the first video stream that reports one.
pub fn resolution(streams: &Vec<Stream>) -> (r: Option<(u32, u32)>)
    ensures
        r == first_of(streams@, |s: Stream| stream_resolution(s), 0),
{
    proof {
        reveal_strlit("video");
    }
    let ghost f = |s: Stream| stream_resolution(s);
    let mut i: usize = 0;
    while i < streams.len()
        invariant
            i <= streams@.len(),
            f == (|s: Stream| stream_resolution(s)),
            first_of(streams@, f, 0) == first_of(streams@, f, i as int),
        decreases streams@.len() - i,
    {
        let s = &streams[i];
        if stream_is(s, "video") {
            if let (Some(w), Some(h)) = (to_u32(s.width), to_u32(s.height)) {
                return Some((w, h));
            }
        }
        i = i + 1;
    }
    None
}

/// The pixel format of a stream where it is video and reports one.
pub open spec fn video_pix_fmt(s: Stream) -> Option<Seq<char>> {
    if is_video(s) {
        match s.pix_fmt {
            Some(p) => Some(p@),
            None => None,
        }
    } else {
        None
    }
}

/// The pixel format of the first video stream that reports one.
pub fn first_video_pix_fmt(streams: &Vec<Stream>) -> (r: Option<String>)
    ensures
        match first_of(streams@, |s: Stream| video_pix_fmt(s), 0) {
            Some(p) => r matches Some(t) && t@ == p,
            None => r is None,
        },
{
    proof {
        reveal_strlit("video");
    }
    let ghost f = |s: Stream| video_pix_fmt(s);
    let mut i: usize = 0;
    while i < streams.len()
        invariant
            i <= streams@.len(),
            f == (|s: Stream| video_pix_fmt(s)),
            first_of(streams@, f, 0) == first_of(streams@, f, i as int),
        decreases streams@.len() - i,
    {
        let s = &streams[i];
        if stream_is(s, "video") {
            if let Some(p) = &s.pix_fmt {
                return Some(p.clone());
            }
        }
        i = i + 1;
    }
    None
}

/// The frame rates of a stream where it is video: average, then real base.
pub open spec fn video_frame_rates(s: Stream) -> Option<(Seq<char>, Seq<char>)> {
    if is_video(s) {
        Some((s.avg_frame_rate@, s.r_frame_rate@))
    } else {
        None
    }
}

/// The frame rates (average, then real base) of the first video stream; `Err`
/// where there is none.
pub fn frame_rates(streams: &Vec<Stream>) -> (r: Result<(String, String), ProbeError>)
    ensures
        match first_of(streams@, |s: Stream| video_frame_rates(s), 0) {
            Some((avg, base)) => r matches Ok((a, b)) && a@ == avg && b@ == base,
            None => r matches Err(e) && e.0@ == "no video stream found"@,
        },
{
    proof {
        reveal_strlit("video");
        reveal_strlit("no video stream found");
    }
    let ghost f = |s: Stream| video_frame_rates(s);
    let mut i: usize = 0;
    while i < streams.len()
        invariant
            i <= streams@.len(),
            f == (|s: Stream| video_frame_rates(s)),
            first_of(streams@, f, 0) == first_of(streams@, f, i as int),
        decreases streams@.len() - i,
    {
        let s = &streams[i];
        if stream_is(s, "video") {
            return Ok((s.avg_frame_rate.clone(), s.r_frame_rate.clone()));
        }
        i = i + 1;
    }
    Err(ProbeError(crate::text::owned("no video stream found")))
}

} // verus!
