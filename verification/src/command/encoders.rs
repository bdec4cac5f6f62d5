//! Encoder names, presets, key frame intervals and pixel formats.
use vstd::prelude::*;
use crate::decimal::{digit_value, is_digit, parse_u8, parse_i32, spec_parse_u8, spec_parse_i32, u64_to_string, i64_to_string, spec_decimal, spec_signed_decimal, IntErrorKind};
use crate::duration::Duration;
use crate::text::{chars_of, owned, str_eq, push_str};

verus! {

/// A duration text as `humantime::parse_duration` reads it: whole seconds and the
/// nanoseconds below one second, or the error message.
pub uninterp spec fn humantime_parse(s: Seq<char>) -> Result<(u64, u32), Seq<char>>;

/// One part of a formatted duration: nothing for a zero value; otherwise the
/// value in decimal and the unit name (with an `s` for a plural where the unit
/// takes one), after a space where a part came before.
pub open spec fn duration_part(started: bool, value: nat, name: Seq<char>, plural: bool) -> Seq<char> {
    if value == 0 {
        Seq::empty()
    } else {
        (if started {
            " "@
        } else {
            Seq::empty()
        }) + spec_decimal(value) + name + (if plural && value > 1 {
            "s"@
        } else {
            Seq::empty()
        })
    }
}

/// A duration as `humantime::format_duration` writes it: `0s` for zero;
/// otherwise its years (365.25 days), months (30.44 days), days, hours, minutes,
/// seconds, milliseconds, microseconds and nanoseconds, leaving out the zero
/// ones. Microseconds are written `us`, as humantime writes them without its
/// `mu` feature, which this crate does not enable.
pub open spec fn humantime_format(secs: u64, nanos: u32) -> Seq<char> {
    if secs == 0 && nanos == 0 {
        "0s"@
    } else {
        let years = secs / 31_557_600;
        let ydays = secs % 31_557_600;
        let months = ydays / 2_630_016;
        let mdays = ydays % 2_630_016;
        let days = mdays / 86400;
        let day_secs = mdays % 86400;
        let hours = day_secs / 3600;
        let minutes = day_secs % 3600 / 60;
        let seconds = day_secs % 60;
        let millis = nanos / 1_000_000;
        let micros = nanos / 1000 % 1000;
        let nanosec = nanos % 1000;
        let s1 = years > 0;
        let s2 = s1 || months > 0;
        let s3 = s2 || days > 0;
        let s4 = s3 || hours > 0;
        let s5 = s4 || minutes > 0;
        let s6 = s5 || seconds > 0;
        let s7 = s6 || millis > 0;
        let s8 = s7 || micros > 0;
        duration_part(false, years as nat, "year"@, true) + duration_part(s1, months as nat, "month"@, true)
            + duration_part(s2, days as nat, "day"@, true) + duration_part(s3, hours as nat, "h"@, false)
            + duration_part(s4, minutes as nat, "m"@, false) + duration_part(s5, seconds as nat, "s"@, false)
            + duration_part(s6, millis as nat, "ms"@, false) + duration_part(s7, micros as nat, "us"@, false)
            + duration_part(s8, nanosec as nat, "ns"@, false)
    }
}

/// A character that ends a number of a duration text: an ASCII letter, `µ` or `.`.
pub open spec fn ends_number(c: char) -> bool {
    ('a' <= c && c <= 'z') || ('A' <= c && c <= 'Z') || c == '\u{b5}' || c == '.'
}

/// The digit runs of a text read as decimal numbers: a run is ended by a
/// character that ends a number; other characters than digits within a run are
/// passed over. The sum of the ended runs and the value of the run still open.
pub open spec fn digit_runs(s: Seq<char>) -> (int, int)
    decreases s.len(),
{
    if s.len() == 0 {
        (0, 0)
    } else {
        let (done, open) = digit_runs(s.drop_last());
        if is_digit(s.last()) {
            (done, open * 10 + digit_value(s.last()))
        } else if ends_number(s.last()) {
            (done + open, 0)
        } else {
            (done, open)
        }
    }
}

/// The sum of the numbers that the digit runs of a text spell.
pub open spec fn digit_run_sum(s: Seq<char>) -> int {
    digit_runs(s).0 + digit_runs(s).1
}

/// The largest digit run sum of a duration text that is read.
pub const DURATION_DIGITS_MAX: u64 = 500_000_000_000;

/// `x` capped at `10^12`.
pub open spec fn cap12(x: int) -> int {
    if x > 1_000_000_000_000 {
        1_000_000_000_000
    } else {
        x
    }
}

proof fn lemma_digit_runs_nonneg(s: Seq<char>)
    ensures
        digit_runs(s).0 >= 0,
        digit_runs(s).1 >= 0,
    decreases s.len(),
{
    if s.len() > 0 {
        lemma_digit_runs_nonneg(s.drop_last());
    }
}

/// The sum of the digit runs of `s`, capped at `10^12`.
fn digit_run_sum_capped(s: &str) -> (r: u64)
    ensures
        r == cap12(digit_run_sum(s@)),
{
    let c = chars_of(s);
    let mut done: u64 = 0;
    let mut open: u64 = 0;
    let mut i: usize = 0;
    while i < c.len()
        invariant
            i <= c@.len(),
            done == cap12(digit_runs(c@.take(i as int)).0),
            open == cap12(digit_runs(c@.take(i as int)).1),
        decreases c@.len() - i,
    {
        let ghost prev = c@.take(i as int);
        assert(c@.take(i + 1).drop_last() =~= prev);
        assert(c@.take(i + 1).last() == c@[i as int]);
        proof {
            lemma_digit_runs_nonneg(prev);
        }
        let ch = c[i];
        if '0' <= ch && ch <= '9' {
            let d = (ch as u32 - '0' as u32) as u64;
            assert(d == digit_value(ch));
            if open < 1_000_000_000_000 {
                let v = open * 10 + d;
                open = if v > 1_000_000_000_000 {
                    1_000_000_000_000
                } else {
                    v
                };
            }
        } else if ('a' <= ch && ch <= 'z') || ('A' <= ch && ch <= 'Z') || ch == '\u{b5}' || ch == '.' {
            let v = done + open;
            done = if v > 1_000_000_000_000 {
                1_000_000_000_000
            } else {
                v
            };
            open = 0;
        }
        i = i + 1;
    }
    assert(c@.take(c@.len() as int) =~= c@);
    proof {
        lemma_digit_runs_nonneg(c@);
    }
    let v = done + open;
    if v > 1_000_000_000_000 {
        1_000_000_000_000
    } else {
        v
    }
}

/// `humantime::parse_duration`: seconds and sub-second nanoseconds of the parsed
/// duration, or the error's message. The contract names the result; beyond it, it
/// claims only that the nanoseconds are below one second, as `Duration` guarantees.
///
/// `parse_duration` panics where the seconds it has summed reach `u64::MAX` with a
/// whole second of nanoseconds not yet carried (it carries only above a second).
/// Every number it adds is read from the digits of the text: an integer part is
/// the digits up to a letter or `.` (it skips white space between them), at most
/// the value of one digit run (see [`digit_runs`]); a fraction adds less than one
/// of its unit and, where it is not zero, has a digit run of value at least 1.
/// No unit is longer than a year, 31 557 600 seconds. So the seconds of a text whose digit runs sum to at
/// most 500 000 000 000 stay below 1.58e19, short of `u64::MAX`, and only such
/// texts are taken. Texts beyond that bound that humantime reads are left out too.
#[verifier::external_body]
fn humantime_parse_duration(s: &str) -> (r: Result<(u64, u32), String>)
    requires
        digit_run_sum(s@) <= DURATION_DIGITS_MAX,
    ensures
        match r {
            Ok(d) => humantime_parse(s@) == Ok::<(u64, u32), Seq<char>>(d) && d.1 < 1_000_000_000,
            Err(e) => humantime_parse(s@) == Err::<(u64, u32), Seq<char>>(e@),
        },
{
    humantime::parse_duration(s).map(|d| (d.as_secs(), d.subsec_nanos())).map_err(|e| e.to_string())
}

/// The message for a duration text whose digit runs sum beyond
/// `DURATION_DIGITS_MAX`, which is not read:
/// humantime's own message for a number too large.
pub open spec fn duration_too_long_msg() -> Seq<char> {
    "number is too large or cannot be represented without a lack of precision (values below 1ns are not supported)"@
}

/// `humantime::format_duration` of `secs` seconds and `nanos` nanoseconds: the
/// text its `Display` writes, as [`humantime_format`] states it.
#[verifier::external_body]
pub(crate) fn humantime_format_duration(secs: u64, nanos: u32) -> (r: String)
    requires
        nanos < 1_000_000_000,
    ensures
        r@ == humantime_format(secs, nanos),
{
    humantime::format_duration(std::time::Duration::new(secs, nanos)).to_string()
}

/// Video codec for encoding.
#[derive(Clone, Debug, PartialEq, Eq, Hash)]
pub struct EncoderString(pub String);

/// Default crf search increment of an encoder, in thousandths of a crf step:
/// 0.1 for x264 and x265, otherwise 1.
pub open spec fn spec_default_crf_increment(e: Seq<char>) -> u32 {
    if e == "libx264"@ || e == "libx265"@ {
        100
    } else {
        1000
    }
}

/// Default maximum crf of an encoder, in thousandths: 46 for x264 and x265, 255 for
/// rav1e and av1_vaapi, 30 for mpeg2video, otherwise 55.
pub open spec fn spec_default_max_crf(e: Seq<char>) -> u32 {
    if e == "libx264"@ || e == "libx265"@ {
        46_000
    } else if e == "librav1e"@ || e == "av1_vaapi"@ {
        255_000
    } else if e == "mpeg2video"@ {
        30_000
    } else {
        55_000
    }
}

/// Default minimum crf of an encoder, in thousandths: 2 for mpeg2video, otherwise 10.
pub open spec fn spec_default_min_crf(e: Seq<char>) -> u32 {
    if e == "mpeg2video"@ {
        2_000
    } else {
        10_000
    }
}

/// Additional encoder specific ffmpeg arg defaults.
pub open spec fn spec_default_ffmpeg_args(e: Seq<char>) -> Seq<(Seq<char>, Seq<char>)> {
    if e == "libaom-av1"@ || e == "libvpx-vp9"@ {
        seq![("-b:v"@, "0"@)]
    } else if e == "av1_qsv"@ || e == "hevc_qsv"@ || e == "h264_qsv"@ {
        seq![("-look_ahead"@, "1"@), ("-extbrc"@, "1"@), ("-look_ahead_depth"@, "40"@)]
    } else {
        seq![]
    }
}

/// The views of a list of argument pairs.
pub open spec fn pairs_view(v: Seq<(&str, &str)>) -> Seq<(Seq<char>, Seq<char>)> {
    v.map_values(|p: (&str, &str)| (p.0@, p.1@))
}

impl EncoderString {
    /// vcodec name that would work if you used it as the -e argument.
    pub fn as_str(&self) -> (r: &str)
        ensures
            r@ == self.0@,
    {
        self.0.as_str()
    }

    /// Returns default crf-increment, in thousandths.
    ///
    /// Generally 0.1 if codec supports decimal crf.
    pub fn default_crf_increment(&self) -> (r: u32)
        ensures
            r == spec_default_crf_increment(self.0@),
    {
        let e = self.as_str();
        if str_eq(e, "libx264") || str_eq(e, "libx265") {
            100
        } else {
            1000
        }
    }

    /// Returns the default maximum crf, in thousandths.
    pub fn default_max_crf(&self) -> (r: u32)
        ensures
            r == spec_default_max_crf(self.0@),
    {
        let e = self.as_str();
        if str_eq(e, "libx264") || str_eq(e, "libx265") {
            46_000
        } else if str_eq(e, "librav1e") || str_eq(e, "av1_vaapi") {
            255_000
        } else if str_eq(e, "mpeg2video") {
            30_000
        } else {
            55_000
        }
    }

    /// Returns the default minimum crf, in thousandths.
    pub fn default_min_crf(&self) -> (r: u32)
        ensures
            r == spec_default_min_crf(self.0@),
    {
        if str_eq(self.as_str(), "mpeg2video") {
            2_000
        } else {
            10_000
        }
    }

    /// Additional encoder specific ffmpeg arg defaults.
    pub fn default_ffmpeg_args(&self) -> (r: Vec<(&'static str, &'static str)>)
        ensures
            pairs_view(r@) == spec_default_ffmpeg_args(self.0@),
    {
        let e = self.as_str();
        let mut r: Vec<(&'static str, &'static str)> = Vec::new();
        if str_eq(e, "libaom-av1") || str_eq(e, "libvpx-vp9") {
            // add `-b:v 0` for aom & vp9 to use "constant quality" mode
            r.push(("-b:v", "0"));
        } else if str_eq(e, "av1_qsv") || str_eq(e, "hevc_qsv") || str_eq(e, "h264_qsv") {
            // enable lookahead mode for qsv encoders
            r.push(("-look_ahead", "1"));
            r.push(("-extbrc", "1"));
            r.push(("-look_ahead_depth", "40"));
        }
        assert(pairs_view(r@) =~= spec_default_ffmpeg_args(self.0@));
        r
    }

    /// The encoder named `s`; `svt-av1` is an alias of `libsvtav1`.
    pub fn from_str(s: &str) -> (r: EncoderString)
        ensures
            r.0@ == if s@ == "svt-av1"@ {
                "libsvtav1"@
            } else {
                s@
            },
    {
        if str_eq(s, "svt-av1") {
            // Support "svt-av1" alias for back compat
            EncoderString(String::from_str("libsvtav1"))
        } else {
            EncoderString(owned(s))
        }
    }
}

/// Encoder preset: a number or a name.
#[derive(Debug, Clone, PartialEq, Eq, Hash)]
pub enum Preset {
    Number(u8),
    Name(String),
}

impl Preset {
    /// `s` as a `u8` preset number, otherwise a named preset.
    pub fn from_str(s: &str) -> (r: Preset)
        ensures
            match spec_parse_u8(s@) {
                Ok(n) => r == Preset::Number(n as u8),
                Err(_) => r matches Preset::Name(name) && name@ == s@,
            },
    {
        match parse_u8(s) {
            Ok(n) => Preset::Number(n),
            Err(_) => Preset::Name(owned(s)),
        }
    }

    /// The text of the preset, as `Display` writes it.
    pub fn display(&self) -> (r: String)
        ensures
            r@ == match self {
                Preset::Number(n) => spec_decimal(*n as nat),
                Preset::Name(name) => name@,
            },
    {
        match self {
            Preset::Number(n) => u64_to_string(*n as u64),
            Preset::Name(name) => name.clone(),
        }
    }
}

/// Interval between key frames: a number of frames or a duration.
#[derive(Debug, Clone, Copy, PartialEq, Eq)]
pub enum KeyInterval {
    Frames(i32),
    Duration(Duration),
}

/// What `KeyInterval::from_str` gives for `s`: frames where `s` is an `i32`,
/// otherwise a duration where humantime reads one, otherwise the error message
/// `frames: <int error>, duration: <humantime error>`. A duration text whose
/// digit runs sum beyond `DURATION_DIGITS_MAX` is refused with humantime's
/// message for a number too large.
pub open spec fn key_interval_of(s: Seq<char>, r: Result<KeyInterval, String>) -> bool {
    match spec_parse_i32(s) {
        Ok(f) => r == Ok::<KeyInterval, String>(KeyInterval::Frames(f as i32)),
        Err(fe) => if digit_run_sum(s) > DURATION_DIGITS_MAX {
            r matches Err(msg) && msg@ == "frames: "@ + fe.spec_message() + ", duration: "@
                + duration_too_long_msg()
        } else {
            match humantime_parse(s) {
            Ok((secs, nanos)) => r matches Ok(KeyInterval::Duration(d)) && d.wf() && d.total_nanos()
                == secs * 1_000_000_000 + nanos,
            Err(he) => r matches Err(msg) && msg@ == "frames: "@ + fe.spec_message()
                + ", duration: "@ + he,
            }
        },
    }
}

/// The text of a key interval, as `Display` writes it.
pub open spec fn key_interval_text(k: KeyInterval) -> Seq<char> {
    match k {
        KeyInterval::Frames(f) => spec_signed_decimal(f as int),
        KeyInterval::Duration(d) => humantime_format(d.spec_secs(), d.spec_nanos()),
    }
}

impl KeyInterval {
    /// Parse as integer frames or a duration.
    pub fn from_str(s: &str) -> (r: Result<KeyInterval, String>)
        ensures
            key_interval_of(s@, r),
    {
        let frame_err = match parse_i32(s) {
            Ok(f) => return Ok(KeyInterval::Frames(f)),
            Err(err) => err,
        };
        if digit_run_sum_capped(s) > DURATION_DIGITS_MAX {
            let mut msg = String::from_str("frames: ");
            let fe = frame_err.message();
            push_str(&mut msg, fe.as_str());
            push_str(&mut msg, ", duration: ");
            push_str(
                &mut msg,
                "number is too large or cannot be represented without a lack of precision (values below 1ns are not supported)",
            );
            return Err(msg);
        }
        match humantime_parse_duration(s) {
            Ok((secs, nanos)) => Ok(KeyInterval::Duration(Duration::new(secs, nanos))),
            Err(e) => {
                let mut msg = String::from_str("frames: ");
                let fe = frame_err.message();
                push_str(&mut msg, fe.as_str());
                push_str(&mut msg, ", duration: ");
                push_str(&mut msg, e.as_str());
                Err(msg)
            },
        }
    }

    /// The text of the interval, as `Display` writes it.
    pub fn display(&self) -> (r: String)
        requires
            self matches KeyInterval::Duration(d) ==> d.wf(),
        ensures
            r@ == key_interval_text(*self),
    {
        match self {
            KeyInterval::Frames(frames) => i64_to_string(*frames as i64),
            KeyInterval::Duration(d) => humantime_format_duration(d.as_secs(), d.subsec_nanos()),
        }
    }
}

/// Ordered by ascending quality.
#[derive(Clone, Copy, Debug, PartialEq, Eq, PartialOrd, Ord, Hash, Structural)]
pub enum PixelFormat {
    Yuv420p,
    Yuv420p10le,
    Yuv444p10le,
}

/// The ffmpeg name of a pixel format.
pub open spec fn pixel_format_name(p: PixelFormat) -> Seq<char> {
    match p {
        PixelFormat::Yuv420p10le => "yuv420p10le"@,
        PixelFormat::Yuv444p10le => "yuv444p10le"@,
        PixelFormat::Yuv420p => "yuv420p"@,
    }
}

/// Position in the ascending quality order.
pub open spec fn pixel_format_rank(p: PixelFormat) -> int {
    match p {
        PixelFormat::Yuv420p => 0,
        PixelFormat::Yuv420p10le => 1,
        PixelFormat::Yuv444p10le => 2,
    }
}

impl PixelFormat {
    /// The ffmpeg name of the format.
    pub fn as_str(self) -> (r: &'static str)
        ensures
            r@ == pixel_format_name(self),
    {
        match self {
            PixelFormat::Yuv420p10le => "yuv420p10le",
            PixelFormat::Yuv444p10le => "yuv444p10le",
            PixelFormat::Yuv420p => "yuv420p",
        }
    }

    /// The format named `value`.
    pub fn try_from(value: &str) -> (r: Result<PixelFormat, ()>)
        ensures
            match r {
                Ok(p) => pixel_format_name(p) == value@,
                Err(_) => forall|p: PixelFormat| pixel_format_name(p) != value@,
            },
    {
        proof {
            reveal_strlit("yuv420p10le");
            reveal_strlit("yuv444p10le");
            reveal_strlit("yuv420p");
        }
        if str_eq(value, "yuv420p10le") {
            Ok(PixelFormat::Yuv420p10le)
        } else if str_eq(value, "yuv444p10le") {
            Ok(PixelFormat::Yuv444p10le)
        } else if str_eq(value, "yuv420p") {
            Ok(PixelFormat::Yuv420p)
        } else {
            Err(())
        }
    }

    /// The higher quality of two formats (`Ord::max`).
    pub fn max(self, other: PixelFormat) -> (r: PixelFormat)
        ensures
            r == if pixel_format_rank(other) >= pixel_format_rank(self) {
                other
            } else {
                self
            },
    {
        let a: u8 = match self {
            PixelFormat::Yuv420p => 0,
            PixelFormat::Yuv420p10le => 1,
            PixelFormat::Yuv444p10le => 2,
        };
        let b: u8 = match other {
            PixelFormat::Yuv420p => 0,
            PixelFormat::Yuv420p10le => 1,
            PixelFormat::Yuv444p10le => 2,
        };
        if b >= a {
            other
        } else {
            self
        }
    }
}

/// A frame count's text parses back to the same key interval.
pub proof fn lemma_frames_round_trip(f: i32)
    ensures
        key_interval_of(key_interval_text(KeyInterval::Frames(f)), Ok(KeyInterval::Frames(f))),
{
    crate::decimal::lemma_parse_signed_decimal(f as int, i32::MIN as int, i32::MAX as int);
}

/// A preset number's text parses back to the same preset.
pub proof fn lemma_preset_number_round_trip(n: u8)
    ensures
        spec_parse_u8(spec_decimal(n as nat)) == Ok::<int, IntErrorKind>(n as int),
{
    crate::decimal::lemma_parse_decimal(n as nat, 0, u8::MAX as int);
}

} // verus!
