//! ffmpeg encoding arguments.
use vstd::prelude::*;
use crate::command::encoders::{PixelFormat, pixel_format_name};
use crate::decimal::{spec_terse_milli, terse_milli};
use crate::text::{
    chars_of, ends_with_str, extend_owned, owned, push_owned, push_str, spec_ends_with, spec_starts_with,
    starts_with_str, str_eq, string_of, strings_view, sub_chars,
};

verus! {

/// The name of an encoder in file names: without a `lib` prefix, `av1` for
/// svt-av1 and `vp9` for vpx-vp9.
pub open spec fn spec_pre_extension_name(vcodec: Seq<char>) -> Seq<char> {
    if spec_starts_with(vcodec, "lib"@) && vcodec.len() > 3 {
        let rest = vcodec.subrange(3, vcodec.len() as int);
        if rest == "svtav1"@ {
            "av1"@
        } else if rest == "vpx-vp9"@ {
            "vp9"@
        } else {
            rest
        }
    } else {
        vcodec
    }
}

/// The name of an encoder in file names.
pub fn pre_extension_name(vcodec: &str) -> (r: String)
    ensures
        r@ == spec_pre_extension_name(vcodec@),
{
    let cs = chars_of(vcodec);
    if starts_with_str(vcodec, "lib") && cs.len() > 3 {
        proof {
            reveal_strlit("lib");
        }
        let rest = sub_chars(cs.as_slice(), 3, cs.len());
        let rest = string_of(rest.as_slice());
        if str_eq(rest.as_str(), "svtav1") {
            String::from_str("av1")
        } else if str_eq(rest.as_str(), "vpx-vp9") {
            String::from_str("vp9")
        } else {
            rest
        }
    } else {
        owned(vcodec)
    }
}

/// The arg that sets an encoder's preset: `-cpu-used` for aom and vpx-vp9,
/// `-speed` for rav1e, otherwise `-preset`.
pub open spec fn spec_preset_arg(vcodec: Seq<char>) -> Seq<char> {
    if vcodec == "libaom-av1"@ || vcodec == "libvpx-vp9"@ {
        "-cpu-used"@
    } else if vcodec == "librav1e"@ {
        "-speed"@
    } else {
        "-preset"@
    }
}

/// Arg to use preset values with, normally `-preset`.
pub fn preset_arg(vcodec: &str) -> (r: &'static str)
    ensures
        r@ == spec_preset_arg(vcodec@),
{
    if str_eq(vcodec, "libaom-av1") || str_eq(vcodec, "libvpx-vp9") {
        "-cpu-used"
    } else if str_eq(vcodec, "librav1e") {
        "-speed"
    } else {
        "-preset"
    }
}

/// The arg that sets an encoder's crf, or the crf-like arg of an encoder without one.
pub open spec fn spec_crf_arg(vcodec: Seq<char>) -> Seq<char> {
    if vcodec == "librav1e"@ || vcodec == "libvvenc"@ {
        "-qp"@
    } else if vcodec == "mpeg2video"@ {
        "-q"@
    } else if vcodec == "hevc_videotoolbox"@ {
        "-q:v"@
    } else if spec_ends_with(vcodec, "_vaapi"@) {
        "-qp"@
    } else if spec_ends_with(vcodec, "_vulkan"@) {
        "-qp"@
    } else if spec_ends_with(vcodec, "_nvenc"@) {
        "-cq"@
    } else if spec_ends_with(vcodec, "_qsv"@) {
        "-global_quality"@
    } else {
        "-crf"@
    }
}

/// Arg to use crf values with, normally `-crf`.
pub fn crf_arg(vcodec: &str) -> (r: &'static str)
    ensures
        r@ == spec_crf_arg(vcodec@),
{
    if str_eq(vcodec, "librav1e") || str_eq(vcodec, "libvvenc") {
        "-qp"
    } else if str_eq(vcodec, "mpeg2video") {
        "-q"
    } else if str_eq(vcodec, "hevc_videotoolbox") {
        "-q:v"
    } else if ends_with_str(vcodec, "_vaapi") {
        // vaapi encoders have no crf
        "-qp"
    } else if ends_with_str(vcodec, "_vulkan") {
        "-qp"
    } else if ends_with_str(vcodec, "_nvenc") {
        "-cq"
    } else if ends_with_str(vcodec, "_qsv") {
        "-global_quality"
    } else {
        "-crf"
    }
}

/// The crf given to ffmpeg, in thousandths: at most 63 for svt-av1, whose higher
/// values ffmpeg does not take.
pub open spec fn spec_crf_value(vcodec: Seq<char>, crf: u64) -> u64 {
    if vcodec == "libsvtav1"@ && crf > 63_000 {
        63_000
    } else {
        crf
    }
}

/// crf value to pass to ffmpeg, in thousandths.
pub fn crf_value(vcodec: &str, crf: u64) -> (r: u64)
    ensures
        r == spec_crf_value(vcodec@, crf),
{
    if str_eq(vcodec, "libsvtav1") && crf > 63_000 {
        63_000
    } else {
        crf
    }
}

/// `args` without each `arg` and the value that follows it.
pub open spec fn spec_remove_arg(args: Seq<Seq<char>>, arg: Seq<char>, i: int, retain_next: bool) -> Seq<Seq<char>>
    decreases args.len() - i,
{
    if i < 0 || i >= args.len() {
        Seq::empty()
    } else if args[i] == arg {
        spec_remove_arg(args, arg, i + 1, false)
    } else if !retain_next {
        spec_remove_arg(args, arg, i + 1, true)
    } else {
        seq![args[i]] + spec_remove_arg(args, arg, i + 1, true)
    }
}

/// Remove each `arg` and the value after it from `args`.
pub fn remove_arg(args: &mut Vec<String>, arg: &str)
    ensures
        strings_view(final(args)@) == spec_remove_arg(strings_view(old(args)@), arg@, 0, true),
{
    let ghost all = strings_view(args@);
    let mut kept: Vec<String> = Vec::new();
    let mut retain_next = true;
    let mut i: usize = 0;
    while i < args.len()
        invariant
            i <= args@.len(),
            all == strings_view(args@),
            strings_view(kept@) + spec_remove_arg(all, arg@, i as int, retain_next)
                == spec_remove_arg(all, arg@, 0, true),
        decreases args@.len() - i,
    {
        let a = args[i].as_str();
        assert(a@ == all[i as int]);
        if str_eq(a, arg) {
            retain_next = false;
        } else if !retain_next {
            retain_next = true;
        } else {
            let ghost before = strings_view(kept@);
            push_owned(&mut kept, a);
            assert(strings_view(kept@) + spec_remove_arg(all, arg@, i + 1, true) =~= before + (seq![all[i as int]]
                + spec_remove_arg(all, arg@, i + 1, true)));
        }
        i = i + 1;
    }
    assert(strings_view(kept@) =~= spec_remove_arg(all, arg@, 0, true));
    *args = kept;
}

/// After `remove_arg`, `arg` is nowhere among the args.
pub proof fn lemma_remove_arg_removes(args: Seq<Seq<char>>, arg: Seq<char>, i: int, retain_next: bool)
    ensures
        forall|j: int|
            0 <= j < spec_remove_arg(args, arg, i, retain_next).len() ==> #[trigger] spec_remove_arg(
                args,
                arg,
                i,
                retain_next,
            )[j] != arg,
    decreases args.len() - i,
{
    let r = spec_remove_arg(args, arg, i, retain_next);
    if 0 <= i < args.len() {
        lemma_remove_arg_removes(args, arg, i + 1, false);
        lemma_remove_arg_removes(args, arg, i + 1, true);
        let rest = spec_remove_arg(args, arg, i + 1, true);
        if args[i] == arg {
            assert(r == spec_remove_arg(args, arg, i + 1, false));
        } else if !retain_next {
            assert(r == rest);
        } else {
            assert(r == seq![args[i]] + rest);
            assert forall|j: int| 0 <= j < r.len() implies #[trigger] r[j] != arg by {
                if j > 0 {
                    assert(r[j] == rest[j - 1]);
                }
            }
        }
    }
}

/// Exposed ffmpeg encoding args (crf in thousandths).
#[derive(Debug, Clone)]
pub struct FfmpegEncodeArgs {
    pub input: String,
    pub vcodec: String,
    pub vfilter: Option<String>,
    pub pix_fmt: Option<PixelFormat>,
    pub crf: u64,
    pub preset: Option<String>,
    pub output_args: Vec<String>,
    pub input_args: Vec<String>,
    pub video_only: bool,
}

/// `[name, value]` where there is a value.
pub open spec fn opt_pair(name: Seq<char>, value: Option<Seq<char>>) -> Seq<Seq<char>> {
    match value {
        Some(v) => seq![name, v],
        None => Seq::empty(),
    }
}

/// The view of an optional owned text.
pub open spec fn opt_string(s: Option<String>) -> Option<Seq<char>> {
    match s {
        Some(v) => Some(v@),
        None => None,
    }
}

/// The view of an optional text.
pub open spec fn opt_text(s: Option<&str>) -> Option<Seq<char>> {
    match s {
        Some(v) => Some(v@),
        None => None,
    }
}

/// The encoder settings every encode passes: crf, pixel format, preset and video filter.
pub open spec fn spec_quality_args(e: FfmpegEncodeArgs) -> Seq<Seq<char>> {
    seq![spec_crf_arg(e.vcodec@), spec_terse_milli(spec_crf_value(e.vcodec@, e.crf) as nat)]
        + opt_pair(
        "-pix_fmt"@,
        match e.pix_fmt {
            Some(p) => Some(pixel_format_name(p)),
            None => None,
        },
    ) + opt_pair(spec_preset_arg(e.vcodec@), opt_string(e.preset)) + opt_pair(
        "-vf"@,
        opt_string(e.vfilter),
    )
}

/// Appends `[name, value]` where there is a value.
fn push_opt_pair(v: &mut Vec<String>, name: &str, value: Option<&str>)
    ensures
        strings_view(final(v)@) == strings_view(old(v)@) + opt_pair(name@, opt_text(value)),
{
    if let Some(x) = value {
        push_owned(v, name);
        push_owned(v, x);
    }
    assert(strings_view(v@) =~= strings_view(old(v)@) + opt_pair(name@, opt_text(value)));
}

/// The optional text of an optional owned text.
fn as_opt_str(s: &Option<String>) -> (r: Option<&str>)
    ensures
        opt_text(r) == opt_string(*s),
{
    match s {
        Some(v) => Some(v.as_str()),
        None => None,
    }
}

/// Appends the crf, pixel format, preset and video filter args.
fn push_quality_args(v: &mut Vec<String>, e: &FfmpegEncodeArgs)
    ensures
        strings_view(final(v)@) == strings_view(old(v)@) + spec_quality_args(*e),
{
    push_owned(v, crf_arg(e.vcodec.as_str()));
    let crf = terse_milli(crf_value(e.vcodec.as_str(), e.crf));
    push_owned(v, crf.as_str());
    let pf = match e.pix_fmt {
        Some(p) => Some(p.as_str()),
        None => None,
    };
    push_opt_pair(v, "-pix_fmt", pf);
    push_opt_pair(v, preset_arg(e.vcodec.as_str()), as_opt_str(&e.preset));
    push_opt_pair(v, "-vf", as_opt_str(&e.vfilter));
    assert(strings_view(v@) =~= strings_view(old(v)@) + spec_quality_args(*e));
}

/// The ffmpeg args that encode a sample to `dest`, video only.
pub open spec fn spec_sample_encode_args(e: FfmpegEncodeArgs, dest: Seq<char>) -> Seq<Seq<char>> {
    seq!["-y"@] + strings_view(e.input_args@) + seq!["-i"@, e.input@, "-c:v"@, e.vcodec@]
        + strings_view(e.output_args@) + seq!["-fps_mode"@, "passthrough"@] + spec_quality_args(e)
        + seq!["-an"@, dest]
}

/// The ffmpeg args (after the program name) that encode a sample of `e.input` to
/// `dest`, keeping every frame as it is and dropping audio.
pub fn sample_encode_args(e: &FfmpegEncodeArgs, dest: &str) -> (r: Vec<String>)
    ensures
        strings_view(r@) == spec_sample_encode_args(*e, dest@),
{
    let mut v: Vec<String> = Vec::new();
    push_owned(&mut v, "-y");
    extend_owned(&mut v, &e.input_args);
    push_owned(&mut v, "-i");
    push_owned(&mut v, e.input.as_str());
    push_owned(&mut v, "-c:v");
    push_owned(&mut v, e.vcodec.as_str());
    extend_owned(&mut v, &e.output_args);
    push_owned(&mut v, "-fps_mode");
    push_owned(&mut v, "passthrough");
    push_quality_args(&mut v, e);
    push_owned(&mut v, "-an");
    push_owned(&mut v, dest);
    assert(strings_view(v@) =~= spec_sample_encode_args(*e, dest@));
    v
}

/// The file name ending of an encoded sample: `{encoder}.crf{crf}.{preset}.{ext}`,
/// with `_` for the crf's decimal point.
pub open spec fn spec_sample_suffix(
    vcodec: Seq<char>,
    crf: u64,
    preset: Option<Seq<char>>,
    dest_ext: Seq<char>,
) -> Seq<char> {
    let crf_text = spec_terse_milli(crf as nat).map_values(|c: char| if c == '.' { '_' } else { c });
    spec_pre_extension_name(vcodec) + ".crf"@ + crf_text + match preset {
        Some(p) => "."@ + p,
        None => Seq::empty(),
    } + "."@ + dest_ext
}

/// The file name ending of an encoded sample.
pub fn sample_suffix(vcodec: &str, crf: u64, preset: Option<&str>, dest_ext: &str) -> (r: String)
    ensures
        r@ == spec_sample_suffix(vcodec@, crf, opt_text(preset), dest_ext@),
{
    let pre = pre_extension_name(vcodec);
    let crf_text = terse_milli(crf);
    let cs = chars_of(crf_text.as_str());
    let mut r = pre;
    push_str(&mut r, ".crf");
    let ghost head = r@;
    let mut i: usize = 0;
    while i < cs.len()
        invariant
            i <= cs@.len(),
            cs@ == spec_terse_milli(crf as nat),
            r@ == head + cs@.subrange(0, i as int).map_values(|c: char| if c == '.' { '_' } else { c }),
        decreases cs@.len() - i,
    {
        let c = cs[i];
        let d = if c == '.' {
            '_'
        } else {
            c
        };
        crate::text::push_char(&mut r, d);
        assert(cs@.subrange(0, i + 1).map_values(|c: char| if c == '.' { '_' } else { c })
            =~= cs@.subrange(0, i as int).map_values(|c: char| if c == '.' { '_' } else { c }).push(d));
        i = i + 1;
    }
    assert(cs@.subrange(0, cs@.len() as int) =~= cs@);
    if let Some(p) = preset {
        push_str(&mut r, ".");
        push_str(&mut r, p);
    }
    push_str(&mut r, ".");
    push_str(&mut r, dest_ext);
    r
}

/// Whether `args` holds `a`.
pub open spec fn has_arg(args: Seq<Seq<char>>, a: Seq<char>) -> bool {
    exists|i: int| 0 <= i < args.len() && args[i] == a
}

/// Whether `args` holds `a`.
fn contains_arg(args: &Vec<String>, a: &str) -> (r: bool)
    ensures
        r == has_arg(strings_view(args@), a@),
{
    let mut i: usize = 0;
    while i < args.len()
        invariant
            i <= args@.len(),
            forall|j: int| 0 <= j < i ==> strings_view(args@)[j] != a@,
        decreases args@.len() - i,
    {
        if str_eq(args[i].as_str(), a) {
            assert(strings_view(args@)[i as int] == a@);
            return true;
        }
        i = i + 1;
    }
    false
}

/// The decisions of a full encode: the audio codec and which extra output args
/// it adds.
#[derive(Debug, Clone, Copy, PartialEq, Eq, Structural)]
pub struct EncodeChoices {
    /// Move the mp4 index to the front (`-movflags +faststart`).
    pub add_faststart: bool,
    /// The output is Matroska (mkv or webm), which holds no data streams.
    pub matroska: bool,
    /// Write Matroska cues at the front (`-cues_to_front y`).
    pub add_cues_to_front: bool,
    /// Re-encode audio with opus at 128k.
    pub set_ba_128k: bool,
    /// Downmix audio to stereo (`-ac 2`).
    pub downmix_to_stereo: bool,
}

/// The audio codec of an encode: the given one, otherwise `libopus` where audio is
/// downmixed, otherwise `copy`.
pub open spec fn spec_audio_codec(audio_codec: Option<Seq<char>>, downmix_to_stereo: bool, has_audio: bool) -> Seq<char> {
    match audio_codec {
        Some(a) => a,
        None => if downmix_to_stereo && has_audio {
            "libopus"@
        } else {
            "copy"@
        },
    }
}

/// What a full encode adds, given the output's extension and the user's output args.
pub open spec fn spec_encode_choices(
    output_args: Seq<Seq<char>>,
    output_ext: Option<Seq<char>>,
    audio_codec: Seq<char>,
    downmix_to_stereo: bool,
) -> EncodeChoices {
    let matroska = output_ext == Some("mkv"@) || output_ext == Some("webm"@);
    EncodeChoices {
        add_faststart: output_ext == Some("mp4"@) && !has_arg(output_args, "-movflags"@),
        matroska,
        add_cues_to_front: matroska && !has_arg(output_args, "-cues_to_front"@),
        set_ba_128k: audio_codec == "libopus"@ && !has_arg(output_args, "-b:a"@),
        downmix_to_stereo: downmix_to_stereo && !has_arg(output_args, "-ac"@),
    }
}

/// `-metadata` value recording the encoder settings.
pub open spec fn spec_encode_metadata(e: FfmpegEncodeArgs) -> Seq<char> {
    "AB_AV1_FFMPEG_ARGS=-c:v "@ + e.vcodec@ + " "@ + spec_crf_arg(e.vcodec@) + " "@
        + spec_terse_milli(e.crf as nat) + match e.preset {
        Some(p) => " "@ + spec_preset_arg(e.vcodec@) + " "@ + p@,
        None => Seq::empty(),
    }
}

/// `[a]` where `b` holds.
pub open spec fn flag1(b: bool, a: Seq<char>) -> Seq<Seq<char>> {
    if b {
        seq![a]
    } else {
        Seq::empty()
    }
}

/// `[a, v]` where `b` holds.
pub open spec fn flag2(b: bool, a: Seq<char>, v: Seq<char>) -> Seq<Seq<char>> {
    if b {
        seq![a, v]
    } else {
        Seq::empty()
    }
}

/// The fixed part of a full encode's args: input, stream mapping, codecs and
/// metadata.
pub open spec fn spec_encode_head(e: FfmpegEncodeArgs, audio: Seq<char>) -> Seq<Seq<char>> {
    let map = if e.video_only {
        "0:v:0"@
    } else {
        "0"@
    };
    seq![
        "-y"@,
        "-i"@,
        e.input@,
        "-map"@,
        map,
        "-c:v"@,
        "copy"@,
        "-c:v:0"@,
        e.vcodec@,
        "-metadata"@,
        spec_encode_metadata(e),
        "-c:a"@,
        audio,
        "-c:s"@,
        "copy"@,
    ]
}

/// The args a full encode adds by its decisions.
pub open spec fn spec_choice_args(c: EncodeChoices) -> Seq<Seq<char>> {
    flag1(c.matroska, "-dn"@) + flag2(c.downmix_to_stereo, "-ac"@, "2"@) + flag2(
        c.set_ba_128k,
        "-b:a"@,
        "128k"@,
    ) + flag2(c.add_faststart, "-movflags"@, "+faststart"@) + flag2(
        c.add_cues_to_front,
        "-cues_to_front"@,
        "y"@,
    )
}

/// The ffmpeg args of a full encode of `e.input` to `output`: every stream
/// mapped (or only the main video), video re-encoded, audio and subtitles copied
/// unless audio needs re-encoding.
pub open spec fn spec_encode_args(
    e: FfmpegEncodeArgs,
    output: Seq<char>,
    output_ext: Option<Seq<char>>,
    has_audio: bool,
    audio_codec: Option<Seq<char>>,
    downmix_to_stereo: bool,
) -> Seq<Seq<char>> {
    let audio = spec_audio_codec(audio_codec, downmix_to_stereo, has_audio);
    let c = spec_encode_choices(strings_view(e.output_args@), output_ext, audio, downmix_to_stereo);
    strings_view(e.input_args@) + spec_encode_head(e, audio) + strings_view(e.output_args@)
        + spec_quality_args(e) + spec_choice_args(c) + seq![output]
}

/// Appends the args a full encode adds by its decisions.
fn push_choice_args(v: &mut Vec<String>, c: EncodeChoices)
    ensures
        strings_view(final(v)@) == strings_view(old(v)@) + spec_choice_args(c),
{
    if c.matroska {
        push_owned(v, "-dn");
    }
    if c.downmix_to_stereo {
        push_owned(v, "-ac");
        push_owned(v, "2");
    }
    if c.set_ba_128k {
        push_owned(v, "-b:a");
        push_owned(v, "128k");
    }
    if c.add_faststart {
        push_owned(v, "-movflags");
        push_owned(v, "+faststart");
    }
    if c.add_cues_to_front {
        push_owned(v, "-cues_to_front");
        push_owned(v, "y");
    }
    assert(strings_view(v@) =~= strings_view(old(v)@) + spec_choice_args(c));
}

/// `-metadata` value recording the encoder settings.
fn encode_metadata(e: &FfmpegEncodeArgs) -> (r: String)
    ensures
        r@ == spec_encode_metadata(*e),
{
    let mut metadata = String::from_str("AB_AV1_FFMPEG_ARGS=-c:v ");
    push_str(&mut metadata, e.vcodec.as_str());
    push_str(&mut metadata, " ");
    push_str(&mut metadata, crf_arg(e.vcodec.as_str()));
    push_str(&mut metadata, " ");
    let crf = terse_milli(e.crf);
    push_str(&mut metadata, crf.as_str());
    if let Some(p) = &e.preset {
        push_str(&mut metadata, " ");
        push_str(&mut metadata, preset_arg(e.vcodec.as_str()));
        push_str(&mut metadata, " ");
        push_str(&mut metadata, p.as_str());
    }
    assert(metadata@ =~= spec_encode_metadata(*e));
    metadata
}

/// Appends the fixed part of a full encode's args.
fn push_encode_head(v: &mut Vec<String>, e: &FfmpegEncodeArgs, audio: &str)
    ensures
        strings_view(final(v)@) == strings_view(old(v)@) + spec_encode_head(*e, audio@),
{
    let metadata = encode_metadata(e);
    push_owned(v, "-y");
    push_owned(v, "-i");
    push_owned(v, e.input.as_str());
    push_owned(v, "-map");
    push_owned(v, if e.video_only {
        "0:v:0"
    } else {
        "0"
    });
    push_owned(v, "-c:v");
    push_owned(v, "copy");
    push_owned(v, "-c:v:0");
    push_owned(v, e.vcodec.as_str());
    push_owned(v, "-metadata");
    push_owned(v, metadata.as_str());
    push_owned(v, "-c:a");
    push_owned(v, audio);
    push_owned(v, "-c:s");
    push_owned(v, "copy");
    assert(strings_view(v@) =~= strings_view(old(v)@) + spec_encode_head(*e, audio@));
}

/// The decisions of a full encode.
pub fn encode_choices(
    output_args: &Vec<String>,
    output_ext: Option<&str>,
    audio_codec: &str,
    downmix_to_stereo: bool,
) -> (r: EncodeChoices)
    ensures
        r == spec_encode_choices(strings_view(output_args@), opt_text(output_ext), audio_codec@, downmix_to_stereo),
{
    let is_ext = |x: &str| -> (b: bool)
        ensures
            b == (opt_text(output_ext) == Some(x@)),
        {
            match output_ext {
                Some(e) => str_eq(e, x),
                None => false,
            }
        };
    let matroska = is_ext("mkv") || is_ext("webm");
    EncodeChoices {
        add_faststart: is_ext("mp4") && !contains_arg(output_args, "-movflags"),
        matroska,
        add_cues_to_front: matroska && !contains_arg(output_args, "-cues_to_front"),
        set_ba_128k: str_eq(audio_codec, "libopus") && !contains_arg(output_args, "-b:a"),
        downmix_to_stereo: downmix_to_stereo && !contains_arg(output_args, "-ac"),
    }
}

/// An mkv or a webm output is Matroska, which holds only audio, video and
/// subtitles: the encode drops data streams (`-dn`) and, unless the user's output
/// args set `-cues_to_front`, writes the cues at the front (`-cues_to_front y`,
/// just before the output). The output is always the last arg.
pub proof fn lemma_matroska_output(
    e: FfmpegEncodeArgs,
    output: Seq<char>,
    output_ext: Option<Seq<char>>,
    has_audio: bool,
    audio_codec: Option<Seq<char>>,
    downmix_to_stereo: bool,
)
    requires
        output_ext == Some("mkv"@) || output_ext == Some("webm"@),
    ensures
        ({
            let r = spec_encode_args(e, output, output_ext, has_audio, audio_codec, downmix_to_stereo);
            &&& r.len() >= 4
            &&& r.last() == output
            &&& has_arg(r, "-dn"@)
            &&& !has_arg(strings_view(e.output_args@), "-cues_to_front"@) ==> r[r.len() - 3]
                == "-cues_to_front"@ && r[r.len() - 2] == "y"@
        }),
{
    let audio = spec_audio_codec(audio_codec, downmix_to_stereo, has_audio);
    let c = spec_encode_choices(strings_view(e.output_args@), output_ext, audio, downmix_to_stereo);
    assert(c.matroska);
    let pre = strings_view(e.input_args@) + spec_encode_head(e, audio) + strings_view(e.output_args@)
        + spec_quality_args(e);
    let ch = spec_choice_args(c);
    let r = spec_encode_args(e, output, output_ext, has_audio, audio_codec, downmix_to_stereo);
    assert(r == pre + ch + seq![output]);
    assert(ch[0] == "-dn"@);
    assert(r[pre.len() as int] == "-dn"@);
    if c.add_cues_to_front {
        assert(ch[ch.len() - 2] == "-cues_to_front"@);
        assert(ch[ch.len() - 1] == "y"@);
        assert(r[r.len() - 3] == ch[ch.len() - 2]);
        assert(r[r.len() - 2] == ch[ch.len() - 1]);
    }
}

/// The ffmpeg args (after the program name) of a full encode of `e.input` to
/// `output`, whose extension is `output_ext`.
pub fn encode_args(
    e: &FfmpegEncodeArgs,
    output: &str,
    output_ext: Option<&str>,
    has_audio: bool,
    audio_codec: Option<&str>,
    downmix_to_stereo: bool,
) -> (r: Vec<String>)
    ensures
        strings_view(r@) == spec_encode_args(
            *e,
            output@,
            opt_text(output_ext),
            has_audio,
            opt_text(audio_codec),
            downmix_to_stereo,
        ),
{
    let audio: &str = match audio_codec {
        Some(a) => a,
        None => if downmix_to_stereo && has_audio {
            "libopus"
        } else {
            "copy"
        },
    };
    let c = encode_choices(&e.output_args, output_ext, audio, downmix_to_stereo);
    let mut v: Vec<String> = Vec::new();
    extend_owned(&mut v, &e.input_args);
    push_encode_head(&mut v, e, audio);
    extend_owned(&mut v, &e.output_args);
    push_quality_args(&mut v, e);
    push_choice_args(&mut v, c);
    push_owned(&mut v, output);
    assert(strings_view(v@) =~= spec_encode_args(
        *e,
        output@,
        opt_text(output_ext),
        has_audio,
        opt_text(audio_codec),
        downmix_to_stereo,
    ));
    v
}

/// Whether `needle` occurs in `hay` at `i`.
pub open spec fn bytes_at(hay: Seq<u8>, needle: Seq<u8>, i: int) -> bool {
    0 <= i && i + needle.len() <= hay.len() && hay.subrange(i, i + needle.len()) == needle
}

/// The first position of `needle` in `hay` at or after `i`.
pub open spec fn find_bytes_from(hay: Seq<u8>, needle: Seq<u8>, i: int) -> Option<int>
    decreases hay.len() + 1 - i,
{
    if i < 0 || i + needle.len() > hay.len() {
        None
    } else if bytes_at(hay, needle, i) {
        Some(i)
    } else {
        find_bytes_from(hay, needle, i + 1)
    }
}

/// A byte of a version number: a digit or `.`.
pub open spec fn is_version_byte(b: u8) -> bool {
    (48 <= b <= 57) || b == 46
}

/// The length of the run of version bytes of `s` from `i`.
pub open spec fn version_run(s: Seq<u8>, i: int) -> int
    decreases s.len() - i,
{
    if i < 0 || i >= s.len() || !is_version_byte(s[i]) {
        0
    } else {
        1 + version_run(s, i + 1)
    }
}

/// The text before an svt-av1 version in ffmpeg's output.
pub open spec fn svt_version_prefix() -> Seq<u8> {
    "SVT-AV1 Encoder Lib v"@.map_values(|c: char| c as u8)
}

/// The svt-av1 version that ffmpeg's output `buf` shows: the digits and dots after
/// the first `SVT-AV1 Encoder Lib v`, once the output read so far ends past them
/// (its last byte is no digit, `.` or `v`).
pub open spec fn spec_svt_version(buf: Seq<u8>) -> Option<Seq<u8>> {
    match find_bytes_from(buf, svt_version_prefix(), 0) {
        None => None,
        Some(idx) => if buf.len() == 0 || is_version_byte(buf.last()) || buf.last() == 118 {
            None
        } else {
            let start = idx + svt_version_prefix().len();
            Some(buf.subrange(start, start + version_run(buf, start)))
        },
    }
}

/// The svt-av1 version in ffmpeg's output read so far, once it is complete.
pub fn svt_version(buf: &[u8]) -> (r: Option<String>)
    ensures
        match spec_svt_version(buf@) {
            None => r is None,
            Some(v) => r matches Some(t) && t@ == v.map_values(|b: u8| b as char),
        },
{
    let prefix: [u8; 21] = [
        83, 86, 84, 45, 65, 86, 49, 32, 69, 110, 99, 111, 100, 101, 114, 32, 76, 105, 98, 32, 118,
    ];
    proof {
        reveal_strlit("SVT-AV1 Encoder Lib v");
        assert(prefix@ =~= svt_version_prefix());
    }
    let n = buf.len();
    let mut idx: usize = 0;
    let mut found = false;
    if n >= 21 {
        while !found && idx <= n - 21
            invariant
                n == buf@.len(),
                n >= 21,
                prefix@ == svt_version_prefix(),
                found ==> idx + 21 <= n && find_bytes_from(buf@, prefix@, 0) == Some(idx as int),
                !found ==> find_bytes_from(buf@, prefix@, 0) == find_bytes_from(buf@, prefix@, idx as int),
            decreases n + 1 - idx, (if found { 0int } else { 1int }),
        {
            let mut k: usize = 0;
            let mut same = true;
            while k < 21
                invariant
                    idx + 21 <= n,
                    n == buf@.len(),
                    k <= 21,
                    same == forall|j: int| 0 <= j < k ==> buf@[idx + j] == prefix@[j],
                decreases 21 - k,
            {
                if buf[idx + k] != prefix[k] {
                    same = false;
                }
                k = k + 1;
            }
            if same {
                assert(buf@.subrange(idx as int, idx + 21) =~= prefix@);
                found = true;
            } else {
                proof {
                    if bytes_at(buf@, prefix@, idx as int) {
                        let j = choose|j: int| 0 <= j < 21 && buf@[idx + j] != prefix@[j];
                        assert(buf@.subrange(idx as int, idx + 21)[j] == buf@[idx + j]);
                    }
                }
                idx = idx + 1;
            }
        }
    }
    if !found {
        return None;
    }
    if n == 0 {
        return None;
    }
    let last = buf[n - 1];
    if (48 <= last && last <= 57) || last == 46 || last == 118 {
        return None;
    }
    let start = idx + 21;
    let mut end = start;
    while end < n && ((48 <= buf[end] && buf[end] <= 57) || buf[end] == 46)
        invariant
            start <= end <= n,
            n == buf@.len(),
            version_run(buf@, start as int) == (end - start) + version_run(buf@, end as int),
        decreases n - end,
    {
        end = end + 1;
    }
    let mut t = String::new();
    let mut i = start;
    while i < end
        invariant
            start <= i <= end <= n,
            n == buf@.len(),
            t@ == buf@.subrange(start as int, i as int).map_values(|b: u8| b as char),
        decreases end - i,
    {
        crate::text::push_char(&mut t, buf[i] as char);
        assert(buf@.subrange(start as int, i + 1).map_values(|b: u8| b as char) =~= buf@.subrange(
            start as int,
            i as int,
        ).map_values(|b: u8| b as char).push(buf@[i as int] as char));
        i = i + 1;
    }
    Some(t)
}


/// Bytes of ffmpeg's output that a version scan holds at most.
pub const SVT_SCAN_CAPACITY: usize = 256;

/// The bytes a version scan keeps after a read that showed no version: all of
/// them while they fill at most three quarters of its capacity, otherwise all but
/// the oldest half of its capacity.
pub open spec fn svt_scan_keep(w: Seq<u8>) -> Seq<u8> {
    if w.len() > 192 {
        w.subrange(128, w.len() as int)
    } else {
        w
    }
}

/// Reads the svt-av1 version from ffmpeg's output as it comes, one read at a
/// time, keeping a bounded window of the latest bytes.
pub struct SvtVersionScan {
    window: Vec<u8>,
}

impl SvtVersionScan {
    /// The bytes held, oldest first.
    pub closed spec fn spec_window(&self) -> Seq<u8> {
        self.window@
    }

    /// At most three quarters of the capacity is held between reads.
    pub open spec fn wf(&self) -> bool {
        self.spec_window().len() <= 192
    }

    /// A scan that holds nothing yet.
    pub fn new() -> (r: SvtVersionScan)
        ensures
            r.wf(),
            r.spec_window() == Seq::<u8>::empty(),
    {
        SvtVersionScan { window: Vec::new() }
    }

    /// Room for the next read: the capacity less the bytes held.
    pub fn space(&self) -> (r: usize)
        requires
            self.wf(),
        ensures
            r == SVT_SCAN_CAPACITY - self.spec_window().len(),
            r >= 64,
    {
        SVT_SCAN_CAPACITY - self.window.len()
    }

    /// Take the bytes of one read: the version, where the bytes held now show it
    /// (see [`spec_svt_version`]). The scan keeps `svt_scan_keep` of them.
    pub fn record(&mut self, bytes: &[u8]) -> (r: Option<String>)
        requires
            old(self).wf(),
            bytes@.len() <= SVT_SCAN_CAPACITY - old(self).spec_window().len(),
        ensures
            final(self).wf(),
            final(self).spec_window() == svt_scan_keep(old(self).spec_window() + bytes@),
            match spec_svt_version(old(self).spec_window() + bytes@) {
                None => r is None,
                Some(v) => r matches Some(t) && t@ == v.map_values(|b: u8| b as char),
            },
    {
        let ghost w0 = self.window@;
        let mut i: usize = 0;
        while i < bytes.len()
            invariant
                i <= bytes@.len(),
                self.window@ == w0 + bytes@.subrange(0, i as int),
            decreases bytes@.len() - i,
        {
            self.window.push(bytes[i]);
            assert(w0 + bytes@.subrange(0, i + 1) =~= w0 + bytes@.subrange(0, i as int) + seq![bytes@[i as int]]);
            i = i + 1;
        }
        assert(bytes@.subrange(0, bytes@.len() as int) =~= bytes@);
        let found = svt_version(self.window.as_slice());
        let n = self.window.len();
        if n > 192 {
            let mut kept: Vec<u8> = Vec::new();
            let mut k: usize = 128;
            while k < n
                invariant
                    128 <= k <= n,
                    n == self.window@.len(),
                    kept@ == self.window@.subrange(128, k as int),
                decreases n - k,
            {
                kept.push(self.window[k]);
                assert(self.window@.subrange(128, k + 1) =~= self.window@.subrange(128, k as int).push(
                    self.window@[k as int],
                ));
                k = k + 1;
            }
            self.window = kept;
        }
        found
    }
}


/// The ffmpeg arguments that decode all video and audio streams of `file` in full,
/// failing on the first decode error: only errors are logged, with `-stats`
/// keeping the progress output. Subtitles, attachments and data are skipped, as
/// the null muxer has no encoder for them.
pub open spec fn spec_decode_args(file: Seq<char>) -> Seq<Seq<char>> {
    seq![
        "-v"@,
        "error"@,
        "-stats"@,
        "-xerror"@,
        "-i"@,
        file,
        "-map"@,
        "0:v?"@,
        "-map"@,
        "0:a?"@,
        "-f"@,
        "null"@,
        "-"@,
    ]
}

/// The ffmpeg arguments of a full decode of `file`.
pub fn decode_args(file: &str) -> (r: Vec<String>)
    ensures
        strings_view(r@) == spec_decode_args(file@),
{
    let mut v: Vec<String> = Vec::new();
    push_owned(&mut v, "-v");
    push_owned(&mut v, "error");
    push_owned(&mut v, "-stats");
    push_owned(&mut v, "-xerror");
    push_owned(&mut v, "-i");
    push_owned(&mut v, file);
    push_owned(&mut v, "-map");
    push_owned(&mut v, "0:v?");
    push_owned(&mut v, "-map");
    push_owned(&mut v, "0:a?");
    push_owned(&mut v, "-f");
    push_owned(&mut v, "null");
    push_owned(&mut v, "-");
    assert(strings_view(v@) =~= spec_decode_args(file@));
    v
}

} // verus!
