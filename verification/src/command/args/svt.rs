//! Common svt-av1 input encoding arguments.
use vstd::prelude::*;
use crate::decimal::{spec_decimal, u64_to_string};
use crate::text::{chars_of, debug_quoted, debug_text, push_str, spec_starts_with, spec_trim_start, starts_with_str, trim_start_char};

pub use crate::command::encoders::KeyInterval;
use crate::command::encoders::key_interval_text;

verus! {

/// The pixel formats svt-av1 encodes from.
#[derive(Clone, Copy, Debug, PartialEq, Eq, Structural)]
pub enum PixelFormat {
    Yuv420p10le,
    Yuv420p,
}

/// The ffmpeg name of a format.
pub open spec fn svt_pixel_format_name(p: PixelFormat) -> Seq<char> {
    match p {
        PixelFormat::Yuv420p10le => "yuv420p10le"@,
        PixelFormat::Yuv420p => "yuv420p"@,
    }
}

impl PixelFormat {
    /// The ffmpeg name of the format.
    pub fn as_str(self) -> (r: &'static str)
        ensures
            r@ == svt_pixel_format_name(self),
    {
        match self {
            PixelFormat::Yuv420p10le => "yuv420p10le",
            PixelFormat::Yuv420p => "yuv420p",
        }
    }

    /// The svt-av1 `--input-depth` of the format.
    pub fn input_depth(self) -> (r: &'static str)
        ensures
            r@ == (match self {
                PixelFormat::Yuv420p10le => "10"@,
                PixelFormat::Yuv420p => "8"@,
            }),
    {
        match self {
            PixelFormat::Yuv420p10le => "10",
            PixelFormat::Yuv420p => "8",
        }
    }
}

/// Common svt-av1 input encoding arguments.
#[derive(Clone, Debug)]
pub struct SvtEncode {
    /// Input video file.
    pub input: String,
    /// Ffmpeg video filter applied to the input before av1 encoding.
    pub vfilter: Option<String>,
    /// Pixel format.
    pub pix_format: PixelFormat,
    /// Encoder preset (0-13).
    pub preset: u8,
    /// Interval between keyframes: a number of frames or a duration.
    pub keyint: Option<KeyInterval>,
    /// Scene change detection.
    pub scd: Option<bool>,
    /// Additional svt-av1 args, e.g. `--film-grain=30`.
    pub args: Vec<String>,
}

/// Whether `s` takes one leading dash: a single character, or a one character
/// name before `=` (lengths in UTF-8 bytes, as `str::len` and `str::find` count).
pub open spec fn short_svt_arg(s: Seq<char>) -> bool {
    (s.len() == 1 && (s[0] as u32) < 0x80) || (s.len() >= 2 && s[0] != '=' && (s[0] as u32) < 0x80
        && s[1] == '=')
}

/// The arg with its dashes: unchanged where it starts with `-`, otherwise with
/// `-` before a short arg and `--` before a long one.
pub open spec fn spec_dashed_svt_arg(s: Seq<char>) -> Seq<char> {
    if spec_starts_with(s, "-"@) {
        s
    } else if short_svt_arg(s) {
        "-"@ + s
    } else {
        "--"@ + s
    }
}

/// The svt args that this program sets itself, in the order they are checked.
pub open spec fn denied_svt_args() -> Seq<Seq<char>> {
    seq!["-i"@, "-b"@, "--crf"@, "--preset"@, "--keyint"@, "--scd"@, "--input-depth"@]
}

/// The first denied arg that `s` starts with, from index `i` on.
pub open spec fn first_denied_from(s: Seq<char>, i: int) -> Option<Seq<char>>
    decreases 7 - i,
{
    if i >= 7 || i < 0 {
        None
    } else if spec_starts_with(s, denied_svt_args()[i]) {
        Some(denied_svt_args()[i])
    } else {
        first_denied_from(s, i + 1)
    }
}

/// A `--svt` value as given to svt-av1, or the error where it sets something this
/// program sets itself.
pub open spec fn spec_parse_svt_arg(s: Seq<char>) -> Result<Seq<char>, Seq<char>> {
    let arg = spec_dashed_svt_arg(s);
    match first_denied_from(arg, 0) {
        Some(deny) => Err("svt arg "@ + deny + " cannot be used here"@),
        None => Ok(arg),
    }
}

/// Parse a `--svt` value: add the dashes it lacks and refuse the args that this
/// program sets itself.
pub fn parse_svt_arg(arg: &str) -> (r: Result<String, String>)
    ensures
        match spec_parse_svt_arg(arg@) {
            Ok(a) => r matches Ok(v) && v@ == a,
            Err(e) => r matches Err(m) && m@ == e,
        },
{
    let cs = chars_of(arg);
    let mut full = String::new();
    if !starts_with_str(arg, "-") {
        let short = (cs.len() == 1 && (cs[0] as u32) < 0x80) || (cs.len() >= 2 && cs[0] != '='
            && (cs[0] as u32) < 0x80 && cs[1] == '=');
        if short {
            push_str(&mut full, "-");
        } else {
            push_str(&mut full, "--");
        }
    }
    push_str(&mut full, arg);
    let ghost a = spec_dashed_svt_arg(arg@);
    assert(full@ == a);
    let deny: [&str; 7] = ["-i", "-b", "--crf", "--preset", "--keyint", "--scd", "--input-depth"];
    assert(deny@.len() == 7);
    let mut i: usize = 0;
    while i < 7
        invariant
            i <= 7,
            deny@.len() == 7,
            forall|k: int| 0 <= k < 7 ==> (#[trigger] deny@[k])@ == denied_svt_args()[k],
            a == spec_dashed_svt_arg(arg@),
            first_denied_from(a, 0) == first_denied_from(a, i as int),
            full@ == a,
        decreases 7 - i,
    {
        let d = deny[i];
        assert(d@ == denied_svt_args()[i as int]);
        if starts_with_str(full.as_str(), d) {
            assert(first_denied_from(a, i as int) == Some(d@));
            let mut msg = String::from_str("svt arg ");
            push_str(&mut msg, d);
            push_str(&mut msg, " cannot be used here");
            assert(msg@ == "svt arg "@ + d@ + " cannot be used here"@);
            assert(first_denied_from(a, 0) == Some(d@));
            return Err(msg);
        }
        i = i + 1;
    }
    Ok(full)
}

/// The text of a `bool`, as `Display` writes it.
pub open spec fn bool_text(b: bool) -> Seq<char> {
    if b {
        "true"@
    } else {
        "false"@
    }
}

/// The ` --svt` options of the additional args, dashes trimmed.
pub open spec fn svt_hint_args(args: Seq<Seq<char>>) -> Seq<char>
    decreases args.len(),
{
    if args.len() == 0 {
        Seq::empty()
    } else {
        svt_hint_args(args.drop_last()) + " --svt "@ + spec_trim_start(args.last(), '-')
    }
}

/// The options of the hint after the preset.
pub open spec fn spec_hint_opts(e: SvtEncode) -> Seq<char> {
    let k = match e.keyint {
        Some(k) => " --keyint "@ + key_interval_text(k),
        None => Seq::empty(),
    };
    let sc = match e.scd {
        Some(s) => " --scd "@ + bool_text(s),
        None => Seq::empty(),
    };
    let pf = if e.pix_format != PixelFormat::Yuv420p10le {
        " --pix-format "@ + svt_pixel_format_name(e.pix_format)
    } else {
        Seq::empty()
    };
    let vf = match e.vfilter {
        Some(f) => " --vfilter "@ + debug_text(f@),
        None => Seq::empty(),
    };
    k + sc + pf + vf
}

/// The command that encodes with these args at `crf`.
pub open spec fn spec_encode_hint(e: SvtEncode, crf: u8) -> Seq<char> {
    "ab-av1 encode -i "@ + debug_text(e.input@) + " --crf "@ + spec_decimal(crf as nat)
        + " --preset "@ + spec_decimal(e.preset as nat) + spec_hint_opts(e) + svt_hint_args(
        Seq::new(e.args@.len(), |i: int| e.args@[i]@),
    )
}

/// Appends the ` --svt` options of `args`.
fn push_svt_args(hint: &mut String, args: &Vec<String>)
    ensures
        final(hint)@ == old(hint)@ + svt_hint_args(Seq::new(args@.len(), |i: int| args@[i]@)),
{
    let ghost head = hint@;
    let ghost views = Seq::new(args@.len(), |i: int| args@[i]@);
    let mut i: usize = 0;
    while i < args.len()
        invariant
            i <= args@.len(),
            views == Seq::new(args@.len(), |i: int| args@[i]@),
            hint@ == head + svt_hint_args(views.subrange(0, i as int)),
        decreases args@.len() - i,
    {
        assert(views.subrange(0, i + 1).drop_last() =~= views.subrange(0, i as int));
        push_str(hint, " --svt ");
        let a = trim_start_char(args[i].as_str(), '-');
        push_str(hint, a.as_str());
        i = i + 1;
    }
    assert(views.subrange(0, args@.len() as int) =~= views);
}

impl SvtEncode {
    /// Appends the options after the preset.
    fn push_opts(&self, hint: &mut String)
        requires
            self.keyint matches Some(KeyInterval::Duration(d)) ==> d.wf(),
        ensures
            final(hint)@ == old(hint)@ + spec_hint_opts(*self),
    {
        let mut k = String::new();
        if let Some(keyint) = &self.keyint {
            push_str(&mut k, " --keyint ");
            let t = keyint.display();
            push_str(&mut k, t.as_str());
        }
        let mut sc = String::new();
        if let Some(scd) = self.scd {
            push_str(&mut sc, " --scd ");
            push_str(&mut sc, if scd {
                "true"
            } else {
                "false"
            });
        }
        let mut pf = String::new();
        if self.pix_format != PixelFormat::Yuv420p10le {
            push_str(&mut pf, " --pix-format ");
            push_str(&mut pf, self.pix_format.as_str());
        }
        let mut vf = String::new();
        if let Some(filter) = &self.vfilter {
            push_str(&mut vf, " --vfilter ");
            let f = debug_quoted(filter.as_str());
            push_str(&mut vf, f.as_str());
        }
        push_str(hint, k.as_str());
        push_str(hint, sc.as_str());
        push_str(hint, pf.as_str());
        push_str(hint, vf.as_str());
        assert(final(hint)@ =~= old(hint)@ + spec_hint_opts(*self));
    }

    /// The `ab-av1 encode` command that encodes with these args at `crf`.
    pub fn encode_hint(&self, crf: u8) -> (r: String)
        requires
            self.keyint matches Some(KeyInterval::Duration(d)) ==> d.wf(),
        ensures
            r@ == spec_encode_hint(*self, crf),
    {
        let mut hint = String::from_str("ab-av1 encode -i ");
        let input = debug_quoted(self.input.as_str());
        push_str(&mut hint, input.as_str());
        push_str(&mut hint, " --crf ");
        let c = u64_to_string(crf as u64);
        push_str(&mut hint, c.as_str());
        push_str(&mut hint, " --preset ");
        let p = u64_to_string(self.preset as u64);
        push_str(&mut hint, p.as_str());
        self.push_opts(&mut hint);
        push_svt_args(&mut hint, &self.args);
        hint
    }
}


/// `needle` occurs in `hay` at `p`.
pub open spec fn occurs_at(hay: Seq<char>, needle: Seq<char>, p: int) -> bool {
    0 <= p && p + needle.len() <= hay.len() && hay.subrange(p, p + needle.len()) == needle
}

/// A `--svt` value given without dashes comes back from its parsed arg with the
/// dashes trimmed.
proof fn lemma_trim_dashed(s: Seq<char>)
    requires
        !spec_starts_with(s, "-"@),
    ensures
        spec_trim_start(spec_dashed_svt_arg(s), '-') == s,
{
    reveal_strlit("-");
    reveal_strlit("--");
    assert(s.len() > 0 ==> s[0] != '-') by {
        if s.len() > 0 && s[0] == '-' {
            assert(s.subrange(0, 1) =~= "-"@);
        }
    }
    let one = "-"@ + s;
    let two = "--"@ + s;
    assert(one[0] == '-' && one.len() > 0);
    assert(two[0] == '-' && two.len() > 0);
    assert(two.drop_first() =~= one);
    assert(one.drop_first() =~= s);
    assert(spec_trim_start(s, '-') == s);
    assert(spec_trim_start(one, '-') == spec_trim_start(s, '-'));
    assert(spec_trim_start(two, '-') == spec_trim_start(one, '-'));
}

/// Each arg's ` --svt` option is in the hint options of the args.
proof fn lemma_svt_hint_args_hold(v: Seq<Seq<char>>, k: int)
    requires
        0 <= k < v.len(),
    ensures
        exists|p: int| occurs_at(svt_hint_args(v), " --svt "@ + spec_trim_start(v[k], '-'), p),
    decreases v.len(),
{
    let d = v.drop_last();
    let piece = " --svt "@ + spec_trim_start(v[k], '-');
    if k == v.len() - 1 {
        let p = svt_hint_args(d).len() as int;
        assert(svt_hint_args(v) =~= svt_hint_args(d) + piece);
        assert(svt_hint_args(v).subrange(p, p + piece.len()) =~= piece);
        assert(occurs_at(svt_hint_args(v), piece, p));
    } else {
        assert(d[k] == v[k]);
        lemma_svt_hint_args_hold(d, k);
        let p = choose|p: int| occurs_at(svt_hint_args(d), piece, p);
        let tail = " --svt "@ + spec_trim_start(v.last(), '-');
        assert(svt_hint_args(v) == svt_hint_args(d) + tail);
        assert(svt_hint_args(v).subrange(p, p + piece.len()) =~= svt_hint_args(d).subrange(p, p + piece.len()));
        assert(occurs_at(svt_hint_args(v), piece, p));
    }
}

/// The hint reproduces the svt args: where each arg was parsed from a `--svt`
/// value given without dashes, the hint holds ` --svt ` and that same value, and
/// parsing the value again gives the same arg.
pub proof fn lemma_encode_hint_round_trips_svt_args(e: SvtEncode, crf: u8, values: Seq<Seq<char>>)
    requires
        values.len() == e.args@.len(),
        forall|k: int|
            0 <= k < values.len() ==> !spec_starts_with(#[trigger] values[k], "-"@) && spec_parse_svt_arg(
                values[k],
            ) == Ok::<Seq<char>, Seq<char>>(e.args@[k]@),
    ensures
        forall|k: int|
            0 <= k < values.len() ==> {
                &&& spec_trim_start(e.args@[k]@, '-') == values[k]
                &&& spec_parse_svt_arg(spec_trim_start(e.args@[k]@, '-')) == Ok::<Seq<char>, Seq<char>>(
                    e.args@[k]@,
                )
                &&& exists|p: int| occurs_at(spec_encode_hint(e, crf), " --svt "@ + #[trigger] values[k], p)
            },
{
    let views = Seq::new(e.args@.len(), |i: int| e.args@[i]@);
    let head = "ab-av1 encode -i "@ + debug_text(e.input@) + " --crf "@ + spec_decimal(crf as nat)
        + " --preset "@ + spec_decimal(e.preset as nat) + spec_hint_opts(e);
    assert(spec_encode_hint(e, crf) == head + svt_hint_args(views));
    assert forall|k: int| 0 <= k < values.len() implies {
        &&& spec_trim_start(e.args@[k]@, '-') == values[k]
        &&& spec_parse_svt_arg(spec_trim_start(e.args@[k]@, '-')) == Ok::<Seq<char>, Seq<char>>(e.args@[k]@)
        &&& exists|p: int| occurs_at(spec_encode_hint(e, crf), " --svt "@ + #[trigger] values[k], p)
    } by {
        assert(!spec_starts_with(values[k], "-"@));
        let a = spec_dashed_svt_arg(values[k]);
        match first_denied_from(a, 0) {
            Some(_) => {},
            None => {},
        }
        assert(a == e.args@[k]@);
        lemma_trim_dashed(values[k]);
        lemma_svt_hint_args_hold(views, k);
        let piece = " --svt "@ + spec_trim_start(views[k], '-');
        let p = choose|p: int| occurs_at(svt_hint_args(views), piece, p);
        let q = head.len() + p;
        assert((head + svt_hint_args(views)).subrange(q, q + piece.len()) =~= svt_hint_args(views).subrange(
            p,
            p + piece.len(),
        ));
        assert(occurs_at(spec_encode_hint(e, crf), " --svt "@ + values[k], q));
    }
}

} // verus!
