//! Common vmaf options and the ffmpeg filter graph of a VMAF analysis.
use vstd::prelude::*;
use crate::command::encoders::{PixelFormat, pixel_format_name};
use crate::decimal::{parse_int, spec_decimal, spec_parse_u32, spec_signed_decimal, u64_to_string, i64_to_string};
use crate::text::{strs_view, strings_view, chars_of, contains_str, ends_with_str, find_chars, push_str, spec_contains, spec_ends_with, spec_find, str_eq, sub_chars};

verus! {

/// Video resolution scale to use in VMAF analysis.
#[derive(Debug, Clone, Copy, PartialEq, Eq, Structural)]
pub enum VmafScale {
    /// No scaling (`none`).
    Disabled,
    Auto,
    Custom { width: u32, height: u32 },
}

/// The VMAF model an analysis uses.
#[derive(Debug, Clone, Copy, PartialEq, Eq, Structural)]
pub enum VmafModel {
    /// Default 1080p model.
    Vmaf1K,
    /// 4k model.
    Vmaf4K,
    /// Some other user specified model.
    Custom,
}

/// Common vmaf options.
#[derive(Debug, Clone)]
pub struct Vmaf {
    /// Additional vmaf arg(s), e.g. `n_threads=8`, `n_subsample=4`.
    pub vmaf_args: Vec<String>,
    /// Video resolution scale to use in VMAF analysis.
    pub vmaf_scale: VmafScale,
}

/// `args` joined with `sep` between them.
pub open spec fn spec_join(args: Seq<Seq<char>>, sep: Seq<char>) -> Seq<char>
    decreases args.len(),
{
    if args.len() == 0 {
        Seq::empty()
    } else if args.len() == 1 {
        args[0]
    } else {
        spec_join(args.drop_last(), sep) + sep + args.last()
    }
}

/// The args that mention a model, in order.
pub open spec fn model_args(args: Seq<Seq<char>>) -> Seq<Seq<char>>
    decreases args.len(),
{
    if args.len() == 0 {
        Seq::empty()
    } else {
        let rest = model_args(args.drop_last());
        if spec_contains(args.last(), "model"@) {
            rest.push(args.last())
        } else {
            rest
        }
    }
}

/// The model the vmaf args choose: none where no arg mentions a model; the 1k or
/// 4k model where the single such arg ends with its version; otherwise a custom one.
pub open spec fn spec_model_from_args(args: Seq<Seq<char>>) -> Option<VmafModel> {
    let m = model_args(args);
    if m.len() == 0 {
        None
    } else if m.len() == 1 {
        if spec_ends_with(m[0], "version=vmaf_v0.6.1"@) {
            Some(VmafModel::Vmaf1K)
        } else if spec_ends_with(m[0], "version=vmaf_4k_v0.6.1"@) {
            Some(VmafModel::Vmaf4K)
        } else {
            Some(VmafModel::Custom)
        }
    } else {
        Some(VmafModel::Custom)
    }
}

/// Whether some arg sets `n_threads`.
pub open spec fn has_n_threads(args: Seq<Seq<char>>) -> bool {
    exists|i: int| 0 <= i < args.len() && spec_contains(#[trigger] args[i], "n_threads"@)
}

/// The vmaf args with `n_threads` defaulted to `threads`.
pub open spec fn spec_lavfi_args(args: Seq<Seq<char>>, threads: u64) -> Seq<Seq<char>> {
    if has_n_threads(args) {
        args
    } else {
        args.push("n_threads="@ + spec_decimal(threads as nat))
    }
}

/// The smallest ffmpeg vf `(w, h)` scale values so that at least one of the
/// target bounds is met: scale vertically where the height is relatively
/// larger, otherwise horizontally.
pub open spec fn spec_minimally_scale(from: (u32, u32), target: (u32, u32)) -> (i32, i32) {
    if from.1 * target.0 > from.0 * target.1 {
        (-1i32, target.1 as i32)
    } else {
        (target.0 as i32, -1i32)
    }
}

/// The scale of both streams before analysis, if any.
pub open spec fn spec_vf_scale(
    scale: VmafScale,
    model: VmafModel,
    distorted_res: Option<(u32, u32)>,
) -> Option<(i32, i32)> {
    match (scale, distorted_res) {
        (VmafScale::Auto, Some((w, h))) => match model {
            VmafModel::Vmaf1K => if w < 1728 && h < 972 {
                Some(spec_minimally_scale((w, h), (1920, 1080)))
            } else {
                None
            },
            VmafModel::Vmaf4K => if w < 3456 && h < 1944 {
                Some(spec_minimally_scale((w, h), (3840, 2160)))
            } else {
                None
            },
            VmafModel::Custom => None,
        },
        (VmafScale::Custom { width, height }, Some((w, h))) => Some(
            spec_minimally_scale((w, h), (width, height)),
        ),
        (VmafScale::Custom { width, height }, None) => Some((width as i32, height as i32)),
        _ => None,
    }
}

/// The reference vfilter as a filter chain prefix.
pub open spec fn spec_ref_vf(ref_vfilter: Option<Seq<char>>) -> Seq<char> {
    match ref_vfilter {
        None => Seq::empty(),
        Some(vf) => if spec_ends_with(vf, ","@) {
            vf
        } else {
            vf + ","@
        },
    }
}

/// `scale=w:h:flags=bicubic,`
pub open spec fn spec_scale_filter(w: i32, h: i32) -> Seq<char> {
    "scale="@ + spec_signed_decimal(w as int) + ":"@ + spec_signed_decimal(h as int)
        + ":flags=bicubic,"@
}

/// The filters of both streams: the reference vfilter on the reference,
/// conversion of both to a common pixel format, the scale and a timestamp sync.
pub open spec fn spec_prefix(pix_fmt: PixelFormat, scale: Option<(i32, i32)>, ref_vf: Seq<char>) -> Seq<char> {
    let sc = match scale {
        Some((w, h)) => spec_scale_filter(w, h),
        None => Seq::empty(),
    };
    "[0:v]format="@ + pixel_format_name(pix_fmt) + ","@ + sc + "setpts=PTS-STARTPTS[dis];[1:v]format="@
        + pixel_format_name(pix_fmt) + ","@ + ref_vf + sc + "setpts=PTS-STARTPTS[ref];[dis][ref]"@
}

/// The ffmpeg `filter_complex`/`lavfi` value for calculating vmaf.
pub open spec fn spec_ffmpeg_lavfi(
    args: Seq<Seq<char>>,
    scale: VmafScale,
    distorted_res: Option<(u32, u32)>,
    pix_fmt: PixelFormat,
    ref_vfilter: Option<Seq<char>>,
    threads: u64,
) -> Seq<char> {
    let all = spec_lavfi_args(args, threads);
    let chosen = spec_model_from_args(all);
    let use_4k = chosen is None && match distorted_res {
        Some((w, h)) => w > 2560 && h > 1440,
        None => false,
    };
    let model = if use_4k {
        VmafModel::Vmaf4K
    } else {
        match chosen {
            Some(m) => m,
            None => VmafModel::Vmaf1K,
        }
    };
    spec_prefix(pix_fmt, spec_vf_scale(scale, model, distorted_res), spec_ref_vf(ref_vfilter))
        + "libvmaf="@ + spec_join(all, ":"@) + if use_4k {
        ":model=version=vmaf_4k_v0.6.1"@
    } else {
        Seq::empty()
    }
}

/// `args` joined with `sep` between them.
pub fn join_strs(args: &Vec<&str>, sep: &str) -> (r: String)
    ensures
        r@ == spec_join(strs_view(args@), sep@),
{
    let mut r = String::new();
    let mut i: usize = 0;
    while i < args.len()
        invariant
            i <= args@.len(),
            r@ == spec_join(strs_view(args@.subrange(0, i as int)), sep@),
        decreases args@.len() - i,
    {
        let ghost pre = strs_view(args@.subrange(0, i as int));
        let ghost cur = strs_view(args@.subrange(0, i + 1));
        assert(cur.drop_last() =~= pre);
        if i > 0 {
            push_str(&mut r, sep);
        }
        push_str(&mut r, args[i]);
        proof {
            if i == 0 {
                assert(r@ =~= cur[0]);
            }
        }
        i = i + 1;
    }
    assert(args@.subrange(0, args@.len() as int) =~= args@);
    r
}

impl VmafModel {
    /// The model the vmaf args choose, if any.
    pub fn from_args(args: &Vec<&str>) -> (r: Option<VmafModel>)
        ensures
            r == spec_model_from_args(strs_view(args@)),
    {
        let mut count: usize = 0;
        let mut first: usize = 0;
        let mut i: usize = 0;
        while i < args.len()
            invariant
                i <= args@.len(),
                count <= i,
                count == model_args(strs_view(args@.subrange(0, i as int))).len(),
                count > 0 ==> first < i && model_args(strs_view(args@.subrange(0, i as int)))[0]
                    == args@[first as int]@,
            decreases args@.len() - i,
        {
            let ghost pre = strs_view(args@.subrange(0, i as int));
            let ghost cur = strs_view(args@.subrange(0, i + 1));
            assert(cur.drop_last() =~= pre);
            if contains_str(args[i], "model") {
                if count == 0 {
                    first = i;
                }
                count = count + 1;
            }
            i = i + 1;
        }
        assert(args@.subrange(0, args@.len() as int) =~= args@);
        if count == 0 {
            None
        } else if count == 1 {
            let v = args[first];
            if ends_with_str(v, "version=vmaf_v0.6.1") {
                Some(VmafModel::Vmaf1K)
            } else if ends_with_str(v, "version=vmaf_4k_v0.6.1") {
                Some(VmafModel::Vmaf4K)
            } else {
                Some(VmafModel::Custom)
            }
        } else {
            Some(VmafModel::Custom)
        }
    }
}

/// Whether some arg mentions `n_threads`.
fn any_n_threads(args: &Vec<&str>) -> (r: bool)
    ensures
        r == has_n_threads(strs_view(args@)),
{
    let mut i: usize = 0;
    while i < args.len()
        invariant
            i <= args@.len(),
            forall|j: int| 0 <= j < i ==> !spec_contains(#[trigger] strs_view(args@)[j], "n_threads"@),
        decreases args@.len() - i,
    {
        if contains_str(args[i], "n_threads") {
            assert(spec_contains(strs_view(args@)[i as int], "n_threads"@));
            return true;
        }
        i = i + 1;
    }
    false
}

/// Return the smallest ffmpeg vf `(w, h)` scale values so that at least one of the
/// `target_w` or `target_h` bounds are met.
pub fn minimally_scale(from: (u32, u32), target: (u32, u32)) -> (r: (i32, i32))
    ensures
        r == spec_minimally_scale(from, target),
{
    let (from_w, from_h) = from;
    let (target_w, target_h) = target;
    assert(from_h * target_w <= 0xffff_ffff * 0xffff_ffff) by (nonlinear_arith)
        requires
            from_h <= 0xffff_ffff,
            target_w <= 0xffff_ffff,
    ;
    assert(from_w * target_h <= 0xffff_ffff * 0xffff_ffff) by (nonlinear_arith)
        requires
            from_w <= 0xffff_ffff,
            target_h <= 0xffff_ffff,
    ;
    if from_h as u64 * target_w as u64 > from_w as u64 * target_h as u64 {
        (-1, target_h as i32)
    } else {
        (target_w as i32, -1)
    }
}

impl Vmaf {
    /// Whether no vmaf arg is given and the scale is automatic.
    pub fn is_default(&self) -> (r: bool)
        ensures
            r == (self.vmaf_args@.len() == 0 && self.vmaf_scale == VmafScale::Auto),
    {
        self.vmaf_args.len() == 0 && self.vmaf_scale == VmafScale::Auto
    }

    /// The scale of both streams before analysis with `model`, if any.
    pub fn vf_scale(&self, model: VmafModel, distorted_res: Option<(u32, u32)>) -> (r: Option<(i32, i32)>)
        ensures
            r == spec_vf_scale(self.vmaf_scale, model, distorted_res),
    {
        match (self.vmaf_scale, distorted_res) {
            (VmafScale::Auto, Some((w, h))) => match model {
                VmafModel::Vmaf1K => if w < 1728 && h < 972 {
                    Some(minimally_scale((w, h), (1920, 1080)))
                } else {
                    None
                },
                VmafModel::Vmaf4K => if w < 3456 && h < 1944 {
                    Some(minimally_scale((w, h), (3840, 2160)))
                } else {
                    None
                },
                VmafModel::Custom => None,
            },
            (VmafScale::Custom { width, height }, Some((w, h))) => Some(
                minimally_scale((w, h), (width, height)),
            ),
            (VmafScale::Custom { width, height }, None) => Some((width as i32, height as i32)),
            _ => None,
        }
    }
}

/// Appends the filters of both streams.
fn push_prefix(r: &mut String, pix_fmt: PixelFormat, scale: Option<(i32, i32)>, ref_vf: &str)
    ensures
        final(r)@ == old(r)@ + spec_prefix(pix_fmt, scale, ref_vf@),
{
    let mut sc = String::new();
    if let Some((w, h)) = scale {
        push_str(&mut sc, "scale=");
        let ws = i64_to_string(w as i64);
        push_str(&mut sc, ws.as_str());
        push_str(&mut sc, ":");
        let hs = i64_to_string(h as i64);
        push_str(&mut sc, hs.as_str());
        push_str(&mut sc, ":flags=bicubic,");
    }
    let ghost sc_v = match scale {
        Some((w, h)) => spec_scale_filter(w, h),
        None => Seq::empty(),
    };
    assert(sc@ =~= sc_v);
    push_str(r, "[0:v]format=");
    push_str(r, pix_fmt.as_str());
    push_str(r, ",");
    push_str(r, sc.as_str());
    push_str(r, "setpts=PTS-STARTPTS[dis];[1:v]format=");
    push_str(r, pix_fmt.as_str());
    push_str(r, ",");
    push_str(r, ref_vf);
    push_str(r, sc.as_str());
    push_str(r, "setpts=PTS-STARTPTS[ref];[dis][ref]");
    assert(final(r)@ =~= old(r)@ + spec_prefix(pix_fmt, scale, ref_vf@));
}

/// The reference vfilter as a filter chain prefix.
fn ref_vf_of(ref_vfilter: Option<&str>) -> (r: String)
    ensures
        r@ == spec_ref_vf(match ref_vfilter {
            Some(v) => Some(v@),
            None => None,
        }),
{
    let mut r = String::new();
    match ref_vfilter {
        None => {},
        Some(vf) => {
            push_str(&mut r, vf);
            if !ends_with_str(vf, ",") {
                push_str(&mut r, ",");
            }
        },
    }
    r
}

impl Vmaf {
    /// Returns ffmpeg `filter_complex`/`lavfi` value for calculating vmaf, with
    /// `n_threads` defaulted to `threads` (the available system threads).
    pub fn ffmpeg_lavfi(
        &self,
        distorted_res: Option<(u32, u32)>,
        pix_fmt: PixelFormat,
        ref_vfilter: Option<&str>,
        threads: u64,
    ) -> (r: String)
        ensures
            r@ == spec_ffmpeg_lavfi(
                strings_view(self.vmaf_args@),
                self.vmaf_scale,
                distorted_res,
                pix_fmt,
                match ref_vfilter {
                    Some(v) => Some(v@),
                    None => None,
                },
                threads,
            ),
    {
        let mut threads_arg = String::new();
        push_str(&mut threads_arg, "n_threads=");
        let t = u64_to_string(threads);
        push_str(&mut threads_arg, t.as_str());
        let mut args: Vec<&str> = Vec::new();
        let mut i: usize = 0;
        while i < self.vmaf_args.len()
            invariant
                i <= self.vmaf_args@.len(),
                strs_view(args@) == strings_view(self.vmaf_args@).subrange(0, i as int),
            decreases self.vmaf_args@.len() - i,
        {
            let a = self.vmaf_args[i].as_str();
            assert(a@ == strings_view(self.vmaf_args@)[i as int]);
            let ghost prev = args@;
            args.push(a);
            assert(strs_view(args@) =~= strs_view(prev).push(a@));
            assert(strs_view(args@) =~= strings_view(self.vmaf_args@).subrange(0, i + 1));
            i = i + 1;
        }
        let ghost given = strings_view(self.vmaf_args@);
        assert(strs_view(args@) =~= given);
        if !any_n_threads(&args) {
            args.push(threads_arg.as_str());
            assert(strs_view(args@) =~= given.push("n_threads="@ + spec_decimal(threads as nat)));
        }
        assert(strs_view(args@) == spec_lavfi_args(given, threads));
        let chosen = VmafModel::from_args(&args);
        let use_4k = chosen.is_none() && match distorted_res {
            Some((w, h)) => w > 2560 && h > 1440,
            None => false,
        };
        let model = if use_4k {
            VmafModel::Vmaf4K
        } else {
            match chosen {
                Some(m) => m,
                None => VmafModel::Vmaf1K,
            }
        };
        let scale = self.vf_scale(model, distorted_res);
        let ref_vf = ref_vf_of(ref_vfilter);
        let mut r = String::new();
        push_prefix(&mut r, pix_fmt, scale, ref_vf.as_str());
        push_str(&mut r, "libvmaf=");
        let joined = join_strs(&args, ":");
        push_str(&mut r, joined.as_str());
        if use_4k {
            push_str(&mut r, ":model=version=vmaf_4k_v0.6.1");
        }
        proof {
            assert(r@ =~= spec_ffmpeg_lavfi(
                given,
                self.vmaf_scale,
                distorted_res,
                pix_fmt,
                match ref_vfilter {
                    Some(v) => Some(v@),
                    None => None,
                },
                threads,
            ));
        }
        r
    }
}

/// The message of a `--vmaf-scale` value that is not understood.
pub open spec fn vmaf_scale_err() -> Seq<char> {
    "vmaf-scale must be 'none', 'auto' or WxH format e.g. '1920x1080'"@
}

/// The scale a `--vmaf-scale` value names: `none`, `auto` or `WxH`.
pub open spec fn spec_parse_vmaf_scale(s: Seq<char>) -> Option<VmafScale> {
    if s == "none"@ {
        Some(VmafScale::Disabled)
    } else if s == "auto"@ {
        Some(VmafScale::Auto)
    } else {
        match spec_find(s, seq!['x']) {
            None => None,
            Some(i) => match (
                spec_parse_u32(s.subrange(0, i)),
                spec_parse_u32(s.subrange(i + 1, s.len() as int)),
            ) {
                (Ok(w), Ok(h)) => Some(VmafScale::Custom { width: w as u32, height: h as u32 }),
                _ => None,
            },
        }
    }
}

/// The text of a scale: `none`, `auto` or `WxH`.
pub open spec fn spec_vmaf_scale_text(v: VmafScale) -> Seq<char> {
    match v {
        VmafScale::Disabled => "none"@,
        VmafScale::Auto => "auto"@,
        VmafScale::Custom { width, height } => spec_decimal(width as nat) + "x"@ + spec_decimal(
            height as nat,
        ),
    }
}

/// Parse a `--vmaf-scale` value.
pub fn parse_vmaf_scale(vs: &str) -> (r: Result<VmafScale, String>)
    ensures
        match spec_parse_vmaf_scale(vs@) {
            Some(v) => r == Ok::<VmafScale, String>(v),
            None => r matches Err(e) && e@ == vmaf_scale_err(),
        },
{
    if str_eq(vs, "none") {
        return Ok(VmafScale::Disabled);
    }
    if str_eq(vs, "auto") {
        return Ok(VmafScale::Auto);
    }
    let err = "vmaf-scale must be 'none', 'auto' or WxH format e.g. '1920x1080'";
    let cs = chars_of(vs);
    let x = ['x'];
    let pos = find_chars(cs.as_slice(), x.as_slice());
    assert(x@ == seq!['x']);
    match pos {
        None => Err(String::from_str(err)),
        Some(i) => {
            proof {
                crate::text::lemma_find(cs@, seq!['x']);
                assert(crate::text::occurs_at(cs@, seq!['x'], i as int));
                assert(i + 1 <= cs@.len());
            }
            let n = cs.len();
            let w = sub_chars(cs.as_slice(), 0, i);
            let h = sub_chars(cs.as_slice(), i + 1, n);
            let pw = parse_int(w.as_slice(), 0, u32::MAX as i128);
            let ph = parse_int(h.as_slice(), 0, u32::MAX as i128);
            match (pw, ph) {
                (Ok(wv), Ok(hv)) => Ok(VmafScale::Custom { width: wv as u32, height: hv as u32 }),
                _ => Err(String::from_str(err)),
            }
        },
    }
}

impl VmafScale {
    /// The text of the scale (`Display`).
    pub fn display(&self) -> (r: String)
        ensures
            r@ == spec_vmaf_scale_text(*self),
    {
        match self {
            VmafScale::Disabled => String::from_str("none"),
            VmafScale::Auto => String::from_str("auto"),
            VmafScale::Custom { width, height } => {
                let mut r = u64_to_string(*width as u64);
                push_str(&mut r, "x");
                let h = u64_to_string(*height as u64);
                push_str(&mut r, h.as_str());
                r
            },
        }
    }
}

/// A scale's text parses back to the same scale.
pub proof fn lemma_vmaf_scale_round_trip(v: VmafScale)
    ensures
        spec_parse_vmaf_scale(spec_vmaf_scale_text(v)) == Some(v),
{
    reveal_strlit("none");
    reveal_strlit("auto");
    if let VmafScale::Auto = v {
        assert("auto"@ != "none"@) by {
            assert("auto"@[0] != "none"@[0]);
        }
    }
    if let VmafScale::Custom { width, height } = v {
        let a = spec_decimal(width as nat);
        let b = spec_decimal(height as nat);
        let t = a + "x"@ + b;
        reveal_strlit("x");
        crate::decimal::lemma_decimal_digits(width as nat);
        crate::decimal::lemma_decimal_digits(height as nat);
        crate::decimal::lemma_parse_decimal(width as nat, 0, u32::MAX as int);
        crate::decimal::lemma_parse_decimal(height as nat, 0, u32::MAX as int);
        assert(t[0] == a[0]);
        assert(crate::decimal::is_digit(a[0]));
        assert(t != "none"@) by {
            assert("none"@[0] == 'n');
        }
        assert(t != "auto"@) by {
            assert("auto"@[0] == 'a');
        }
        assert(t != "auto"@);
        assert(t[a.len() as int] == 'x');
        crate::text::lemma_find(t, seq!['x']);
        assert(crate::text::occurs_at(t, seq!['x'], a.len() as int)) by {
            assert(t.subrange(a.len() as int, a.len() as int + 1) =~= seq!['x']);
        }
        assert forall|k: int| 0 <= k < a.len() implies !crate::text::occurs_at(t, seq!['x'], k) by {
            assert(t[k] == a[k]);
            assert(t.subrange(k, k + 1)[0] == t[k]);
        }
        assert(spec_find(t, seq!['x']) == Some(a.len() as int));
        assert(t.subrange(0, a.len() as int) =~= a);
        assert(t.subrange(a.len() as int + 1, t.len() as int) =~= b);
        assert(spec_parse_u32(t.subrange(0, a.len() as int)) == Ok::<int, crate::decimal::IntErrorKind>(width as int));
        assert(spec_parse_u32(t.subrange(a.len() as int + 1, t.len() as int)) == Ok::<int, crate::decimal::IntErrorKind>(height as int));
        assert(spec_vmaf_scale_text(v) == t);
    }
}

/// The `n_threads` arg that the filter adds names no model.
proof fn lemma_threads_arg_names_no_model(threads: u64)
    ensures
        !spec_contains("n_threads="@ + spec_decimal(threads as nat), "model"@),
{
    let a = "n_threads="@ + spec_decimal(threads as nat);
    reveal_strlit("n_threads=");
    reveal_strlit("model");
    crate::decimal::lemma_decimal_digits(threads as nat);
    crate::text::lemma_find(a, "model"@);
    if let Some(k) = spec_find(a, "model"@) {
        assert(a.subrange(k, k + 5)[0] == a[k]);
        assert(a[k] == 'm');
        if k >= 10 {
            assert(a[k] == spec_decimal(threads as nat)[k - 10]);
        }
    }
}

/// Where no vmaf arg names a model, the defaulted args choose none either.
proof fn lemma_no_model_chosen(args: Seq<Seq<char>>, threads: u64)
    requires
        model_args(args).len() == 0,
    ensures
        spec_model_from_args(spec_lavfi_args(args, threads)) is None,
{
    if !has_n_threads(args) {
        let x = "n_threads="@ + spec_decimal(threads as nat);
        lemma_threads_arg_names_no_model(threads);
        assert(args.push(x).drop_last() =~= args);
        assert(args.push(x).last() == x);
    }
}

/// With no model among the vmaf args, the 4k model is used exactly when the
/// distorted video is wider than 2560 and higher than 1440: then the filter
/// ends in `:model=version=vmaf_4k_v0.6.1` and scales by the 4k rule. Otherwise
/// (at most 2560x1440, or no resolution known) the filter ends in the args with
/// no model and scales by the 1k rule, so under automatic scale a 1440p input
/// is not scaled at all.
pub proof fn lemma_model_by_resolution(
    args: Seq<Seq<char>>,
    scale: VmafScale,
    distorted_res: Option<(u32, u32)>,
    pix_fmt: PixelFormat,
    ref_vfilter: Option<Seq<char>>,
    threads: u64,
)
    requires
        model_args(args).len() == 0,
    ensures
        ({
            let joined = "libvmaf="@ + spec_join(spec_lavfi_args(args, threads), ":"@);
            let ref_vf = spec_ref_vf(ref_vfilter);
            let r = spec_ffmpeg_lavfi(args, scale, distorted_res, pix_fmt, ref_vfilter, threads);
            let big = match distorted_res {
                Some((w, h)) => w > 2560 && h > 1440,
                None => false,
            };
            &&& big ==> r == spec_prefix(
                pix_fmt,
                spec_vf_scale(scale, VmafModel::Vmaf4K, distorted_res),
                ref_vf,
            ) + joined + ":model=version=vmaf_4k_v0.6.1"@
            &&& !big ==> r == spec_prefix(
                pix_fmt,
                spec_vf_scale(scale, VmafModel::Vmaf1K, distorted_res),
                ref_vf,
            ) + joined
            &&& !big && scale == VmafScale::Auto && (distorted_res matches Some((w, h)) && (w >= 1728
                || h >= 972)) ==> r == spec_prefix(pix_fmt, None, ref_vf) + joined
        }),
{
    lemma_no_model_chosen(args, threads);
}

} // verus!
