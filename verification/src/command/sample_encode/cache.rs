//! The key under which a sample encode's result is cached.
//!
//! The key is the BLAKE3 hash of a byte record of everything that decides the
//! result: the sample (its file name, which holds the input name, frames and
//! start), the input's duration, extension and size, whether the whole input is
//! encoded, the encoder arguments but the input path, the svt-av1 version for
//! svt-av1 encodes, and the scoring settings.
use vstd::prelude::*;
use vstd::utf8::{decode_utf8, encode_utf8, encode_utf8_decode_utf8};
use crate::command::encoders::{PixelFormat, pixel_format_name};
use crate::duration::Duration;
use crate::ffmpeg::{FfmpegEncodeArgs, opt_string, opt_text};
use crate::text::strings_view;

verus! {

/// What `blake3::hash` gives for `data`, in lower case hexadecimal.
pub uninterp spec fn blake3_hex(data: Seq<u8>) -> Seq<char>;

/// `blake3::hash(data).to_hex()`: the BLAKE3 hash of the bytes in lower case
/// hexadecimal, a function of the bytes alone.
#[verifier::external_body]
fn blake3_hex_of(data: &[u8]) -> (r: String)
    ensures
        r@ == blake3_hex(data@),
{
    blake3::hash(data).to_hex().to_string()
}

/// `x` as `n` little-endian bytes.
pub open spec fn le_bytes(x: nat, n: nat) -> Seq<u8>
    decreases n,
{
    if n == 0 {
        Seq::empty()
    } else {
        seq![(x % 256) as u8] + le_bytes(x / 256, (n - 1) as nat)
    }
}

/// A number: its 8 little-endian bytes.
pub open spec fn num_field(x: nat) -> Seq<u8> {
    le_bytes(x, 8)
}

/// A flag: one byte, `1` for true.
pub open spec fn flag_field(b: bool) -> Seq<u8> {
    if b {
        seq![1u8]
    } else {
        seq![0u8]
    }
}

/// A text: its UTF-8 length, then its UTF-8 bytes.
pub open spec fn text_field(t: Seq<char>) -> Seq<u8> {
    num_field(encode_utf8(t).len()) + encode_utf8(t)
}

/// An optional text: a `0` byte for none, otherwise a `1` byte and the text.
pub open spec fn opt_text_field(t: Option<Seq<char>>) -> Seq<u8> {
    match t {
        None => seq![0u8],
        Some(t) => seq![1u8] + text_field(t),
    }
}

/// The texts one after the other.
pub open spec fn texts_concat(ts: Seq<Seq<char>>) -> Seq<u8>
    decreases ts.len(),
{
    if ts.len() == 0 {
        Seq::empty()
    } else {
        texts_concat(ts.drop_last()) + text_field(ts.last())
    }
}

/// A list of texts: the count, then each text.
pub open spec fn texts_field(ts: Seq<Seq<char>>) -> Seq<u8> {
    num_field(ts.len()) + texts_concat(ts)
}

/// The name of an optional pixel format.
pub open spec fn opt_pix_fmt_name(p: Option<PixelFormat>) -> Option<Seq<char>> {
    match p {
        Some(p) => Some(pixel_format_name(p)),
        None => None,
    }
}

/// The svt-av1 version where the encoder is svt-av1.
pub open spec fn svt_version_for(vcodec: Seq<char>, svt_version: Option<Seq<char>>) -> Option<Seq<char>> {
    if vcodec == "libsvtav1"@ {
        svt_version
    } else {
        None
    }
}

/// The record of what decides a sample encode's result.
pub open spec fn spec_key_bytes(
    sample_name: Seq<char>,
    input_duration: Duration,
    input_ext: Option<Seq<char>>,
    input_size: u64,
    full_pass: bool,
    enc: FfmpegEncodeArgs,
    svt_version: Option<Seq<char>>,
    scoring: Seq<char>,
) -> Seq<u8> {
    text_field(sample_name) + num_field(input_duration.spec_secs() as nat) + num_field(
        input_duration.spec_nanos() as nat,
    ) + opt_text_field(input_ext) + num_field(input_size as nat) + flag_field(full_pass) + opt_text_field(
        svt_version_for(enc.vcodec@, svt_version),
    ) + text_field(enc.vcodec@) + opt_text_field(opt_string(enc.vfilter)) + opt_text_field(
        opt_pix_fmt_name(enc.pix_fmt),
    ) + num_field(enc.crf as nat) + opt_text_field(opt_string(enc.preset)) + texts_field(
        strings_view(enc.output_args@),
    ) + texts_field(strings_view(enc.input_args@)) + text_field(scoring)
}

/// Append the 8 little-endian bytes of `x`.
fn push_num(v: &mut Vec<u8>, x: u64)
    ensures
        final(v)@ == old(v)@ + num_field(x as nat),
{
    let ghost v0 = v@;
    let mut cur: u64 = x;
    let mut i: usize = 0;
    while i < 8
        invariant
            i <= 8,
            v@ + le_bytes(cur as nat, (8 - i) as nat) == v0 + le_bytes(x as nat, 8),
        decreases 8 - i,
    {
        let ghost before = v@;
        assert(le_bytes(cur as nat, (8 - i) as nat) == seq![(cur % 256) as u8] + le_bytes(
            (cur / 256) as nat,
            (8 - i - 1) as nat,
        ));
        v.push((cur % 256) as u8);
        assert(v@ + le_bytes((cur / 256) as nat, (8 - i - 1) as nat) =~= before + le_bytes(
            cur as nat,
            (8 - i) as nat,
        ));
        cur = cur / 256;
        i = i + 1;
    }
    assert(v@ + le_bytes(cur as nat, 0) =~= v@);
}

/// Append a flag byte.
fn push_flag(v: &mut Vec<u8>, b: bool)
    ensures
        final(v)@ == old(v)@ + flag_field(b),
{
    if b {
        v.push(1u8);
    } else {
        v.push(0u8);
    }
    assert(v@ =~= old(v)@ + flag_field(b));
}

/// Append a text: its byte length, then its bytes.
fn push_text(v: &mut Vec<u8>, t: &str)
    ensures
        final(v)@ == old(v)@ + text_field(t@),
{
    let bytes = t.as_bytes();
    let ghost v0 = v@;
    push_num(v, bytes.len() as u64);
    let ghost v1 = v@;
    let mut i: usize = 0;
    while i < bytes.len()
        invariant
            i <= bytes@.len(),
            v@ == v1 + bytes@.subrange(0, i as int),
        decreases bytes@.len() - i,
    {
        v.push(bytes[i]);
        assert(v1 + bytes@.subrange(0, i + 1) =~= v1 + bytes@.subrange(0, i as int) + seq![bytes@[i as int]]);
        i = i + 1;
    }
    assert(bytes@.subrange(0, bytes@.len() as int) =~= bytes@);
    assert(v@ =~= v0 + text_field(t@));
}

/// Append an optional text.
fn push_opt_text(v: &mut Vec<u8>, t: Option<&str>)
    ensures
        final(v)@ == old(v)@ + opt_text_field(opt_text(t)),
{
    match t {
        None => {
            v.push(0u8);
            assert(v@ =~= old(v)@ + seq![0u8]);
        },
        Some(s) => {
            v.push(1u8);
            push_text(v, s);
            assert(v@ =~= old(v)@ + (seq![1u8] + text_field(s@)));
        },
    }
}

/// Append a list of texts: the count, then each text.
fn push_texts(v: &mut Vec<u8>, ts: &Vec<String>)
    ensures
        final(v)@ == old(v)@ + texts_field(strings_view(ts@)),
{
    let ghost v0 = v@;
    let ghost tv = strings_view(ts@);
    push_num(v, ts.len() as u64);
    let ghost v1 = v@;
    let mut i: usize = 0;
    while i < ts.len()
        invariant
            i <= ts@.len(),
            tv == strings_view(ts@),
            tv.len() == ts@.len(),
            v@ == v1 + texts_concat(tv.take(i as int)),
        decreases ts@.len() - i,
    {
        push_text(v, ts[i].as_str());
        assert(tv.take(i + 1).drop_last() =~= tv.take(i as int));
        assert(tv[i as int] == ts@[i as int]@);
        i = i + 1;
    }
    assert(tv.take(ts@.len() as int) =~= tv);
    assert(v@ =~= v0 + texts_field(tv));
}

/// The record of what decides a sample encode's result (see [`spec_key_bytes`]).
pub fn sample_encode_key_bytes(
    sample_name: &str,
    input_duration: Duration,
    input_ext: Option<&str>,
    input_size: u64,
    full_pass: bool,
    enc: &FfmpegEncodeArgs,
    svt_version: Option<&str>,
    scoring: &str,
) -> (r: Vec<u8>)
    ensures
        r@ == spec_key_bytes(
            sample_name@,
            input_duration,
            opt_text(input_ext),
            input_size,
            full_pass,
            *enc,
            opt_text(svt_version),
            scoring@,
        ),
{
    let mut v: Vec<u8> = Vec::new();
    push_text(&mut v, sample_name);
    push_num(&mut v, input_duration.as_secs());
    push_num(&mut v, input_duration.subsec_nanos() as u64);
    push_opt_text(&mut v, input_ext);
    push_num(&mut v, input_size);
    push_flag(&mut v, full_pass);
    let is_svt = crate::text::str_eq(enc.vcodec.as_str(), "libsvtav1");
    proof {
        reveal_strlit("libsvtav1");
    }
    let svt = if is_svt {
        svt_version
    } else {
        None
    };
    push_opt_text(&mut v, svt);
    push_text(&mut v, enc.vcodec.as_str());
    let vfilter = match &enc.vfilter {
        Some(f) => Some(f.as_str()),
        None => None,
    };
    push_opt_text(&mut v, vfilter);
    let pix = match enc.pix_fmt {
        Some(p) => Some(p.as_str()),
        None => None,
    };
    push_opt_text(&mut v, pix);
    push_num(&mut v, enc.crf);
    let preset = match &enc.preset {
        Some(p) => Some(p.as_str()),
        None => None,
    };
    push_opt_text(&mut v, preset);
    push_texts(&mut v, &enc.output_args);
    push_texts(&mut v, &enc.input_args);
    push_text(&mut v, scoring);
    assert(v@ =~= spec_key_bytes(
        sample_name@,
        input_duration,
        opt_text(input_ext),
        input_size,
        full_pass,
        *enc,
        opt_text(svt_version),
        scoring@,
    ));
    v
}

/// The cache key of a sample encode: the BLAKE3 hash, in hexadecimal, of the
/// record of what decides its result.
pub fn sample_encode_key(
    sample_name: &str,
    input_duration: Duration,
    input_ext: Option<&str>,
    input_size: u64,
    full_pass: bool,
    enc: &FfmpegEncodeArgs,
    svt_version: Option<&str>,
    scoring: &str,
) -> (r: String)
    ensures
        r@ == blake3_hex(
            spec_key_bytes(
                sample_name@,
                input_duration,
                opt_text(input_ext),
                input_size,
                full_pass,
                *enc,
                opt_text(svt_version),
                scoring@,
            ),
        ),
{
    let bytes = sample_encode_key_bytes(
        sample_name,
        input_duration,
        input_ext,
        input_size,
        full_pass,
        enc,
        svt_version,
        scoring,
    );
    blake3_hex_of(bytes.as_slice())
}


/// `256^n`.
pub open spec fn pow256(n: nat) -> nat
    decreases n,
{
    if n == 0 {
        1
    } else {
        256 * pow256((n - 1) as nat)
    }
}

/// `n` little-endian bytes are `n` long.
proof fn lemma_le_bytes_len(x: nat, n: nat)
    ensures
        le_bytes(x, n).len() == n,
    decreases n,
{
    if n > 0 {
        lemma_le_bytes_len(x / 256, (n - 1) as nat);
    }
}

/// `n` little-endian bytes are `n` long, and tell apart numbers below `256^n`.
proof fn lemma_le_bytes(x: nat, y: nat, n: nat)
    requires
        x < pow256(n),
        y < pow256(n),
    ensures
        le_bytes(x, n).len() == n,
        le_bytes(x, n) == le_bytes(y, n) ==> x == y,
    decreases n,
{
    if n > 0 {
        let p = pow256((n - 1) as nat);
        assert(x / 256 < p && y / 256 < p) by (nonlinear_arith)
            requires
                x < 256 * p,
                y < 256 * p,
        ;
        lemma_le_bytes(x / 256, y / 256, (n - 1) as nat);
        if le_bytes(x, n) == le_bytes(y, n) {
            let a = le_bytes(x, n);
            let b = le_bytes(y, n);
            assert(a[0] == b[0]);
            assert(a.subrange(1, a.len() as int) =~= le_bytes(x / 256, (n - 1) as nat));
            assert(b.subrange(1, b.len() as int) =~= le_bytes(y / 256, (n - 1) as nat));
            assert((x % 256) as u8 == (y % 256) as u8);
            assert(x == 256 * (x / 256) + x % 256 && y == 256 * (y / 256) + y % 256) by (nonlinear_arith);
        }
    }
}

/// Numbers below `2^64` have 8-byte fields that tell them apart.
proof fn lemma_num_field(x: u64, y: u64)
    ensures
        num_field(x as nat).len() == 8,
        num_field(x as nat) == num_field(y as nat) ==> x == y,
{
    assert(pow256(8) == 0x1_0000_0000_0000_0000) by {
        reveal_with_fuel(pow256, 9);
    }
    lemma_le_bytes(x as nat, y as nat, 8);
}

/// Equal surroundings: where `pre + a + post` and `pre + b + post` are equal, so
/// are `a` and `b`.
proof fn lemma_cancel(pre: Seq<u8>, a: Seq<u8>, b: Seq<u8>, post: Seq<u8>)
    requires
        pre + a + post == pre + b + post,
    ensures
        a == b,
{
    assert((pre + a + post).len() == (pre + b + post).len());
    assert((pre + a + post).len() == (pre + a).len() + post.len());
    assert((pre + b + post).len() == (pre + b).len() + post.len());
    assert((pre + a).len() == pre.len() + a.len());
    assert((pre + b).len() == pre.len() + b.len());
    assert(a.len() == b.len());
    assert forall|i: int| 0 <= i < a.len() implies a[i] == b[i] by {
        assert((pre + a)[pre.len() + i] == a[i]);
        assert((pre + b)[pre.len() + i] == b[i]);
        assert((pre + a + post)[pre.len() + i] == (pre + a)[pre.len() + i]);
        assert((pre + b + post)[pre.len() + i] == (pre + b)[pre.len() + i]);
    }
    assert(a =~= b);
}

/// Texts whose fields are equal are equal.
proof fn lemma_text_field(s: Seq<char>, t: Seq<char>)
    requires
        text_field(s) == text_field(t),
    ensures
        s == t,
{
    let es = encode_utf8(s);
    let et = encode_utf8(t);
    let ns = num_field(es.len());
    let nt = num_field(et.len());
    lemma_le_bytes_len(es.len(), 8);
    lemma_le_bytes_len(et.len(), 8);
    assert(ns.len() == 8 && nt.len() == 8);
    assert(ns =~= text_field(s).subrange(0, 8));
    assert(nt =~= text_field(t).subrange(0, 8));
    assert(es =~= text_field(s).subrange(8, text_field(s).len() as int));
    assert(et =~= text_field(t).subrange(8, text_field(t).len() as int));
    encode_utf8_decode_utf8(s);
    encode_utf8_decode_utf8(t);
}

/// Everything of the record before the svt-av1 version.
pub open spec fn key_head(
    sample_name: Seq<char>,
    input_duration: Duration,
    input_ext: Option<Seq<char>>,
    input_size: u64,
    full_pass: bool,
) -> Seq<u8> {
    text_field(sample_name) + num_field(input_duration.spec_secs() as nat) + num_field(
        input_duration.spec_nanos() as nat,
    ) + opt_text_field(input_ext) + num_field(input_size as nat) + flag_field(full_pass)
}

/// The encoder, filter and pixel format fields, which come before the crf.
pub open spec fn key_codec(enc: FfmpegEncodeArgs) -> Seq<u8> {
    text_field(enc.vcodec@) + opt_text_field(opt_string(enc.vfilter)) + opt_text_field(
        opt_pix_fmt_name(enc.pix_fmt),
    )
}

/// Everything of the record after the crf.
pub open spec fn key_tail(enc: FfmpegEncodeArgs, scoring: Seq<char>) -> Seq<u8> {
    opt_text_field(opt_string(enc.preset)) + texts_field(strings_view(enc.output_args@)) + texts_field(
        strings_view(enc.input_args@),
    ) + text_field(scoring)
}

/// The record in its parts.
proof fn lemma_key_parts(
    sample_name: Seq<char>,
    input_duration: Duration,
    input_ext: Option<Seq<char>>,
    input_size: u64,
    full_pass: bool,
    enc: FfmpegEncodeArgs,
    svt_version: Option<Seq<char>>,
    scoring: Seq<char>,
)
    ensures
        spec_key_bytes(sample_name, input_duration, input_ext, input_size, full_pass, enc, svt_version, scoring)
            == key_head(sample_name, input_duration, input_ext, input_size, full_pass) + opt_text_field(
            svt_version_for(enc.vcodec@, svt_version),
        ) + (key_codec(enc) + num_field(enc.crf as nat) + key_tail(enc, scoring)),
        spec_key_bytes(sample_name, input_duration, input_ext, input_size, full_pass, enc, svt_version, scoring)
            == (key_head(sample_name, input_duration, input_ext, input_size, full_pass) + opt_text_field(
            svt_version_for(enc.vcodec@, svt_version),
        ) + key_codec(enc)) + num_field(enc.crf as nat) + key_tail(enc, scoring),
{
    let k = spec_key_bytes(sample_name, input_duration, input_ext, input_size, full_pass, enc, svt_version, scoring);
    assert(k =~= key_head(sample_name, input_duration, input_ext, input_size, full_pass) + opt_text_field(
        svt_version_for(enc.vcodec@, svt_version),
    ) + (key_codec(enc) + num_field(enc.crf as nat) + key_tail(enc, scoring)));
    assert(k =~= (key_head(sample_name, input_duration, input_ext, input_size, full_pass) + opt_text_field(
        svt_version_for(enc.vcodec@, svt_version),
    ) + key_codec(enc)) + num_field(enc.crf as nat) + key_tail(enc, scoring));
}

/// The encode settings that a sample's result depends on are the same, but
/// perhaps the crf.
pub open spec fn same_but_crf(a: FfmpegEncodeArgs, b: FfmpegEncodeArgs) -> bool {
    &&& a.vcodec@ == b.vcodec@
    &&& opt_string(a.vfilter) == opt_string(b.vfilter)
    &&& a.pix_fmt == b.pix_fmt
    &&& opt_string(a.preset) == opt_string(b.preset)
    &&& strings_view(a.output_args@) == strings_view(b.output_args@)
    &&& strings_view(a.input_args@) == strings_view(b.input_args@)
}

/// The encode settings that a sample's result depends on are the same: all but
/// the input path (the sample stands for it) and whether only video is kept.
pub open spec fn same_encode_settings(a: FfmpegEncodeArgs, b: FfmpegEncodeArgs) -> bool {
    same_but_crf(a, b) && a.crf == b.crf
}

/// The cache record does not depend on the encoder's input path, and the
/// svt-av1 version counts only for svt-av1 encodes.
pub proof fn lemma_key_ignores_input_path(
    sample_name: Seq<char>,
    input_duration: Duration,
    input_ext: Option<Seq<char>>,
    input_size: u64,
    full_pass: bool,
    a: FfmpegEncodeArgs,
    b: FfmpegEncodeArgs,
    svt_a: Option<Seq<char>>,
    svt_b: Option<Seq<char>>,
    scoring: Seq<char>,
)
    requires
        same_encode_settings(a, b),
        a.vcodec@ == "libsvtav1"@ ==> svt_a == svt_b,
    ensures
        spec_key_bytes(sample_name, input_duration, input_ext, input_size, full_pass, a, svt_a, scoring)
            == spec_key_bytes(sample_name, input_duration, input_ext, input_size, full_pass, b, svt_b, scoring),
{
}

/// The cache tells encodes at different crfs apart: their records differ.
pub proof fn lemma_key_tells_crfs_apart(
    sample_name: Seq<char>,
    input_duration: Duration,
    input_ext: Option<Seq<char>>,
    input_size: u64,
    full_pass: bool,
    a: FfmpegEncodeArgs,
    b: FfmpegEncodeArgs,
    svt_version: Option<Seq<char>>,
    scoring: Seq<char>,
)
    requires
        same_but_crf(a, b),
        a.crf != b.crf,
    ensures
        spec_key_bytes(sample_name, input_duration, input_ext, input_size, full_pass, a, svt_version, scoring)
            != spec_key_bytes(sample_name, input_duration, input_ext, input_size, full_pass, b, svt_version, scoring),
{
    lemma_key_parts(sample_name, input_duration, input_ext, input_size, full_pass, a, svt_version, scoring);
    lemma_key_parts(sample_name, input_duration, input_ext, input_size, full_pass, b, svt_version, scoring);
    let pre = key_head(sample_name, input_duration, input_ext, input_size, full_pass) + opt_text_field(
        svt_version_for(a.vcodec@, svt_version),
    ) + key_codec(a);
    assert(pre == key_head(sample_name, input_duration, input_ext, input_size, full_pass) + opt_text_field(
        svt_version_for(b.vcodec@, svt_version),
    ) + key_codec(b));
    assert(key_tail(a, scoring) == key_tail(b, scoring));
    lemma_num_field(a.crf, b.crf);
    if spec_key_bytes(sample_name, input_duration, input_ext, input_size, full_pass, a, svt_version, scoring)
        == spec_key_bytes(sample_name, input_duration, input_ext, input_size, full_pass, b, svt_version, scoring) {
        lemma_cancel(pre, num_field(a.crf as nat), num_field(b.crf as nat), key_tail(a, scoring));
    }
}

/// For svt-av1 encodes, the cache tells encoder versions apart: records of
/// different versions differ, so new encoder releases avoid old results.
pub proof fn lemma_key_tells_svt_versions_apart(
    sample_name: Seq<char>,
    input_duration: Duration,
    input_ext: Option<Seq<char>>,
    input_size: u64,
    full_pass: bool,
    enc: FfmpegEncodeArgs,
    v1: Seq<char>,
    v2: Seq<char>,
    scoring: Seq<char>,
)
    requires
        enc.vcodec@ == "libsvtav1"@,
        v1 != v2,
    ensures
        spec_key_bytes(sample_name, input_duration, input_ext, input_size, full_pass, enc, Some(v1), scoring)
            != spec_key_bytes(sample_name, input_duration, input_ext, input_size, full_pass, enc, Some(v2), scoring),
{
    lemma_key_parts(sample_name, input_duration, input_ext, input_size, full_pass, enc, Some(v1), scoring);
    lemma_key_parts(sample_name, input_duration, input_ext, input_size, full_pass, enc, Some(v2), scoring);
    let pre = key_head(sample_name, input_duration, input_ext, input_size, full_pass);
    let post = key_codec(enc) + num_field(enc.crf as nat) + key_tail(enc, scoring);
    if spec_key_bytes(sample_name, input_duration, input_ext, input_size, full_pass, enc, Some(v1), scoring)
        == spec_key_bytes(sample_name, input_duration, input_ext, input_size, full_pass, enc, Some(v2), scoring) {
        lemma_cancel(pre, opt_text_field(Some(v1)), opt_text_field(Some(v2)), post);
        assert(text_field(v1) =~= opt_text_field(Some(v1)).drop_first());
        assert(text_field(v2) =~= opt_text_field(Some(v2)).drop_first());
        lemma_text_field(v1, v2);
    }
}

} // verus!
