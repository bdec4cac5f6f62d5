//! ffmpeg output: bounded storage of a process's stderr chunks, and parsing of
//! ffmpeg progress and stream size lines.
use vstd::prelude::*;
use vstd::utf8::{valid_utf8, decode_utf8, encode_utf8, encode_utf8_decode_utf8};
use crate::text::{
    chars_of, find_chars, skip_ws, skip_ws_from, spec_find, spec_is_whitespace, is_whitespace,
    spec_starts_with, spec_contains, starts_with_str, contains_str, ends_with_chars, spec_ends_with,
    sub_chars, string_of, spec_trim, trim_chars, push_str, lemma_find,
};
use crate::decimal::{parse_u64, spec_parse_u64};
use crate::duration::Duration;
use crate::literal::{is_float_literal, spec_is_float_literal};

pub mod managed;

verus! {

broadcast use vstd::slice::group_slice_axioms;

/// Most bytes a [`Chunks`] keeps.
pub const MAX_LEN: usize = 32_000;

/// `\n`
pub const LF: u8 = 10;

/// `\r`
pub const CR: u8 = 13;

/// The first index at or after `i` where `s` holds `b`.
pub open spec fn first_pos(s: Seq<u8>, b: u8, i: int) -> Option<int>
    decreases s.len() - i,
{
    if i < 0 || i >= s.len() {
        None
    } else if s[i] == b {
        Some(i)
    } else {
        first_pos(s, b, i + 1)
    }
}

/// The last index before `end` where `s` holds `b`.
pub open spec fn last_pos_before(s: Seq<u8>, b: u8, end: int) -> Option<int>
    decreases end,
{
    if end <= 0 || end > s.len() {
        None
    } else if s[end - 1] == b {
        Some(end - 1)
    } else {
        last_pos_before(s, b, end - 1)
    }
}

/// A line separator: `\n` or `\r`.
pub open spec fn is_line_sep(b: u8) -> bool {
    b == LF || b == CR
}

/// The last index before `end` where `s` holds a line separator.
pub open spec fn last_sep_before(s: Seq<u8>, end: int) -> Option<int>
    decreases end,
{
    if end <= 0 || end > s.len() {
        None
    } else if is_line_sep(s[end - 1]) {
        Some(end - 1)
    } else {
        last_sep_before(s, end - 1)
    }
}

/// The index after the last `\n` of `s`, or 0.
pub open spec fn after_last_lf(s: Seq<u8>) -> int {
    match last_pos_before(s, LF, s.len() as int) {
        Some(k) => k + 1,
        None => 0,
    }
}

/// `first_pos` finds the first `b` from `i`, or there is none.
pub proof fn lemma_first_pos(s: Seq<u8>, b: u8, i: int)
    requires
        0 <= i,
    ensures
        first_pos(s, b, i) matches Some(k) ==> i <= k < s.len() && s[k] == b,
        first_pos(s, b, i) is None ==> forall|k: int| i <= k < s.len() ==> s[k] != b,
    decreases s.len() - i,
{
    if i < s.len() && s[i] != b {
        lemma_first_pos(s, b, i + 1);
    }
}

proof fn lemma_last_pos(s: Seq<u8>, b: u8, end: int)
    requires
        end <= s.len(),
    ensures
        last_pos_before(s, b, end) matches Some(k) ==> 0 <= k < end && s[k] == b && forall|j: int|
            k < j < end ==> s[j] != b,
        last_pos_before(s, b, end) is None ==> forall|j: int| 0 <= j < end ==> s[j] != b,
    decreases end,
{
    if end > 0 && s[end - 1] != b {
        lemma_last_pos(s, b, end - 1);
    }
}

/// `last_sep_before` finds the last line separator before `end`, or there is none.
pub proof fn lemma_last_sep(s: Seq<u8>, end: int)
    requires
        end <= s.len(),
    ensures
        last_sep_before(s, end) matches Some(k) ==> 0 <= k < end && is_line_sep(s[k]),
        last_sep_before(s, end) is None ==> forall|j: int| 0 <= j < end ==> !is_line_sep(s[j]),
    decreases end,
{
    if end > 0 && !is_line_sep(s[end - 1]) {
        lemma_last_sep(s, end - 1);
    }
}

/// `last_sep_before` only reads `s` before `end`.
proof fn lemma_last_sep_prefix(s: Seq<u8>, end: int, e2: int)
    requires
        0 <= end <= e2 <= s.len(),
    ensures
        last_sep_before(s.subrange(0, e2), end) == last_sep_before(s, end),
    decreases end,
{
    if end > 0 {
        assert(s.subrange(0, e2)[end - 1] == s[end - 1]);
        lemma_last_sep_prefix(s, end - 1, e2);
    }
}

/// The end (inclusive) of the oldest line: its `\n`, or the last byte where there is
/// none, extended over a `\r` right after it.
pub open spec fn oldest_line_end(s: Seq<u8>) -> int {
    let eol = match first_pos(s, LF, 0) {
        Some(k) => k,
        None => s.len() - 1,
    };
    if eol + 1 < s.len() && s[eol + 1] == CR {
        eol + 1
    } else {
        eol
    }
}

/// `s` without its oldest line.
pub open spec fn rm_oldest(s: Seq<u8>) -> Seq<u8> {
    s.subrange(oldest_line_end(s) + 1, s.len() as int)
}

/// Dropping the oldest line of stored output makes it shorter.
pub proof fn lemma_rm_oldest(s: Seq<u8>)
    requires
        s.len() > 0,
    ensures
        0 <= oldest_line_end(s) < s.len(),
        rm_oldest(s).len() < s.len(),
{
    lemma_first_pos(s, LF, 0);
}

/// `s` with oldest lines removed until it holds at most `MAX_LEN` bytes.
pub open spec fn shrink(s: Seq<u8>) -> Seq<u8>
    decreases s.len(),
{
    if s.len() <= MAX_LEN {
        s
    } else {
        proof {
            lemma_rm_oldest(s);
        }
        shrink(rm_oldest(s))
    }
}

proof fn lemma_shrink(s: Seq<u8>)
    ensures
        shrink(s).len() <= MAX_LEN,
        exists|k: int| 0 <= k <= s.len() && shrink(s) == s.subrange(k, s.len() as int),
        s.len() <= MAX_LEN ==> shrink(s) == s,
    decreases s.len(),
{
    if s.len() <= MAX_LEN {
        assert(s.subrange(0, s.len() as int) =~= s);
    } else {
        lemma_rm_oldest(s);
        let r = rm_oldest(s);
        lemma_shrink(r);
        let k = choose|k: int| 0 <= k <= r.len() && shrink(r) == r.subrange(k, r.len() as int);
        let off = oldest_line_end(s) + 1;
        assert(shrink(s) =~= s.subrange(off + k, s.len() as int));
    }
}

/// The lines of `s`, split at every `\n` and `\r`, newest first.
pub open spec fn rev_segments(s: Seq<u8>) -> Seq<Seq<u8>>
    decreases s.len(),
{
    match last_sep_before(s, s.len() as int) {
        None => seq![s],
        Some(k) => {
            proof {
                lemma_last_sep(s, s.len() as int);
            }
            seq![s.subrange(k + 1, s.len() as int)] + rev_segments(s.subrange(0, k))
        },
    }
}

/// `line` is not UTF-8, or `f` may answer `None` for it.
pub open spec fn rejects<'a, T, F: Fn(&'a str) -> Option<T>>(f: F, line: Seq<u8>) -> bool {
    ||| !valid_utf8(line)
    ||| exists|s: &'a str| encode_utf8(s@) == line && #[trigger] f.ensures((s,), None)
}

/// `line` is UTF-8 and `f` may answer `Some(v)` for it.
pub open spec fn accepts<'a, T, F: Fn(&'a str) -> Option<T>>(f: F, line: Seq<u8>, v: T) -> bool {
    valid_utf8(line) && exists|s: &'a str| encode_utf8(s@) == line && #[trigger] f.ensures((s,), Some(v))
}

/// Converts UTF-8 bytes to text (`std::str::from_utf8`): `Some` exactly where the
/// bytes are valid UTF-8, holding those bytes.
#[verifier::external_body]
pub(crate) fn str_from_utf8<'a>(bytes: &'a [u8]) -> (r: Option<&'a str>)
    ensures
        r is Some <==> valid_utf8(bytes@),
        r matches Some(s) ==> encode_utf8(s@) == bytes@,
{
    std::str::from_utf8(bytes).ok()
}

/// The text of `bytes` with each invalid UTF-8 sequence replaced
/// (`String::from_utf8_lossy`).
pub uninterp spec fn lossy_utf8(bytes: Seq<u8>) -> Seq<char>;

/// The text of stderr bytes: the decoded text where they are valid UTF-8,
/// otherwise the text with each invalid sequence replaced.
pub open spec fn stderr_text(bytes: Seq<u8>) -> Seq<char> {
    if valid_utf8(bytes) {
        decode_utf8(bytes)
    } else {
        lossy_utf8(bytes)
    }
}

/// Decodes bytes as `String::from_utf8_lossy` does. Its documentation states that
/// valid UTF-8 decodes unchanged; the replacement of invalid sequences is named,
/// not restated.
#[verifier::external_body]
pub(crate) fn utf8_lossy(bytes: &[u8]) -> (r: String)
    ensures
        r@ == lossy_utf8(bytes@),
        valid_utf8(bytes@) ==> r@ == decode_utf8(bytes@),
{
    String::from_utf8_lossy(bytes).into_owned()
}

/// Output chunk storage.
///
/// Stores up to ~32k chunk data on the heap.
pub struct Chunks {
    out: Vec<u8>,
    /// Truncate to this index before the next Self::push
    trunc_next_push: Option<usize>,
}

impl Chunks {
    /// The stored bytes.
    pub closed spec fn spec_out(self) -> Seq<u8> {
        self.out@
    }

    /// Where the next push first truncates the stored bytes.
    pub closed spec fn spec_trunc(self) -> Option<usize> {
        self.trunc_next_push
    }

    /// At most `MAX_LEN` bytes are stored.
    pub open spec fn wf(self) -> bool {
        self.spec_out().len() <= MAX_LEN
    }

    /// What a push of `chunk` starts from: the stored bytes cut at the pending
    /// truncation point.
    pub open spec fn push_base(self) -> Seq<u8> {
        match self.spec_trunc() {
            Some(i) => if i <= self.spec_out().len() {
                self.spec_out().subrange(0, i as int)
            } else {
                self.spec_out()
            },
            None => self.spec_out(),
        }
    }

    /// The stored bytes after pushing `chunk`.
    pub open spec fn pushed_out(self, chunk: Seq<u8>) -> Seq<u8> {
        shrink(self.push_base() + chunk)
    }

    /// The pending truncation after pushing `chunk`.
    pub open spec fn pushed_trunc(self, chunk: Seq<u8>) -> Option<usize> {
        if chunk.len() > 0 && chunk.last() == CR {
            Some(after_last_lf(self.pushed_out(chunk)) as usize)
        } else {
            None
        }
    }

    /// Empty storage.
    pub fn new() -> (r: Chunks)
        ensures
            r.wf(),
            r.spec_out() == Seq::<u8>::empty(),
            r.spec_trunc() is None,
    {
        Chunks { out: Vec::new(), trunc_next_push: None }
    }

    /// The stored bytes.
    pub fn out(&self) -> (r: &[u8])
        ensures
            r@ == self.spec_out(),
    {
        self.out.as_slice()
    }

    /// Append a chunk.
    ///
    /// If the chunk **ends** in a '\r' carriage returns this will trigger
    /// appropriate overwriting on the next call to `push`.
    ///
    /// Removes oldest lines if storage exceeds maximum.
    pub fn push(&mut self, chunk: &[u8])
        ensures
            final(self).spec_out() == shrink(old(self).push_base() + chunk@),
            final(self).spec_trunc() == if chunk@.len() > 0 && chunk@.last() == CR {
                Some(after_last_lf(final(self).spec_out()) as usize)
            } else {
                None
            },
            final(self).wf(),
    {
        let pending = self.trunc_next_push;
        self.trunc_next_push = None;
        if let Some(idx) = pending {
            self.out.truncate(idx);
        }
        let mut i: usize = 0;
        let ghost base = self.out@;
        while i < chunk.len()
            invariant
                i <= chunk@.len(),
                self.out@ == base + chunk@.subrange(0, i as int),
                self.trunc_next_push is None,
            decreases chunk@.len() - i,
        {
            self.out.push(chunk[i]);
            i = i + 1;
        }
        assert(chunk@.subrange(0, chunk@.len() as int) =~= chunk@);
        // if too long remove lines until small
        while self.out.len() > MAX_LEN
            invariant
                shrink(self.out@) == shrink(base + chunk@),
                self.trunc_next_push is None,
            decreases self.out@.len(),
        {
            proof {
                lemma_rm_oldest(self.out@);
            }
            self.rm_oldest_line();
        }
        proof {
            lemma_shrink(base + chunk@);
        }
        // Setup `trunc_next_push` driven by '\r'
        // Typically progress updates, e.g. ffmpeg:
        // ```text
        // frame=  495 fps= 25 q=40.0 size=     768KiB time=00:00:16.47 bitrate= 381.8kbits/s speed=0.844x    \r
        // ```
        if chunk.len() > 0 && chunk[chunk.len() - 1] == CR {
            self.trunc_next_push = Some(self.after_last_line_feed());
        }
    }

    /// Returns index after the latest '\n' or 0 if there are none.
    fn after_last_line_feed(&self) -> (r: usize)
        ensures
            r as int == after_last_lf(self.out@),
            r <= self.out@.len(),
    {
        let mut k = self.out.len();
        while k > 0
            invariant
                k <= self.out@.len(),
                last_pos_before(self.out@, LF, self.out@.len() as int) == last_pos_before(
                    self.out@,
                    LF,
                    k as int,
                ),
            decreases k,
        {
            if self.out[k - 1] == LF {
                return k;
            }
            k = k - 1;
        }
        0
    }

    /// Removes the oldest line: through the first `\n` (and a `\r` right after it),
    /// or all bytes where there is no `\n`.
    fn rm_oldest_line(&mut self)
        requires
            old(self).out@.len() > 0,
        ensures
            final(self).out@ == rm_oldest(old(self).out@),
            final(self).trunc_next_push == old(self).trunc_next_push,
    {
        let n = self.out.len();
        let mut p: usize = 0;
        while p < n
            invariant
                n == self.out@.len(),
                p <= n,
                first_pos(self.out@, LF, 0) == first_pos(self.out@, LF, p as int),
            ensures
                p <= n,
                first_pos(self.out@, LF, 0) == first_pos(self.out@, LF, p as int),
                p < n ==> self.out@[p as int] == LF,
            decreases n - p,
        {
            if self.out[p] == LF {
                break;
            }
            p = p + 1;
        }
        let mut next_eol = if p < n {
            p
        } else {
            n - 1
        };
        proof {
            if p < n {
                assert(first_pos(self.out@, LF, p as int) == Some(p as int));
            } else {
                assert(first_pos(self.out@, LF, p as int) is None);
            }
        }
        if next_eol + 1 < n && self.out[next_eol + 1] == CR {
            next_eol = next_eol + 1;
        }
        let mut rest: Vec<u8> = Vec::new();
        let mut i = next_eol + 1;
        while i < n
            invariant
                n == self.out@.len(),
                next_eol + 1 <= i <= n,
                rest@ == self.out@.subrange(next_eol + 1, i as int),
            decreases n - i,
        {
            rest.push(self.out[i]);
            i = i + 1;
        }
        self.out = rest;
    }

    /// The first `f(line)` that is `Some`, trying the UTF-8 lines newest first.
    ///
    /// Lines are split at every `\n` and at every `\r`; lines that are not UTF-8
    /// are skipped.
    pub fn rfind_line_map<'a, T, F: Fn(&'a str) -> Option<T>>(&'a self, f: F) -> (r: Option<T>)
        requires
            forall|s: &'a str| #[trigger] f.requires((s,)),
        ensures
            ({
                let segs = rev_segments(self.spec_out());
                match r {
                    Some(v) => exists|k: int|
                        0 <= k < segs.len() && accepts(f, #[trigger] segs[k], v) && forall|j: int|
                            0 <= j < k ==> rejects(f, #[trigger] segs[j]),
                    None => forall|j: int| 0 <= j < segs.len() ==> rejects(f, #[trigger] segs[j]),
                }
            }),
    {
        let ghost all = self.out@;
        let ghost segs = rev_segments(all);
        let mut end = self.out.len();
        let ghost mut done: Seq<Seq<u8>> = Seq::empty();
        assert(all.subrange(0, end as int) =~= all);
        assert(done + rev_segments(all) =~= rev_segments(all));
        loop
            invariant
                end <= all.len(),
                all == self.out@,
                segs == rev_segments(all),
                segs == done + rev_segments(all.subrange(0, end as int)),
                forall|j: int| 0 <= j < done.len() ==> rejects(f, #[trigger] done[j]),
                forall|s: &'a str| #[trigger] f.requires((s,)),
            decreases end,
        {
            // the last separator before `end`
            let mut k = end;
            while k > 0
                invariant
                    k <= end <= all.len(),
                    all == self.out@,
                    last_sep_before(all, end as int) == last_sep_before(all, k as int),
                ensures
                    k <= end,
                    last_sep_before(all, end as int) == last_sep_before(all, k as int),
                    k > 0 ==> is_line_sep(all[k - 1]),
                decreases k,
            {
                let b = self.out[k - 1];
                if b == LF || b == CR {
                    break;
                }
                k = k - 1;
            }
            let ghost prefix = all.subrange(0, end as int);
            proof {
                lemma_last_sep_prefix(all, end as int, end as int);
                assert(all.subrange(0, end as int).len() == end);
            }
            let start = if k > 0 {
                k
            } else {
                0
            };
            let line_bytes = vstd::slice::slice_subrange(self.out.as_slice(), start, end);
            proof {
                if k > 0 {
                    assert(is_line_sep(all[k - 1]));
                    assert(last_sep_before(all, k as int) == Some(k - 1));
                    assert(prefix.subrange(k as int, end as int) =~= line_bytes@);
                    assert(prefix.subrange(0, k - 1) =~= all.subrange(0, k - 1));
                    assert(rev_segments(prefix) == seq![line_bytes@] + rev_segments(
                        all.subrange(0, k - 1),
                    ));
                } else {
                    assert(last_sep_before(all, 0) is None);
                    assert(prefix =~= line_bytes@);
                    assert(rev_segments(prefix) == seq![line_bytes@]);
                }
            }
            let utf8 = str_from_utf8(line_bytes);
            match utf8 {
                Some(line) => {
                    let found = f(line);
                    if found.is_some() {
                        proof {
                            let kk = done.len() as int;
                            assert(segs[kk] == line_bytes@);
                            assert(f.ensures((line,), found));
                            assert(accepts(f, segs[kk], found->0));
                            assert forall|j: int| 0 <= j < kk implies rejects(f, #[trigger] segs[j]) by {
                                assert(segs[j] == done[j]);
                            }
                            assert(segs == rev_segments(self.spec_out()));
                            assert(exists|k: int|
                                0 <= k < segs.len() && accepts(f, #[trigger] segs[k], found->0) && forall|j: int|
                                    0 <= j < k ==> rejects(f, #[trigger] segs[j]));
                        }
                        return found;
                    }
                    proof {
                        assert(f.ensures((line,), None));
                    }
                },
                None => {},
            }
            proof {
                assert(rejects(f, line_bytes@));
                done = done.push(line_bytes@);
            }
            if k == 0 {
                proof {
                    assert(segs =~= done);
                }
                return None;
            }
            proof {
                assert(segs =~= done + rev_segments(all.subrange(0, k - 1)));
            }
            end = k - 1;
        }
    }
}


impl Default for Chunks {
    fn default() -> (r: Chunks)
        ensures
            r.wf(),
            r.spec_out() == Seq::<u8>::empty(),
            r.spec_trunc() is None,
    {
        Chunks::new()
    }
}

/// A predicate `p` may answer `false` for `line`, or `line` is not UTF-8.
pub open spec fn pred_rejects<'a, P: Fn(&'a str) -> bool>(p: P, line: Seq<u8>) -> bool {
    ||| !valid_utf8(line)
    ||| exists|s: &'a str| encode_utf8(s@) == line && #[trigger] p.ensures((s,), false)
}

/// A line that is non-empty UTF-8.
pub open spec fn is_text_line(line: Seq<u8>) -> bool {
    valid_utf8(line) && line.len() > 0
}

/// The first index at or after `i` of a non-empty UTF-8 line.
pub open spec fn first_text_line(segs: Seq<Seq<u8>>, i: int) -> Option<int>
    decreases segs.len() - i,
{
    if i < 0 || i >= segs.len() {
        None
    } else if is_text_line(segs[i]) {
        Some(i)
    } else {
        first_text_line(segs, i + 1)
    }
}

/// The newest non-empty UTF-8 line of `out`, decoded, or empty text.
pub open spec fn spec_last_line(out: Seq<u8>) -> Seq<char> {
    match first_text_line(rev_segments(out), 0) {
        Some(k) => decode_utf8(rev_segments(out)[k]),
        None => Seq::empty(),
    }
}

proof fn lemma_first_text_line(segs: Seq<Seq<u8>>, i: int, k: int)
    requires
        0 <= i <= k <= segs.len(),
        forall|j: int| i <= j < k ==> !is_text_line(#[trigger] segs[j]),
    ensures
        k < segs.len() && is_text_line(segs[k]) ==> first_text_line(segs, i) == Some(k),
        k == segs.len() ==> first_text_line(segs, i) is None,
    decreases k - i,
{
    if i < k {
        lemma_first_text_line(segs, i + 1, k);
    }
}

proof fn lemma_encode_empty(cs: Seq<char>)
    ensures
        (encode_utf8(cs).len() == 0) == (cs.len() == 0),
{
    encode_utf8_decode_utf8(cs);
    if cs.len() == 0 {
        assert(encode_utf8(cs) =~= Seq::<u8>::empty());
    } else if encode_utf8(cs).len() == 0 {
        assert(encode_utf8(cs) =~= Seq::<u8>::empty());
        assert(decode_utf8(Seq::<u8>::empty()) =~= Seq::<char>::empty());
    }
}

impl Chunks {
    /// The newest UTF-8 line for which `predicate` holds.
    pub fn rfind_line<'a, P: Fn(&'a str) -> bool>(&'a self, predicate: P) -> (r: Option<&'a str>)
        requires
            forall|s: &'a str| #[trigger] predicate.requires((s,)),
        ensures
            ({
                let segs = rev_segments(self.spec_out());
                match r {
                    Some(line) => exists|k: int|
                        0 <= k < segs.len() && valid_utf8(#[trigger] segs[k]) && encode_utf8(line@)
                            == segs[k] && predicate.ensures((line,), true) && forall|j: int|
                            0 <= j < k ==> pred_rejects(predicate, #[trigger] segs[j]),
                    None => forall|j: int|
                        0 <= j < segs.len() ==> pred_rejects(predicate, #[trigger] segs[j]),
                }
            }),
    {
        let ghost all = self.out@;
        let ghost segs = rev_segments(all);
        let mut end = self.out.len();
        let ghost mut done: Seq<Seq<u8>> = Seq::empty();
        assert(all.subrange(0, end as int) =~= all);
        assert(done + rev_segments(all) =~= rev_segments(all));
        loop
            invariant
                end <= all.len(),
                all == self.out@,
                segs == rev_segments(all),
                segs == done + rev_segments(all.subrange(0, end as int)),
                forall|j: int| 0 <= j < done.len() ==> pred_rejects(predicate, #[trigger] done[j]),
                forall|s: &'a str| #[trigger] predicate.requires((s,)),
            decreases end,
        {
            let (start, k) = self.line_before(end);
            let line_bytes = vstd::slice::slice_subrange(self.out.as_slice(), start, end);
            proof {
                let prefix = all.subrange(0, end as int);
                if k > 0 {
                    assert(prefix.subrange(k as int, end as int) =~= line_bytes@);
                    assert(prefix.subrange(0, k - 1) =~= all.subrange(0, k - 1));
                } else {
                    assert(prefix =~= line_bytes@);
                }
            }
            let utf8 = str_from_utf8(line_bytes);
            match utf8 {
                Some(line) => {
                    if predicate(line) {
                        proof {
                            let kk = done.len() as int;
                            assert(segs[kk] == line_bytes@);
                            assert forall|j: int| 0 <= j < kk implies pred_rejects(predicate, #[trigger] segs[j]) by {
                                assert(segs[j] == done[j]);
                            }
                            assert(segs == rev_segments(self.spec_out()));
                            assert(exists|k: int|
                                0 <= k < segs.len() && valid_utf8(#[trigger] segs[k]) && encode_utf8(line@)
                                    == segs[k] && predicate.ensures((line,), true) && forall|j: int|
                                    0 <= j < k ==> pred_rejects(predicate, #[trigger] segs[j]));
                        }
                        return Some(line);
                    }
                },
                None => {},
            }
            proof {
                assert(pred_rejects(predicate, line_bytes@));
                done = done.push(line_bytes@);
            }
            if k == 0 {
                proof {
                    assert(segs =~= done);
                }
                return None;
            }
            proof {
                assert(segs =~= done + rev_segments(all.subrange(0, k - 1)));
            }
            end = k - 1;
        }
    }

    /// The line ending at `end`: where it starts, and `k`, one past its separator
    /// (0 where it is the oldest line).
    fn line_before(&self, end: usize) -> (r: (usize, usize))
        requires
            end <= self.out@.len(),
        ensures
            r.0 == r.1,
            r.1 <= end,
            r.1 > 0 ==> last_sep_before(self.out@, end as int) == Some(r.1 - 1),
            r.1 == 0 ==> last_sep_before(self.out@, end as int) is None,
            rev_segments(self.out@.subrange(0, end as int)) == if r.1 > 0 {
                seq![self.out@.subrange(r.1 as int, end as int)] + rev_segments(
                    self.out@.subrange(0, r.1 - 1),
                )
            } else {
                seq![self.out@.subrange(0, end as int)]
            },
    {
        let ghost all = self.out@;
        let mut k = end;
        while k > 0
            invariant
                k <= end <= all.len(),
                all == self.out@,
                last_sep_before(all, end as int) == last_sep_before(all, k as int),
            ensures
                k <= end,
                last_sep_before(all, end as int) == last_sep_before(all, k as int),
                k > 0 ==> is_line_sep(all[k - 1]),
            decreases k,
        {
            let b = self.out[k - 1];
            if b == LF || b == CR {
                break;
            }
            k = k - 1;
        }
        proof {
            let prefix = all.subrange(0, end as int);
            lemma_last_sep_prefix(all, end as int, end as int);
            if k > 0 {
                assert(last_sep_before(all, k as int) == Some(k - 1));
                assert(prefix.subrange(k as int, end as int) =~= all.subrange(k as int, end as int));
                assert(prefix.subrange(0, k - 1) =~= all.subrange(0, k - 1));
            } else {
                assert(last_sep_before(all, 0) is None);
            }
        }
        (k, k)
    }

    /// Returns last non-empty line, if any.
    pub fn last_line(&self) -> (r: &str)
        ensures
            r@ == spec_last_line(self.spec_out()),
    {
        let p = |l: &str| -> (b: bool)
            ensures
                b == (l@.len() > 0),
            { !l.is_empty() };
        let found = self.rfind_line(p);
        proof {
            let segs = rev_segments(self.spec_out());
            match found {
                Some(line) => {
                    let k = choose|k: int|
                        0 <= k < segs.len() && valid_utf8(#[trigger] segs[k]) && encode_utf8(line@)
                            == segs[k] && p.ensures((line,), true) && forall|j: int|
                            0 <= j < k ==> pred_rejects(p, #[trigger] segs[j]);
                    assert forall|j: int| 0 <= j < k implies !is_text_line(#[trigger] segs[j]) by {
                        if valid_utf8(segs[j]) {
                            let s = choose|s: &str| encode_utf8(s@) == segs[j] && #[trigger] p.ensures((s,), false);
                            lemma_encode_empty(s@);
                        }
                    }
                    lemma_encode_empty(line@);
                    assert(line@.len() > 0);
                    assert(is_text_line(segs[k]));
                    lemma_first_text_line(segs, 0, k);
                    assert(first_text_line(segs, 0) == Some(k));
                    encode_utf8_decode_utf8(line@);
                    assert(decode_utf8(segs[k]) == line@);
                },
                None => {
                    assert forall|j: int| 0 <= j < segs.len() implies !is_text_line(#[trigger] segs[j]) by {
                        if valid_utf8(segs[j]) {
                            let s = choose|s: &str| encode_utf8(s@) == segs[j] && #[trigger] p.ensures((s,), false);
                            lemma_encode_empty(s@);
                        }
                    }
                    lemma_first_text_line(segs, 0, segs.len() as int);
                },
            }
        }
        match found {
            Some(line) => line,
            None => {
                proof {
                    reveal_strlit("");
                }
                ""
            },
        }
    }
}

/// The first index at or after `i` of a white space character of `s`, or `s.len()`.
pub open spec fn next_ws_from(s: Seq<char>, i: int) -> int
    decreases s.len() - i,
{
    if i < 0 || i >= s.len() {
        s.len() as int
    } else if spec_is_whitespace(s[i]) {
        i
    } else {
        next_ws_from(s, i + 1)
    }
}

proof fn lemma_skip_ws_from(s: Seq<char>, i: int)
    requires
        0 <= i,
    ensures
        i <= skip_ws_from(s, i) || i > s.len(),
        skip_ws_from(s, i) <= s.len(),
    decreases s.len() - i,
{
    if i < s.len() && spec_is_whitespace(s[i]) {
        lemma_skip_ws_from(s, i + 1);
    }
}

proof fn lemma_next_ws_from(s: Seq<char>, i: int)
    requires
        0 <= i <= s.len(),
    ensures
        i <= next_ws_from(s, i) <= s.len(),
    decreases s.len() - i,
{
    if i < s.len() && !spec_is_whitespace(s[i]) {
        lemma_next_ws_from(s, i + 1);
    }
}

/// The value after `label` in `line`: the first run of non white space characters
/// after the first occurrence of `label`.
pub open spec fn spec_label_value(label: Seq<char>, line: Seq<char>) -> Option<Seq<char>> {
    match spec_find(line, label) {
        None => None,
        Some(i) => {
            let start = skip_ws_from(line, i + label.len());
            if start >= line.len() {
                None
            } else {
                Some(line.subrange(start, next_ws_from(line, start)))
            }
        },
    }
}

/// Parse a ffmpeg `label=  value ` type substring.
pub fn parse_label_substr<'a>(label: &str, line: &'a str) -> (r: Option<&'a str>)
    ensures
        match spec_label_value(label@, line@) {
            Some(v) => r matches Some(s) && s@ == v,
            None => r is None,
        },
{
    let lc = chars_of(line);
    let lb = chars_of(label);
    let i = find_chars(lc.as_slice(), lb.as_slice())?;
    proof {
        lemma_find(line@, label@);
    }
    let after = i + lb.len();
    let start = skip_ws(lc.as_slice(), after);
    if start >= lc.len() {
        return None;
    }
    let mut end = start;
    while end < lc.len()
        invariant
            start <= end <= lc@.len(),
            lc@ == line@,
            next_ws_from(line@, start as int) == next_ws_from(line@, end as int),
        ensures
            start <= end <= lc@.len(),
            next_ws_from(line@, start as int) == next_ws_from(line@, end as int),
            end < lc@.len() ==> spec_is_whitespace(line@[end as int]),
        decreases lc@.len() - end,
    {
        if is_whitespace(lc[end]) {
            break;
        }
        end = end + 1;
    }
    proof {
        if end < lc@.len() {
            assert(spec_is_whitespace(line@[end as int]) ==> next_ws_from(line@, end as int) == end);
        }
    }
    let v = line.substring_char(start, end);
    proof {
        lemma_next_ws_from(line@, start as int);
    }
    Some(v)
}

/// `v` without a `kB` suffix, read as kilobytes, in bytes.
pub open spec fn spec_kb_size(v: Seq<char>) -> Option<u64> {
    if spec_ends_with(v, "kB"@) {
        match spec_parse_u64(v.subrange(0, v.len() - 2)) {
            Ok(k) => if k * 1024 <= u64::MAX {
                Some((k * 1024) as u64)
            } else {
                None
            },
            Err(_) => None,
        }
    } else {
        None
    }
}

/// The size after `label` in `line`, such as `video:2897022kB`, in bytes.
pub open spec fn spec_label_size(label: Seq<char>, line: Seq<char>) -> Option<u64> {
    match spec_label_value(label, line) {
        Some(v) => spec_kb_size(v),
        None => None,
    }
}

/// Parse a ffmpeg `label:1234kB` size in bytes (`None` also where the bytes would
/// overflow `u64`).
pub fn parse_label_size(label: &str, line: &str) -> (r: Option<u64>)
    ensures
        r == spec_label_size(label@, line@),
{
    let size = parse_label_substr(label, line)?;
    let sc = chars_of(size);
    let kb = chars_of("kB");
    proof {
        reveal_strlit("kB");
    }
    if !ends_with_chars(sc.as_slice(), kb.as_slice()) {
        return None;
    }
    let digits = sub_chars(sc.as_slice(), 0, sc.len() - 2);
    let ds = string_of(digits.as_slice());
    let kbs = match parse_u64(ds.as_str()) {
        Ok(v) => v,
        Err(_) => return None,
    };
    if kbs > u64::MAX / 1024 {
        return None;
    }
    Some(kbs * 1024)
}

/// Hour, minute, second and nanosecond of a `hh:mm:ss.fraction` time text, as the
/// `time` crate's `Time::parse` reads it with the format description
/// `[hour]:[minute]:[second].[subsecond]`.
pub uninterp spec fn spec_time_hms(s: Seq<char>) -> Option<(u8, u8, u8, u32)>;

/// Parses an ffmpeg `time=` value with `time::Time::parse` and the format
/// description `[hour]:[minute]:[second].[subsecond]`, returning
/// `Time::as_hms_nano`. The contract names the result; beyond it, it claims only
/// the ranges that `Time` documents for its clock values: hour below 24, minute
/// and second below 60, nanosecond below one second.
#[verifier::external_body]
fn parse_hms(s: &str) -> (r: Option<(u8, u8, u8, u32)>)
    ensures
        r == spec_time_hms(s@),
        r matches Some(t) ==> t.0 < 24 && t.1 < 60 && t.2 < 60 && t.3 < 1_000_000_000,
{
    let format = time::format_description::parse("[hour]:[minute]:[second].[subsecond]").ok()?;
    time::Time::parse(s, &format).ok().map(|t| t.as_hms_nano())
}

/// A line of ffmpeg output.
#[derive(Debug, PartialEq)]
pub enum FfmpegOut {
    /// A progress line: frames done, the fps text (a float literal) and the
    /// time encoded so far.
    Progress { frame: u64, fps: String, time: Duration },
    /// Final stream sizes in bytes.
    StreamSizes { video: u64, audio: u64, subtitle: u64, other: u64 },
}

/// The parts of a `frame=` progress line: frame, fps text, whole seconds and
/// nanoseconds of `time=`.
pub open spec fn spec_progress_parts(line: Seq<char>) -> Option<(u64, Seq<char>, int, u32)> {
    match (
        spec_label_value("frame="@, line),
        spec_label_value("fps="@, line),
        spec_label_value("time="@, line),
    ) {
        (Some(f), Some(fps), Some(t)) => match (spec_parse_u64(f), spec_time_hms(t)) {
            (Ok(frame), Some((h, m, sec, ns))) => if spec_is_float_literal(fps) {
                Some((frame as u64, fps, h * 3600 + m * 60 + sec, ns))
            } else {
                None
            },
            _ => None,
        },
        _ => None,
    }
}

/// The sizes of a `video:... muxing overhead` line.
pub open spec fn spec_size_parts(line: Seq<char>) -> Option<(u64, u64, u64, u64)> {
    match (
        spec_label_size("video:"@, line),
        spec_label_size("audio:"@, line),
        spec_label_size("subtitle:"@, line),
        spec_label_size("other streams:"@, line),
    ) {
        (Some(v), Some(a), Some(s), Some(o)) => Some((v, a, s, o)),
        _ => None,
    }
}

/// `r` is what ffmpeg output `line` parses to: a progress line (`frame=...`) or a
/// final stream sizes line (`video:... muxing overhead ...`), `None` otherwise.
pub open spec fn ffmpeg_out_of(line: Seq<char>, r: Option<FfmpegOut>) -> bool {
    if spec_starts_with(line, "frame="@) {
        match spec_progress_parts(line) {
            Some((f, fps, secs, ns)) => r matches Some(FfmpegOut::Progress { frame, fps: p, time })
                && frame == f && p@ == fps && time.wf() && time.total_nanos() == secs * 1_000_000_000
                + ns,
            None => r is None,
        }
    } else if spec_starts_with(line, "video:"@) && spec_contains(line, "muxing overhead"@) {
        match spec_size_parts(line) {
            Some((v, a, s, o)) => r == Some(
                FfmpegOut::StreamSizes { video: v, audio: a, subtitle: s, other: o },
            ),
            None => r is None,
        }
    } else {
        r is None
    }
}

impl FfmpegOut {
    /// Parse a progress line (`frame=...`) or a final stream sizes line
    /// (`video:... muxing overhead ...`).
    pub fn try_parse(line: &str) -> (r: Option<FfmpegOut>)
        ensures
            ffmpeg_out_of(line@, r),
    {
        if starts_with_str(line, "frame=") {
            let f = parse_label_substr("frame=", line)?;
            let frame = match parse_u64(f) {
                Ok(v) => v,
                Err(_) => return None,
            };
            let fps = parse_label_substr("fps=", line)?;
            if !is_float_literal(fps) {
                return None;
            }
            let t = parse_label_substr("time=", line)?;
            let (h, m, s, ns) = parse_hms(t)?;
            let secs = (h as u64) * 60 * 60 + (m as u64) * 60 + s as u64;
            let time = Duration::new(secs, ns);
            let fps = crate::text::owned(fps);
            return Some(FfmpegOut::Progress { frame, fps, time });
        }
        if starts_with_str(line, "video:") && contains_str(line, "muxing overhead") {
            let video = parse_label_size("video:", line)?;
            let audio = parse_label_size("audio:", line)?;
            let subtitle = parse_label_size("subtitle:", line)?;
            let other = parse_label_size("other streams:", line)?;
            return Some(FfmpegOut::StreamSizes { video, audio, subtitle, other });
        }
        None
    }
}

/// An error message carrying the command and its stderr, as ab-av1 reports a
/// failed ffmpeg run.
pub open spec fn spec_cmd_err(err: Seq<char>, cmd_str: Seq<char>, stderr: Seq<u8>) -> Seq<char> {
    err + "\n----cmd-----\n"@ + cmd_str + "\n---stderr---\n"@ + spec_trim(stderr_text(stderr))
        + "\n------------"@
}

/// The error message for a failed command `cmd_str`, with the trimmed stderr text.
pub fn cmd_err(err: &str, cmd_str: &str, stderr: &Chunks) -> (r: String)
    ensures
        r@ == spec_cmd_err(err@, cmd_str@, stderr.spec_out()),
{
    let text = utf8_lossy(stderr.out());
    let tc = chars_of(text.as_str());
    let trimmed = trim_chars(tc.as_slice());
    let trimmed = string_of(trimmed.as_slice());
    let mut r = crate::text::owned(err);
    push_str(&mut r, "\n----cmd-----\n");
    push_str(&mut r, cmd_str);
    push_str(&mut r, "\n---stderr---\n");
    push_str(&mut r, trimmed.as_str());
    push_str(&mut r, "\n------------");
    r
}

/// A push keeps the newest bytes: the stored bytes are a suffix of what was there
/// (cut at a pending truncation) followed by the chunk, all of it where it fits in
/// `MAX_LEN`.
pub proof fn lemma_push_keeps_newest(c: Chunks, chunk: Seq<u8>)
    ensures
        c.pushed_out(chunk).len() <= MAX_LEN,
        exists|k: int|
            0 <= k <= (c.push_base() + chunk).len() && c.pushed_out(chunk) == (c.push_base()
                + chunk).subrange(k, (c.push_base() + chunk).len() as int),
        (c.push_base() + chunk).len() <= MAX_LEN ==> c.pushed_out(chunk) == c.push_base() + chunk,
{
    lemma_shrink(c.push_base() + chunk);
}

/// After a chunk that ends with `\r` (a progress line), the next push first drops
/// everything after the last `\n`, so the progress line is overwritten.
pub proof fn lemma_carriage_return_overwrites(before: Chunks, after: Chunks, chunk: Seq<u8>)
    requires
        chunk.len() > 0,
        chunk.last() == CR,
        after.spec_out() == before.pushed_out(chunk),
        after.spec_trunc() == before.pushed_trunc(chunk),
    ensures
        after.push_base() == after.spec_out().subrange(0, after_last_lf(after.spec_out())),
        after.push_base().len() == 0 || after.push_base().last() == LF,
{
    let out = after.spec_out();
    lemma_last_pos(out, LF, out.len() as int);
    lemma_shrink(before.push_base() + chunk);
    assert(out.len() <= MAX_LEN);
}

/// The first index at or after `i` of a UTF-8 line whose text satisfies `p`.
pub open spec fn first_where(segs: Seq<Seq<u8>>, p: spec_fn(Seq<char>) -> bool, i: int) -> Option<int>
    decreases segs.len() - i,
{
    if i < 0 || i >= segs.len() {
        None
    } else if valid_utf8(segs[i]) && p(decode_utf8(segs[i])) {
        Some(i)
    } else {
        first_where(segs, p, i + 1)
    }
}

/// The first `Some` that `f` gives for the text of a UTF-8 line, from index `i` on.
pub open spec fn first_mapped<T>(segs: Seq<Seq<u8>>, f: spec_fn(Seq<char>) -> Option<T>, i: int) -> Option<T>
    decreases segs.len() - i,
{
    if i < 0 || i >= segs.len() {
        None
    } else if valid_utf8(segs[i]) && f(decode_utf8(segs[i])) is Some {
        f(decode_utf8(segs[i]))
    } else {
        first_mapped(segs, f, i + 1)
    }
}

proof fn lemma_first_where_at(segs: Seq<Seq<u8>>, p: spec_fn(Seq<char>) -> bool, i: int, k: int)
    requires
        0 <= i <= k <= segs.len(),
        forall|j: int| i <= j < k ==> !(valid_utf8(#[trigger] segs[j]) && p(decode_utf8(segs[j]))),
    ensures
        k < segs.len() && valid_utf8(segs[k]) && p(decode_utf8(segs[k])) ==> first_where(segs, p, i) == Some(k),
        k == segs.len() ==> first_where(segs, p, i) is None,
    decreases k - i,
{
    if i < k {
        lemma_first_where_at(segs, p, i + 1, k);
    }
}

proof fn lemma_first_mapped_at<T>(segs: Seq<Seq<u8>>, f: spec_fn(Seq<char>) -> Option<T>, i: int, k: int)
    requires
        0 <= i <= k <= segs.len(),
        forall|j: int| i <= j < k ==> !(valid_utf8(#[trigger] segs[j]) && f(decode_utf8(segs[j])) is Some),
    ensures
        k < segs.len() && valid_utf8(segs[k]) && f(decode_utf8(segs[k])) is Some ==> first_mapped(segs, f, i) == f(decode_utf8(segs[k])),
        k == segs.len() ==> first_mapped(segs, f, i) is None,
    decreases k - i,
{
    if i < k {
        lemma_first_mapped_at(segs, f, i + 1, k);
    }
}

/// What `rfind_line` finds with a predicate that answers `p` of the text.
pub proof fn lemma_rfind_line_det<'a, P: Fn(&'a str) -> bool>(
    out: Seq<u8>,
    predicate: P,
    p: spec_fn(Seq<char>) -> bool,
    r: Option<&'a str>,
)
    requires
        forall|s: &'a str, b: bool| predicate.ensures((s,), b) ==> b == p(s@),
        ({
            let segs = rev_segments(out);
            match r {
                Some(line) => exists|k: int|
                    0 <= k < segs.len() && valid_utf8(#[trigger] segs[k]) && encode_utf8(line@)
                        == segs[k] && predicate.ensures((line,), true) && forall|j: int|
                        0 <= j < k ==> pred_rejects(predicate, #[trigger] segs[j]),
                None => forall|j: int|
                    0 <= j < segs.len() ==> pred_rejects(predicate, #[trigger] segs[j]),
            }
        }),
    ensures
        match first_where(rev_segments(out), p, 0) {
            Some(k) => r matches Some(line) && line@ == decode_utf8(rev_segments(out)[k]),
            None => r is None,
        },
{
    let segs = rev_segments(out);
    match r {
        Some(line) => {
            let k = choose|k: int|
                0 <= k < segs.len() && valid_utf8(#[trigger] segs[k]) && encode_utf8(line@)
                    == segs[k] && predicate.ensures((line,), true) && forall|j: int|
                    0 <= j < k ==> pred_rejects(predicate, #[trigger] segs[j]);
            assert forall|j: int| 0 <= j < k implies !(valid_utf8(#[trigger] segs[j]) && p(decode_utf8(segs[j]))) by {
                if valid_utf8(segs[j]) {
                    let s = choose|s: &'a str| encode_utf8(s@) == segs[j] && #[trigger] predicate.ensures((s,), false);
                    encode_utf8_decode_utf8(s@);
                }
            }
            encode_utf8_decode_utf8(line@);
            lemma_first_where_at(segs, p, 0, k);
        },
        None => {
            assert forall|j: int| 0 <= j < segs.len() implies !(valid_utf8(#[trigger] segs[j]) && p(decode_utf8(segs[j]))) by {
                if valid_utf8(segs[j]) {
                    let s = choose|s: &'a str| encode_utf8(s@) == segs[j] && #[trigger] predicate.ensures((s,), false);
                    encode_utf8_decode_utf8(s@);
                }
            }
            lemma_first_where_at(segs, p, 0, segs.len() as int);
        },
    }
}

/// The view of an optional value.
pub open spec fn opt_view<T: View>(o: Option<T>) -> Option<T::V> {
    match o {
        Some(v) => Some(v@),
        None => None,
    }
}

/// What `rfind_line_map` finds with a function whose answer has the view `sf` of the text.
pub proof fn lemma_rfind_line_map_det<'a, T: View, F: Fn(&'a str) -> Option<T>>(
    out: Seq<u8>,
    f: F,
    sf: spec_fn(Seq<char>) -> Option<T::V>,
    r: Option<T>,
)
    requires
        forall|s: &'a str, o: Option<T>| f.ensures((s,), o) ==> opt_view(o) == sf(s@),
        ({
            let segs = rev_segments(out);
            match r {
                Some(v) => exists|k: int|
                    0 <= k < segs.len() && accepts(f, #[trigger] segs[k], v) && forall|j: int|
                        0 <= j < k ==> rejects(f, #[trigger] segs[j]),
                None => forall|j: int| 0 <= j < segs.len() ==> rejects(f, #[trigger] segs[j]),
            }
        }),
    ensures
        opt_view(r) == first_mapped(rev_segments(out), sf, 0),
{
    let segs = rev_segments(out);
    match r {
        Some(v) => {
            let k = choose|k: int|
                0 <= k < segs.len() && accepts(f, #[trigger] segs[k], v) && forall|j: int|
                    0 <= j < k ==> rejects(f, #[trigger] segs[j]);
            assert forall|j: int| 0 <= j < k implies !(valid_utf8(#[trigger] segs[j]) && sf(decode_utf8(segs[j])) is Some) by {
                if valid_utf8(segs[j]) {
                    let s = choose|s: &'a str| encode_utf8(s@) == segs[j] && #[trigger] f.ensures((s,), None);
                    encode_utf8_decode_utf8(s@);
                }
            }
            let s = choose|s: &'a str| encode_utf8(s@) == segs[k] && #[trigger] f.ensures((s,), Some(v));
            encode_utf8_decode_utf8(s@);
            lemma_first_mapped_at(segs, sf, 0, k);
        },
        None => {
            assert forall|j: int| 0 <= j < segs.len() implies !(valid_utf8(#[trigger] segs[j]) && sf(decode_utf8(segs[j])) is Some) by {
                if valid_utf8(segs[j]) {
                    let s = choose|s: &'a str| encode_utf8(s@) == segs[j] && #[trigger] f.ensures((s,), None);
                    encode_utf8_decode_utf8(s@);
                }
            }
            lemma_first_mapped_at(segs, sf, 0, segs.len() as int);
        },
    }
}

/// `{name} exit code {code}`, `None` for a process ended by a signal.
pub open spec fn spec_exit_msg(name: Seq<char>, code: Option<i32>) -> Seq<char> {
    name + " exit code "@ + match code {
        Some(c) => crate::decimal::spec_signed_decimal(c as int),
        None => "None"@,
    }
}

/// `{name} exit code {code}`.
fn exit_msg(name: &str, code: Option<i32>) -> (r: String)
    ensures
        r@ == spec_exit_msg(name@, code),
{
    let mut m = crate::text::owned(name);
    push_str(&mut m, " exit code ");
    match code {
        Some(c) => {
            let t = crate::decimal::i64_to_string(c as i64);
            push_str(&mut m, t.as_str());
        },
        None => push_str(&mut m, "None"),
    }
    m
}

/// A process that exited with `code` (`None` where a signal ended it) succeeded
/// where the code is 0; otherwise the error names the exit code.
pub fn exit_ok(name: &str, code: Option<i32>) -> (r: Result<(), String>)
    ensures
        r is Ok <==> code == Some(0i32),
        r matches Err(m) ==> m@ == spec_exit_msg(name@, code),
{
    if code == Some(0i32) {
        Ok(())
    } else {
        Err(exit_msg(name, code))
    }
}

/// As `exit_ok`, with the command and its stderr added to the error.
pub fn exit_ok_stderr(name: &str, code: Option<i32>, cmd_str: &str, stderr: &Chunks) -> (r: Result<(), String>)
    ensures
        r is Ok <==> code == Some(0i32),
        r matches Err(m) ==> m@ == spec_cmd_err(spec_exit_msg(name@, code), cmd_str@, stderr.spec_out()),
{
    match exit_ok(name, code) {
        Ok(()) => Ok(()),
        Err(e) => Err(cmd_err(e.as_str(), cmd_str, stderr)),
    }
}

/// As `exit_ok`, with the trimmed stderr text added to the error.
pub fn ensure_success(name: &str, code: Option<i32>, stderr: &[u8]) -> (r: Result<(), String>)
    ensures
        r is Ok <==> code == Some(0i32),
        r matches Err(m) ==> m@ == spec_exit_msg(name@, code) + "\n---stderr---\n"@ + spec_trim(
            stderr_text(stderr@),
        ) + "\n------------"@,
{
    if code == Some(0i32) {
        return Ok(());
    }
    let mut m = exit_msg(name, code);
    let text = utf8_lossy(stderr);
    let tc = chars_of(text.as_str());
    let trimmed = trim_chars(tc.as_slice());
    let trimmed = string_of(trimmed.as_slice());
    push_str(&mut m, "\n---stderr---\n");
    push_str(&mut m, trimmed.as_str());
    push_str(&mut m, "\n------------");
    Err(m)
}

/// A command as readable shell-like text: the program and its args, separated by spaces.
pub open spec fn spec_cmd_str(program: Seq<char>, args: Seq<Seq<char>>) -> Seq<char>
    decreases args.len(),
{
    if args.len() == 0 {
        program
    } else {
        spec_cmd_str(program, args.drop_last()) + " "@ + args.last()
    }
}

/// Convert a command to readable shell-like text.
pub fn to_cmd_str(program: &str, args: &Vec<String>) -> (r: String)
    ensures
        r@ == spec_cmd_str(program@, crate::text::strings_view(args@)),
{
    let ghost views = crate::text::strings_view(args@);
    let mut r = crate::text::owned(program);
    let mut i: usize = 0;
    while i < args.len()
        invariant
            i <= args@.len(),
            views == crate::text::strings_view(args@),
            r@ == spec_cmd_str(program@, views.subrange(0, i as int)),
        decreases args@.len() - i,
    {
        assert(views.subrange(0, i + 1).drop_last() =~= views.subrange(0, i as int));
        push_str(&mut r, " ");
        push_str(&mut r, args[i].as_str());
        i = i + 1;
    }
    assert(views.subrange(0, args@.len() as int) =~= views);
    r
}

/// The ffmpeg args that score `distorted` against `reference` with `filter_complex`,
/// writing no output.
pub fn score_ffmpeg_args(reference: &str, distorted: &str, filter_complex: &str) -> (r: Vec<String>)
    ensures
        crate::text::strings_view(r@) == seq![
            "-i"@,
            distorted@,
            "-i"@,
            reference@,
            "-filter_complex"@,
            filter_complex@,
            "-f"@,
            "null"@,
            "-"@,
        ],
{
    let mut v: Vec<String> = Vec::new();
    crate::text::push_owned(&mut v, "-i");
    crate::text::push_owned(&mut v, distorted);
    crate::text::push_owned(&mut v, "-i");
    crate::text::push_owned(&mut v, reference);
    crate::text::push_owned(&mut v, "-filter_complex");
    crate::text::push_owned(&mut v, filter_complex);
    crate::text::push_owned(&mut v, "-f");
    crate::text::push_owned(&mut v, "null");
    crate::text::push_owned(&mut v, "-");
    v
}

} // verus!
