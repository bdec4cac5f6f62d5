//! Reading the XPSNR score from ffmpeg's xpsnr filter output.
use vstd::prelude::*;
use crate::process::{
    Chunks, FfmpegOut, ffmpeg_out_of, first_mapped, rev_segments, spec_last_line,
    lemma_rfind_line_map_det,
};
use crate::text::{chars_of, find_chars, contains_str, spec_contains, spec_find, sub_chars, string_of, lemma_find};
use crate::decimal::is_digit;
use crate::literal::{is_float_literal, spec_is_float_literal};

verus! {

/// Unicode numeric characters (`char::is_numeric`: the general categories for numbers).
pub uninterp spec fn spec_char_is_numeric(c: char) -> bool;

/// `char::is_numeric`. The contract names the result and claims the documented
/// fact that among ASCII characters exactly the digits are numeric (no other ASCII
/// character is in a number category); the Unicode tables beyond ASCII are not
/// restated.
#[verifier::external_body]
fn char_is_numeric(c: char) -> (r: bool)
    ensures
        r == spec_char_is_numeric(c),
        (c as u32) < 128 ==> (r <==> is_digit(c)),
{
    c.is_numeric()
}

/// A numeric character: an ASCII digit, or a numeric character beyond ASCII.
pub open spec fn is_numeric_char(c: char) -> bool {
    if (c as u32) < 128 {
        is_digit(c)
    } else {
        spec_char_is_numeric(c)
    }
}

/// A character of a score: `.` or numeric.
pub open spec fn is_score_char(c: char) -> bool {
    c == '.' || is_numeric_char(c)
}

/// The length of the longest prefix of `t` from `i` made of score characters.
pub open spec fn score_run_end(t: Seq<char>, i: int) -> int
    decreases t.len() - i,
{
    if i < 0 || i >= t.len() {
        if i < 0 { 0 } else { t.len() as int }
    } else if is_score_char(t[i]) {
        score_run_end(t, i + 1)
    } else {
        i
    }
}

/// The text before the score.
pub open spec fn min_prefix() -> Seq<char> {
    "minimum: "@
}

/// The score of a line such as
/// `[Parsed_xpsnr_0 @ 0x711494004cc0] XPSNR  y: 33.6547  u: 41.8741  v: 42.2571  (minimum: 33.6547)`:
/// the run of `.` and numeric characters after the first `minimum: `, where the line
/// holds `XPSNR` and that run is a non-empty float literal.
pub open spec fn spec_score_from_line(line: Seq<char>) -> Option<Seq<char>> {
    if !spec_contains(line, "XPSNR"@) {
        None
    } else {
        match spec_find(line, min_prefix()) {
            None => None,
            Some(y) => {
                let tail = line.subrange(y + min_prefix().len(), line.len() as int);
                let end = score_run_end(tail, 0);
                if end == 0 || !spec_is_float_literal(tail.subrange(0, end)) {
                    None
                } else {
                    Some(tail.subrange(0, end))
                }
            },
        }
    }
}

proof fn lemma_score_run_end(t: Seq<char>, i: int)
    requires
        0 <= i <= t.len(),
    ensures
        i <= score_run_end(t, i) <= t.len(),
    decreases t.len() - i,
{
    if i < t.len() && is_score_char(t[i]) {
        lemma_score_run_end(t, i + 1);
    }
}

/// The XPSNR score text of a line, if it holds one (see [`spec_score_from_line`]).
pub fn score_from_line(line: &str) -> (r: Option<String>)
    ensures
        match spec_score_from_line(line@) {
            Some(t) => r matches Some(s) && s@ == t,
            None => r is None,
        },
{
    proof {
        reveal_strlit("XPSNR");
        reveal_strlit("minimum: ");
    }
    if !contains_str(line, "XPSNR") {
        return None;
    }
    let lc = chars_of(line);
    let pc = chars_of("minimum: ");
    let y = find_chars(lc.as_slice(), pc.as_slice())?;
    proof {
        lemma_find(lc@, pc@);
    }
    let n = lc.len();
    let m = pc.len();
    let tail = sub_chars(lc.as_slice(), y + m, n);
    let mut end: usize = 0;
    while end < tail.len()
        invariant
            end <= tail@.len(),
            score_run_end(tail@, 0) == score_run_end(tail@, end as int),
        ensures
            end <= tail@.len(),
            score_run_end(tail@, 0) == score_run_end(tail@, end as int),
            end < tail@.len() ==> !is_score_char(tail@[end as int]),
        decreases tail@.len() - end,
    {
        let c = tail[end];
        if !(c == '.' || char_is_numeric(c)) {
            break;
        }
        end = end + 1;
    }
    if end == 0 {
        return None;
    }
    let digits = sub_chars(tail.as_slice(), 0, end);
    let text = string_of(digits.as_slice());
    if !is_float_literal(text.as_str()) {
        return None;
    }
    Some(text)
}

/// What one chunk of ffmpeg xpsnr output told.
#[derive(Debug)]
pub enum XpsnrOut {
    /// ffmpeg progress.
    Progress(FfmpegOut),
    /// The score, as the float literal that ffmpeg printed.
    Done(String),
    /// The run failed, with the message.
    Failed(String),
}

/// `r` is what the stored ffmpeg output `out` tells: the score of the newest line
/// holding one, otherwise the progress of the newest non-empty line.
pub open spec fn xpsnr_out_of(out: Seq<u8>, r: Option<XpsnrOut>) -> bool {
    match first_mapped(rev_segments(out), |t: Seq<char>| spec_score_from_line(t), 0) {
        Some(text) => r matches Some(XpsnrOut::Done(s)) && s@ == text,
        None => match r {
            Some(XpsnrOut::Progress(p)) => ffmpeg_out_of(spec_last_line(out), Some(p)),
            Some(_) => false,
            None => ffmpeg_out_of(spec_last_line(out), None),
        },
    }
}

impl XpsnrOut {
    /// Stores `chunk` and reads what the output tells so far.
    pub fn try_from_chunk(chunk: &[u8], chunks: &mut Chunks) -> (r: Option<XpsnrOut>)
        ensures
            final(chunks).spec_out() == old(chunks).pushed_out(chunk@),
            final(chunks).spec_trunc() == old(chunks).pushed_trunc(chunk@),
            final(chunks).wf(),
            xpsnr_out_of(final(chunks).spec_out(), r),
    {
        chunks.push(chunk);
        let f = |l: &str| -> (o: Option<String>)
            ensures
                match spec_score_from_line(l@) {
                    Some(t) => o matches Some(s) && s@ == t,
                    None => o is None,
                },
            { score_from_line(l) };
        let found = chunks.rfind_line_map(f);
        proof {
            let sf = |t: Seq<char>| spec_score_from_line(t);
            lemma_rfind_line_map_det(chunks.spec_out(), f, sf, found);
        }
        if let Some(score) = found {
            return Some(XpsnrOut::Done(score));
        }
        match FfmpegOut::try_parse(chunks.last_line()) {
            Some(progress) => Some(XpsnrOut::Progress(progress)),
            None => None,
        }
    }
}

} // verus!
