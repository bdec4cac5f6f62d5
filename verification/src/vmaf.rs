//! Reading the VMAF score from ffmpeg's libvmaf output.
use vstd::prelude::*;
use vstd::utf8::decode_utf8;
use crate::process::{
    Chunks, FfmpegOut, ffmpeg_out_of, first_where, rev_segments, spec_last_line,
    lemma_rfind_line_det,
};
use crate::text::{chars_of, contains_str, find_chars, spec_contains, spec_find, spec_trim, trim_chars, string_of, sub_chars, lemma_find};
use crate::literal::{is_float_literal, spec_is_float_literal};

verus! {

/// What one chunk of ffmpeg vmaf output told.
#[derive(Debug)]
pub enum VmafOut {
    /// ffmpeg progress.
    Progress(FfmpegOut),
    /// The score, as the float literal that ffmpeg printed.
    Done(String),
    /// The run failed, with the message.
    Failed(String),
}

/// The text that comes before the score.
pub open spec fn vmaf_score_pre() -> Seq<char> {
    "VMAF score: "@
}

/// The line holds the score.
pub open spec fn holds_vmaf_score(t: Seq<char>) -> bool {
    spec_contains(t, vmaf_score_pre())
}

/// The score text of a line that holds it: what follows `VMAF score: `, trimmed.
pub open spec fn vmaf_score_text(line: Seq<char>) -> Seq<char> {
    let idx = spec_find(line, vmaf_score_pre())->0;
    spec_trim(line.subrange(idx + vmaf_score_pre().len(), line.len() as int))
}

/// `r` is what the stored ffmpeg output `out` tells: the score of the newest
/// line holding one, where its text is a float literal (`None` where it is not);
/// otherwise the progress of the newest non-empty line.
pub open spec fn vmaf_out_of(out: Seq<u8>, r: Option<VmafOut>) -> bool {
    let segs = rev_segments(out);
    match first_where(segs, |t: Seq<char>| holds_vmaf_score(t), 0) {
        Some(k) => {
            let text = vmaf_score_text(decode_utf8(segs[k]));
            if spec_is_float_literal(text) {
                r matches Some(VmafOut::Done(s)) && s@ == text
            } else {
                r is None
            }
        },
        None => match r {
            Some(VmafOut::Progress(p)) => ffmpeg_out_of(spec_last_line(out), Some(p)),
            Some(_) => false,
            None => ffmpeg_out_of(spec_last_line(out), None),
        },
    }
}

impl VmafOut {
    /// Stores `chunk` and reads what the output tells so far.
    pub fn try_from_chunk(chunk: &[u8], chunks: &mut Chunks) -> (r: Option<VmafOut>)
        ensures
            final(chunks).spec_out() == old(chunks).pushed_out(chunk@),
            final(chunks).spec_trunc() == old(chunks).pushed_trunc(chunk@),
            final(chunks).wf(),
            vmaf_out_of(final(chunks).spec_out(), r),
    {
        chunks.push(chunk);
        let pre = |l: &str| -> (b: bool)
            ensures
                b == holds_vmaf_score(l@),
            {
                proof {
                    reveal_strlit("VMAF score: ");
                }
                contains_str(l, "VMAF score: ")
            };
        let found = chunks.rfind_line(pre);
        proof {
            lemma_rfind_line_det(chunks.spec_out(), pre, |t: Seq<char>| holds_vmaf_score(t), found);
        }
        if let Some(line) = found {
            let lc = chars_of(line);
            let pc = chars_of("VMAF score: ");
            proof {
                reveal_strlit("VMAF score: ");
                lemma_find(line@, vmaf_score_pre());
            }
            let idx = match find_chars(lc.as_slice(), pc.as_slice()) {
                Some(i) => i,
                None => return None,
            };
            proof {
                lemma_find(lc@, pc@);
            }
            let n = lc.len();
            let m = pc.len();
            assert(idx + m <= n);
            let tail = sub_chars(lc.as_slice(), idx + m, n);
            let text = trim_chars(tail.as_slice());
            let text = string_of(text.as_slice());
            if !is_float_literal(text.as_str()) {
                return None;
            }
            return Some(VmafOut::Done(text));
        }
        match FfmpegOut::try_parse(chunks.last_line()) {
            Some(progress) => Some(VmafOut::Progress(progress)),
            None => None,
        }
    }
}

} // verus!
