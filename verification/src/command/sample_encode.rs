//! Sample encoding: what is sampled and how its progress is labelled; the
//! results and the predictions drawn from them, and the cache key of a result.
use vstd::prelude::*;
use crate::duration::{Duration, NANOS_PER_SEC, max_total_nanos, lemma_total_bounded};

pub mod cache;
pub mod results;

pub use results::{EncodeResult, Output};

verus! {

/// The score a sample encode is measured with.
#[derive(Debug, Clone, Copy, PartialEq, Eq, Structural)]
pub enum ScoreKind {
    Vmaf,
    Xpsnr,
}

impl ScoreKind {
    /// Display label for fps in progress bar.
    pub fn fps_label(&self) -> (r: &'static str)
        ensures
            r@ == (match self {
                ScoreKind::Vmaf => "vmaf"@,
                ScoreKind::Xpsnr => "xpsnr"@,
            }),
    {
        match self {
            ScoreKind::Vmaf => "vmaf",
            ScoreKind::Xpsnr => "xpsnr",
        }
    }

    /// General display name.
    pub fn display_str(&self) -> (r: &'static str)
        ensures
            r@ == (match self {
                ScoreKind::Vmaf => "VMAF"@,
                ScoreKind::Xpsnr => "XPSNR"@,
            }),
    {
        match self {
            ScoreKind::Vmaf => "VMAF",
            ScoreKind::Xpsnr => "XPSNR",
        }
    }
}

/// Kinds of sample-encode work.
#[derive(Debug, Clone, Copy, PartialEq, Eq, Structural)]
pub enum Work {
    Encode,
    Score(ScoreKind),
}

impl Default for Work {
    fn default() -> (r: Work)
        ensures
            r == Work::Encode,
    {
        Work::Encode
    }
}

impl Work {
    /// Display label for fps in progress bar.
    pub fn fps_label(&self) -> (r: &'static str)
        ensures
            r@ == (match self {
                Work::Encode => "enc"@,
                Work::Score(ScoreKind::Vmaf) => "vmaf"@,
                Work::Score(ScoreKind::Xpsnr) => "xpsnr"@,
            }),
    {
        match self {
            Work::Encode => "enc",
            Work::Score(kind) => kind.fps_label(),
        }
    }
}

/// Stdout message format `human` or `json`.
#[derive(Debug, Clone, Copy, PartialEq, Eq, Structural)]
pub enum StdoutFormat {
    Human,
    Json,
}

/// How the input is sampled: the number of samples, the length of each and
/// whether the whole input is encoded as a single sample.
#[derive(Debug, Clone, Copy, PartialEq, Eq, Structural)]
pub struct SamplePlan {
    pub samples: u64,
    pub sample_duration: Duration,
    pub full_pass: bool,
}

/// The sample duration times the sample count (taken as a `u32`), in nanoseconds.
pub open spec fn spec_samples_nanos(sample_duration: Duration, samples: u64) -> int {
    sample_duration.total_nanos() * (samples % 0x1_0000_0000)
}

/// Whether the samples would cover most (85%) of the input, so that the whole
/// input is encoded instead.
pub open spec fn spec_mostly_covered(sample_duration: Duration, samples: u64, duration: Duration) -> bool {
    sample_duration.total_nanos() == 0 || 20 * spec_samples_nanos(sample_duration, samples) >= 17
        * duration.total_nanos()
}

/// Decide how to sample an input of `duration`: an image is encoded whole (for at
/// least one second); so is an input that the samples would mostly cover;
/// otherwise `samples` samples of `sample_duration`, at least `one_frame` long
/// where the frame duration is known.
pub fn sample_plan(
    input_is_image: bool,
    samples: u64,
    sample_duration: Duration,
    duration: Duration,
    one_frame: Option<Duration>,
) -> (r: SamplePlan)
    requires
        sample_duration.wf(),
        duration.wf(),
        one_frame matches Some(f) ==> f.wf(),
        input_is_image || spec_samples_nanos(sample_duration, samples) <= max_total_nanos(),
    ensures
        r.sample_duration.wf(),
        input_is_image ==> r.samples == 1 && r.full_pass && r.sample_duration.total_nanos() == (
        if duration.total_nanos() >= NANOS_PER_SEC {
            duration.total_nanos()
        } else {
            NANOS_PER_SEC as int
        }),
        !input_is_image && spec_mostly_covered(sample_duration, samples, duration) ==> r.samples == 1
            && r.full_pass && r.sample_duration == duration,
        !input_is_image && !spec_mostly_covered(sample_duration, samples, duration) ==> {
            &&& r.samples == samples
            &&& !r.full_pass
            &&& r.sample_duration.total_nanos() == match one_frame {
                Some(f) => if f.total_nanos() > sample_duration.total_nanos() {
                    f.total_nanos()
                } else {
                    sample_duration.total_nanos()
                },
                None => sample_duration.total_nanos(),
            }
        },
{
    if input_is_image {
        let one_sec = Duration::from_secs(1);
        let d = if duration.ge(&one_sec) {
            duration
        } else {
            one_sec
        };
        return SamplePlan { samples: 1, sample_duration: d, full_pass: true };
    }
    let n: u32 = samples as u32;
    assert(n == samples % 0x1_0000_0000) by (bit_vector)
        requires
            n == samples as u32,
    ;
    let sd = sample_duration.as_nanos();
    let d = duration.as_nanos();
    proof {
        lemma_total_bounded(duration);
    }
    if sd == 0 || 20 * (sd * n as u128) >= 17 * d {
        return SamplePlan { samples: 1, sample_duration: duration, full_pass: true };
    }
    let sample_duration = match one_frame {
        Some(f) => if f.ge(&sample_duration) && !sample_duration.ge(&f) {
            f
        } else {
            sample_duration
        },
        None => sample_duration,
    };
    SamplePlan { samples, sample_duration, full_pass: false }
}

/// Where sample `sample_idx` (from 0) of `samples` starts: the gaps the samples
/// leave in the input are spread evenly before, between and after them.
pub open spec fn spec_sample_start(
    duration: Duration,
    sample_duration: Duration,
    samples: u64,
    sample_idx: u64,
) -> int {
    let covered = sample_duration.total_nanos() * samples;
    let gap = if duration.total_nanos() > covered {
        (duration.total_nanos() - covered) / (samples + 1)
    } else {
        0
    };
    gap * (sample_idx + 1) + sample_duration.total_nanos() * sample_idx
}

/// The start of sample `sample_idx` (from 0) of `samples` samples of
/// `sample_duration` in an input of `duration`.
pub fn sample_start(duration: Duration, sample_duration: Duration, samples: u64, sample_idx: u64) -> (r: Duration)
    requires
        duration.wf(),
        sample_duration.wf(),
        samples < u32::MAX,
        sample_idx < samples,
        sample_duration.total_nanos() * samples <= max_total_nanos(),
    ensures
        r.wf(),
        r.total_nanos() == spec_sample_start(duration, sample_duration, samples, sample_idx),
{
    let sd = sample_duration.as_nanos();
    let d = duration.as_nanos();
    let n = samples as u128;
    let idx = sample_idx as u128;
    let covered = sd * n;
    let gap: u128 = if d > covered {
        (d - covered) / (n + 1)
    } else {
        0
    };
    proof {
        lemma_total_bounded(duration);
        if d > covered {
            assert(gap * (n + 1) <= d - covered) by (nonlinear_arith)
                requires
                    gap == (d - covered) / (n + 1),
                    d > covered,
                    n >= 0,
            ;
            assert(gap * (idx + 1) <= gap * (n + 1)) by (nonlinear_arith)
                requires
                    idx < n,
                    gap >= 0,
            ;
        }
        assert(sd * idx <= sd * n) by (nonlinear_arith)
            requires
                idx < n,
                sd >= 0,
        ;
    }
    let start = gap * (idx + 1) + sd * idx;
    Duration::from_total_nanos(start)
}

/// Samples follow each other without overlapping: each starts a gap after the end
/// of the one before; and where the samples fit in the input, the last ends within it.
pub proof fn lemma_samples_spread(duration: Duration, sample_duration: Duration, samples: u64, sample_idx: u64)
    requires
        duration.wf(),
        sample_duration.wf(),
        sample_idx + 1 < samples,
    ensures
        spec_sample_start(duration, sample_duration, samples, (sample_idx + 1) as u64) >= spec_sample_start(
            duration,
            sample_duration,
            samples,
            sample_idx,
        ) + sample_duration.total_nanos(),
        sample_duration.total_nanos() * samples <= duration.total_nanos() ==> spec_sample_start(
            duration,
            sample_duration,
            samples,
            (samples - 1) as u64,
        ) + sample_duration.total_nanos() <= duration.total_nanos(),
{
    let sd = sample_duration.total_nanos();
    let d = duration.total_nanos();
    let n = samples as int;
    let covered = sd * n;
    let gap = if d > covered {
        (d - covered) / (n + 1)
    } else {
        0
    };
    assert(gap >= 0);
    assert(gap * (sample_idx + 2) + sd * (sample_idx + 1) == gap * (sample_idx + 1) + sd * sample_idx + gap + sd)
        by (nonlinear_arith);
    if covered <= d {
        if d > covered {
            assert(gap * (n + 1) <= d - covered) by (nonlinear_arith)
                requires
                    gap == (d - covered) / (n + 1),
                    d > covered,
                    n >= 0,
            ;
        }
        assert(gap * n + sd * (n - 1) + sd <= gap * (n + 1) + covered) by (nonlinear_arith)
            requires
                gap >= 0,
                covered == sd * n,
        ;
    }
}

/// Where the samples fit in the input, they are centred: the gap before the
/// first sample is the input's spare time split evenly over the `samples + 1`
/// gaps (rounded down), each gap between two samples is that same gap, and the
/// gap after the last sample is that gap plus the rounding remainder (less than
/// `samples + 1` nanoseconds).
pub proof fn lemma_samples_centered(duration: Duration, sample_duration: Duration, samples: u64, sample_idx: u64)
    requires
        duration.wf(),
        sample_duration.wf(),
        sample_idx < samples,
        sample_duration.total_nanos() * samples <= duration.total_nanos(),
    ensures
        ({
            let spare = duration.total_nanos() - sample_duration.total_nanos() * samples;
            let first = spec_sample_start(duration, sample_duration, samples, 0);
            let last_end = spec_sample_start(duration, sample_duration, samples, (samples - 1) as u64)
                + sample_duration.total_nanos();
            &&& first * (samples + 1) <= spare < (first + 1) * (samples + 1)
            &&& sample_idx + 1 < samples ==> spec_sample_start(
                duration,
                sample_duration,
                samples,
                (sample_idx + 1) as u64,
            ) == spec_sample_start(duration, sample_duration, samples, sample_idx)
                + sample_duration.total_nanos() + first
            &&& first <= duration.total_nanos() - last_end <= first + samples
        }),
{
    let sd = sample_duration.total_nanos();
    let d = duration.total_nanos();
    let n = samples as int;
    let covered = sd * n;
    let spare = d - covered;
    let gap = if d > covered {
        (d - covered) / (n + 1)
    } else {
        0
    };
    assert(spec_sample_start(duration, sample_duration, samples, 0) == gap);
    assert(gap * (n + 1) <= spare < (gap + 1) * (n + 1)) by (nonlinear_arith)
        requires
            spare >= 0,
            n >= 1,
            spare > 0 ==> gap == spare / (n + 1),
            spare == 0 ==> gap == 0,
    ;
    let i = sample_idx as int;
    assert(gap * (i + 2) + sd * (i + 1) == gap * (i + 1) + sd * i + sd + gap) by (nonlinear_arith);
    assert(d - (gap * n + sd * (n - 1) + sd) == spare - gap * n) by (nonlinear_arith)
        requires
            spare == d - covered,
            covered == sd * n,
    ;
    assert(gap <= spare - gap * n <= gap + n) by (nonlinear_arith)
        requires
            gap * (n + 1) <= spare < (gap + 1) * (n + 1),
    ;
}

} // verus!
