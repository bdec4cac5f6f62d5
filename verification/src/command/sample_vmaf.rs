//! Arguments of a fast VMAF score of svt-av1 settings, and where its samples lie.
use vstd::prelude::*;

verus! {

/// The length of each sample, in seconds.
pub const SAMPLE_SIZE_S: u64 = 20;

/// Fast VMAF score for provided AV1 re-encoding settings.
#[derive(Debug, Clone)]
pub struct SampleVmafArgs {
    /// Input video file.
    pub input: String,
    /// Encoder constant rate factor. Lower means better quality.
    pub crf: u8,
    /// Encoder preset. Higher presets means faster encodes, but with a quality tradeoff.
    pub preset: u8,
    /// Number of 20s samples.
    pub samples: u64,
}

impl SampleVmafArgs {
    /// The samples used for an input of `duration_secs`: as many as asked, but no
    /// more than fit in the input.
    pub fn sample_count(&self, duration_secs: u64) -> (r: u64)
        ensures
            r == if self.samples <= duration_secs / SAMPLE_SIZE_S {
                self.samples
            } else {
                duration_secs / SAMPLE_SIZE_S
            },
    {
        let fit = duration_secs / SAMPLE_SIZE_S;
        if self.samples <= fit {
            self.samples
        } else {
            fit
        }
    }
}

/// Where sample `sample_n` (from 1) of `samples` starts, in seconds: the time the
/// samples leave is spread in equal whole-second gaps before, between and after them.
pub open spec fn spec_sample_vmaf_start(duration_secs: u64, samples: u64, sample_n: u64) -> int {
    ((duration_secs - SAMPLE_SIZE_S * samples) / (samples + 1)) * sample_n + SAMPLE_SIZE_S * (
    sample_n - 1)
}

/// The start of sample `sample_n` (from 1) of `samples`, in seconds.
pub fn sample_vmaf_start(duration_secs: u64, samples: u64, sample_n: u64) -> (r: u64)
    requires
        samples <= duration_secs / SAMPLE_SIZE_S,
        1 <= sample_n <= samples,
    ensures
        r == spec_sample_vmaf_start(duration_secs, samples, sample_n),
        r + SAMPLE_SIZE_S <= duration_secs,
{
    let gap = (duration_secs - SAMPLE_SIZE_S * samples) / (samples + 1);
    assert(gap * (samples + 1) <= duration_secs - SAMPLE_SIZE_S * samples) by (nonlinear_arith)
        requires
            gap == (duration_secs - SAMPLE_SIZE_S * samples) / (samples + 1),
            SAMPLE_SIZE_S * samples <= duration_secs,
    ;
    assert(gap * sample_n <= gap * (samples + 1)) by (nonlinear_arith)
        requires
            sample_n <= samples + 1,
            gap >= 0,
    ;
    gap * sample_n + SAMPLE_SIZE_S * (sample_n - 1)
}

} // verus!
