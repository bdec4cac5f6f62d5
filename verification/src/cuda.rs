//! CUDA hardware decoding arguments.
use vstd::prelude::*;
use crate::decimal::{spec_decimal, u64_to_string};
use crate::text::{push_owned, strings_view};
use crate::command::args::vmaf::{join_strs, spec_join};
use crate::text::strs_view;

verus! {

/// CUDA decoding settings.
#[derive(Clone, Debug)]
pub struct CudaConfig {
    /// The cuvid decoder, e.g. `h264_cuvid`.
    pub decoder: String,
    /// Video filters, joined with `,`.
    pub filters: Vec<String>,
    /// Extra hardware frames to allocate.
    pub surfaces: usize,
}

/// The ffmpeg args that decode with CUDA.
pub open spec fn spec_cuda_args(c: CudaConfig) -> Seq<Seq<char>> {
    let base = seq![
        "-hwaccel"@,
        "cuda"@,
        "-hwaccel_output_format"@,
        "cuda"@,
        "-extra_hw_frames"@,
        spec_decimal(c.surfaces as nat),
        "-c:v"@,
        c.decoder@,
    ];
    if c.filters@.len() == 0 {
        base
    } else {
        base + seq!["-vf"@, spec_join(strings_view(c.filters@), ","@)]
    }
}

impl CudaConfig {
    /// The ffmpeg input args that decode with CUDA, and the filters, if any.
    pub fn ffmpeg_args(&self) -> (r: Vec<String>)
        ensures
            strings_view(r@) == spec_cuda_args(*self),
    {
        let mut args: Vec<String> = Vec::new();
        push_owned(&mut args, "-hwaccel");
        push_owned(&mut args, "cuda");
        push_owned(&mut args, "-hwaccel_output_format");
        push_owned(&mut args, "cuda");
        push_owned(&mut args, "-extra_hw_frames");
        let n = u64_to_string(self.surfaces as u64);
        push_owned(&mut args, n.as_str());
        push_owned(&mut args, "-c:v");
        push_owned(&mut args, self.decoder.as_str());
        if self.filters.len() != 0 {
            let mut parts: Vec<&str> = Vec::new();
            let mut i: usize = 0;
            while i < self.filters.len()
                invariant
                    i <= self.filters@.len(),
                    strs_view(parts@) == strings_view(self.filters@).subrange(0, i as int),
                decreases self.filters@.len() - i,
            {
                let ghost prev = parts@;
                parts.push(self.filters[i].as_str());
                assert(strs_view(parts@) =~= strs_view(prev).push(self.filters@[i as int]@));
                assert(strings_view(self.filters@).subrange(0, i + 1) =~= strings_view(self.filters@).subrange(0, i as int).push(self.filters@[i as int]@));
                i = i + 1;
            }
            assert(strings_view(self.filters@).subrange(0, self.filters@.len() as int) =~= strings_view(self.filters@));
            push_owned(&mut args, "-vf");
            let joined = join_strs(&parts, ",");
            push_owned(&mut args, joined.as_str());
        }
        assert(strings_view(args@) =~= spec_cuda_args(*self));
        args
    }
}

} // verus!
