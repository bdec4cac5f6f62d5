//! The ffmpeg input args of an encode that decodes and scales with CUDA.
use vstd::prelude::*;
use crate::text::{contains_str, owned, push_owned, replace_all, spec_contains, spec_replace, strings_view};

verus! {

/// CUDA decoding and scaling settings of an encode.
#[derive(Clone, Debug)]
pub struct Encode {
    /// Ffmpeg video filter chain.
    pub vfilter: String,
    /// CUDA scaling method, `lanczos` where unset.
    pub cuda_scaling_method: Option<String>,
    /// Pick a hardware decoder for the input codec.
    pub auto_hw_decoder: bool,
    /// The codec of the input's video stream, where known.
    pub detected_input_codec: Option<String>,
}

/// The scaling method: the chosen one, otherwise `lanczos`.
pub open spec fn spec_scaling_method(e: Encode) -> Seq<char> {
    match e.cuda_scaling_method {
        Some(m) => m@,
        None => "lanczos"@,
    }
}

/// The filter chain with each `scale=` filter replaced by the CUDA scaler.
pub open spec fn spec_filter_chain(vfilter: Seq<char>, cuda_scale: Seq<char>) -> Seq<char> {
    if spec_contains(vfilter, "scale="@) {
        spec_replace(vfilter, "scale="@, cuda_scale)
    } else {
        vfilter
    }
}

/// The ffmpeg args: CUDA decoding with `decoder` where a hardware decoder is
/// picked for a known input codec, then the filter chain.
pub open spec fn spec_to_ffmpeg_args(e: Encode, cuda_scale: Seq<char>, decoder: Option<Seq<char>>) -> Seq<Seq<char>> {
    let hw = if e.auto_hw_decoder && e.detected_input_codec is Some {
        match decoder {
            Some(d) => seq!["-hwaccel"@, "cuda"@, "-hwaccel_output_format"@, "cuda"@, "-c:v"@, d],
            None => Seq::empty(),
        }
    } else {
        Seq::empty()
    };
    hw + seq!["-vf"@, spec_filter_chain(e.vfilter@, cuda_scale)]
}

impl Encode {
    /// The scaling method: the chosen one, otherwise `lanczos`.
    pub fn scaling_method(&self) -> (r: &str)
        ensures
            r@ == spec_scaling_method(*self),
    {
        match &self.cuda_scaling_method {
            Some(m) => m.as_str(),
            None => "lanczos",
        }
    }

    /// The ffmpeg args, given the CUDA scale filter of the scaling method
    /// (`cuda_scale`, which replaces `scale=`) and the hardware decoder picked for
    /// the detected input codec, if any.
    pub fn to_ffmpeg_args(&self, cuda_scale: &str, decoder: Option<&str>) -> (r: Vec<String>)
        ensures
            strings_view(r@) == spec_to_ffmpeg_args(
                *self,
                cuda_scale@,
                match decoder {
                    Some(d) => Some(d@),
                    None => None,
                },
            ),
    {
        let mut args: Vec<String> = Vec::new();
        let mut filter_chain = owned(self.vfilter.as_str());
        if contains_str(filter_chain.as_str(), "scale=") {
            proof {
                reveal_strlit("scale=");
            }
            filter_chain = replace_all(self.vfilter.as_str(), "scale=", cuda_scale);
        }
        if self.auto_hw_decoder && self.detected_input_codec.is_some() {
            if let Some(dec) = decoder {
                push_owned(&mut args, "-hwaccel");
                push_owned(&mut args, "cuda");
                push_owned(&mut args, "-hwaccel_output_format");
                push_owned(&mut args, "cuda");
                push_owned(&mut args, "-c:v");
                push_owned(&mut args, dec);
            }
        }
        push_owned(&mut args, "-vf");
        push_owned(&mut args, filter_chain.as_str());
        assert(strings_view(args@) =~= spec_to_ffmpeg_args(
            *self,
            cuda_scale@,
            match decoder {
                Some(d) => Some(d@),
                None => None,
            },
        ));
        args
    }
}

} // verus!
