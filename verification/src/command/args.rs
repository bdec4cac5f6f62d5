//! Shared argument logic.
use vstd::prelude::*;
use crate::command::encoders::{
    EncoderString, KeyInterval, PixelFormat, Preset, key_interval_text, pairs_view, pixel_format_name,
    spec_default_ffmpeg_args,
};
use crate::decimal::{spec_decimal, spec_parse_u8, spec_terse_milli, terse_milli};
use crate::duration::{Duration, NANOS_PER_SEC};
use crate::command::encode::{default_output_ext, spec_default_output_ext};
use crate::ffmpeg::{FfmpegEncodeArgs, opt_string, opt_text};
use crate::text::{debug_quoted, debug_text, extend_owned, owned, push_owned, push_str, strings_view};

pub mod encode;
pub mod svt;
pub mod vmaf;

verus! {

/// Encoding args that apply when encoding to an output.
#[derive(Debug, Clone)]
pub struct EncodeToOutput {
    /// Output file, by default the same as input with `.av1` before the extension.
    pub output: Option<String>,
    /// Output ffmpeg audio codec; `copy` where unset, unless re-encoding is necessary.
    pub audio_codec: Option<String>,
    /// Downmix input audio streams to stereo if input streams use greater than
    /// 3 channels.
    pub downmix_to_stereo: bool,
    /// Only process the main video stream, drop all other streams.
    pub video_only: bool,
    /// Allow overwriting the input.
    pub overwrite_input: bool,
}

/// Args for when VMAF/XPSNR are used to score ref vs distorted.
#[derive(Debug, Clone)]
pub struct ScoreArgs {
    /// Ffmpeg video filter applied to the VMAF/XPSNR reference before analysis.
    /// Overrides --vfilter which would otherwise be used.
    pub reference_vfilter: Option<String>,
}

/// Sampling arguments.
#[derive(Debug, Clone)]
pub struct Sample {
    /// Number of samples to use across the input video. Overrides `sample_every`.
    pub samples: Option<u64>,
    /// Calculate number of samples by dividing the input duration by this value.
    pub sample_every: Duration,
    /// Minimum number of samples.
    pub min_samples: Option<u64>,
    /// Duration of each sample.
    pub sample_duration: Duration,
    /// Keep temporary files after exiting.
    pub keep: bool,
    /// Directory to store temporary sample data in.
    pub temp_dir: Option<String>,
    /// Extension preference for encoded samples (ffmpeg encoder only).
    pub extension: Option<String>,
}

/// The sample count: `samples` where given, otherwise the input duration divided
/// by `sample_every` (at least one second), rounded up and saturated at
/// `u64::MAX`; then at least `min_samples` (1 where unset) and at least 1.
pub open spec fn spec_sample_count(
    samples: Option<u64>,
    sample_every: Duration,
    min_samples: Option<u64>,
    input_duration: Duration,
) -> int {
    let every = if sample_every.total_nanos() > NANOS_PER_SEC {
        sample_every.total_nanos()
    } else {
        NANOS_PER_SEC as int
    };
    let by_duration = (input_duration.total_nanos() + every - 1) / every;
    let base = match samples {
        Some(s) => s as int,
        None => if by_duration > u64::MAX {
            u64::MAX as int
        } else {
            by_duration
        },
    };
    let floor = match min_samples {
        Some(m) => m as int,
        None => 1,
    };
    let c = if base > floor {
        base
    } else {
        floor
    };
    if c > 1 {
        c
    } else {
        1
    }
}

impl Sample {
    /// Calculate the desired sample count using `samples` or `sample_every` & `min_samples`.
    pub fn sample_count(&self, input_duration: Duration) -> (r: u64)
        requires
            self.sample_every.wf(),
            input_duration.wf(),
        ensures
            r == spec_sample_count(
                self.samples,
                self.sample_every,
                self.min_samples,
                input_duration,
            ),
    {
        let base: u64 = match self.samples {
            Some(s) => s,
            None => {
                let every = self.sample_every.as_nanos();
                let every: u128 = if every > 1_000_000_000 {
                    every
                } else {
                    1_000_000_000
                };
                let input = input_duration.as_nanos();
                let n = (input + every - 1) / every;
                if n > u64::MAX as u128 {
                    u64::MAX
                } else {
                    n as u64
                }
            },
        };
        let floor: u64 = match self.min_samples {
            Some(m) => m,
            None => 1,
        };
        let c = if base > floor {
            base
        } else {
            floor
        };
        if c > 1 {
            c
        } else {
            1
        }
    }
}


/// The sampling settings but the extension are those of `old`.
pub open spec fn same_but_extension(new: Sample, old: Sample) -> bool {
    &&& new.samples == old.samples
    &&& new.sample_every == old.sample_every
    &&& new.min_samples == old.min_samples
    &&& new.sample_duration == old.sample_duration
    &&& new.keep == old.keep
    &&& new.temp_dir == old.temp_dir
}

impl Sample {
    /// Encode samples in the container that a default output of the input would
    /// have (see [`spec_default_output_ext`]).
    pub fn set_extension_from_input(&mut self, input_ext: Option<&str>, image_ext: &str, is_image: bool)
        ensures
            opt_string(final(self).extension) == Some(
                spec_default_output_ext(opt_text(input_ext), image_ext@, is_image),
            ),
            same_but_extension(*final(self), *old(self)),
    {
        let ext = default_output_ext(input_ext, image_ext, is_image);
        self.extension = Some(owned(ext));
    }

    /// Encode samples in the container of the output.
    pub fn set_extension_from_output(&mut self, output_ext: Option<&str>)
        ensures
            opt_string(final(self).extension) == opt_text(output_ext),
            same_but_extension(*final(self), *old(self)),
    {
        self.extension = match output_ext {
            Some(e) => Some(owned(e)),
            None => None,
        };
    }

    /// The extension samples are encoded with: the preferred one, otherwise mkv.
    pub fn encode_extension(&self) -> (r: &str)
        ensures
            r@ == match self.extension {
                Some(e) => e@,
                None => "mkv"@,
            },
    {
        match &self.extension {
            Some(e) => e.as_str(),
            None => "mkv",
        }
    }
}

/// Encoding arguments: the encoder and what it is given.
#[derive(Debug, Clone)]
pub struct Encode {
    /// Encoder, an ffmpeg video codec; `svt-av1` is an alias of `libsvtav1`.
    pub encoder: String,
    /// Input video file.
    pub input: String,
    /// Ffmpeg video filter applied to the input before encoding.
    pub vfilter: Option<String>,
    /// Pixel format.
    pub pix_format: Option<PixelFormat>,
    /// Encoder preset: a number or a name.
    pub preset: Option<String>,
    /// Interval between keyframes.
    pub keyint: Option<KeyInterval>,
    /// Additional ffmpeg output args, as given.
    pub enc_args: Vec<String>,
    /// Additional ffmpeg input args, as given.
    pub enc_input_args: Vec<String>,
}

/// The encoder an encoder name stands for.
pub open spec fn encoder_name(e: Seq<char>) -> Seq<char> {
    if e == "svt-av1"@ {
        "libsvtav1"@
    } else {
        e
    }
}

/// Argument pairs, one after the other.
pub open spec fn flatten_pairs(p: Seq<(Seq<char>, Seq<char>)>) -> Seq<Seq<char>>
    decreases p.len(),
{
    if p.len() == 0 {
        Seq::empty()
    } else {
        flatten_pairs(p.drop_last()) + seq![p.last().0, p.last().1]
    }
}

/// The text a preset is passed as: a `u8` number in decimal, a name as it is.
pub open spec fn preset_text(p: Seq<char>) -> Seq<char> {
    match spec_parse_u8(p) {
        Ok(n) => spec_decimal(n as nat),
        Err(_) => p,
    }
}

impl Encode {
    /// A key interval duration is well formed.
    pub open spec fn wf(&self) -> bool {
        self.keyint matches Some(KeyInterval::Duration(d)) ==> d.wf()
    }

    /// The ffmpeg encoding args at `crf` (thousandths) of `input`: the encoder's
    /// own output arg defaults come before the given output args.
    pub fn to_ffmpeg_args(&self, crf: u64, input: &str) -> (r: FfmpegEncodeArgs)
        ensures
            r.input@ == input@,
            r.vcodec@ == encoder_name(self.encoder@),
            opt_string(r.vfilter) == opt_string(self.vfilter),
            r.pix_fmt == self.pix_format,
            r.crf == crf,
            opt_string(r.preset) == match self.preset {
                Some(p) => Some(preset_text(p@)),
                None => None,
            },
            strings_view(r.output_args@) == flatten_pairs(
                spec_default_ffmpeg_args(encoder_name(self.encoder@)),
            ) + strings_view(self.enc_args@),
            strings_view(r.input_args@) == strings_view(self.enc_input_args@),
            !r.video_only,
    {
        let encoder = EncoderString::from_str(self.encoder.as_str());
        proof {
            reveal_strlit("svt-av1");
            reveal_strlit("libsvtav1");
        }
        let defaults = encoder.default_ffmpeg_args();
        let ghost pairs = pairs_view(defaults@);
        let mut output_args: Vec<String> = Vec::new();
        let mut i: usize = 0;
        while i < defaults.len()
            invariant
                i <= defaults@.len(),
                pairs == pairs_view(defaults@),
                strings_view(output_args@) == flatten_pairs(pairs.take(i as int)),
            decreases defaults@.len() - i,
        {
            let (a, b) = defaults[i];
            push_owned(&mut output_args, a);
            push_owned(&mut output_args, b);
            assert(pairs.take(i + 1).drop_last() =~= pairs.take(i as int));
            assert(strings_view(output_args@) =~= flatten_pairs(pairs.take(i + 1)));
            i = i + 1;
        }
        assert(pairs.take(defaults@.len() as int) =~= pairs);
        extend_owned(&mut output_args, &self.enc_args);
        let mut input_args: Vec<String> = Vec::new();
        extend_owned(&mut input_args, &self.enc_input_args);
        assert(strings_view(input_args@) =~= strings_view(self.enc_input_args@));
        let vfilter = match &self.vfilter {
            Some(f) => Some(owned(f.as_str())),
            None => None,
        };
        let preset = match &self.preset {
            Some(p) => Some(Preset::from_str(p.as_str()).display()),
            None => None,
        };
        FfmpegEncodeArgs {
            input: owned(input),
            vcodec: encoder.0,
            vfilter,
            pix_fmt: self.pix_format,
            crf,
            preset,
            output_args,
            input_args,
            video_only: false,
        }
    }
}

/// An optional flag and its value in an encode hint.
pub open spec fn hint_opt(flag: Seq<char>, v: Option<Seq<char>>) -> Seq<char> {
    match v {
        Some(t) => flag + t,
        None => Seq::empty(),
    }
}

/// Each extra output arg as ` --enc=<arg>`.
pub open spec fn hint_enc_args(args: Seq<Seq<char>>) -> Seq<char>
    decreases args.len(),
{
    if args.len() == 0 {
        Seq::empty()
    } else {
        hint_enc_args(args.drop_last()) + " --enc="@ + args.last()
    }
}

/// The `ab-av1 encode` command that encodes with these args at `crf` (thousandths).
pub open spec fn spec_encode_hint(e: Encode, crf: u64) -> Seq<char> {
    "ab-av1 encode -e "@ + encoder_name(e.encoder@) + " -i "@ + debug_text(e.input@) + " --crf "@
        + spec_terse_milli(crf as nat) + hint_opt(" --preset "@, opt_string(e.preset)) + hint_opt(
        " --keyint "@,
        match e.keyint {
            Some(k) => Some(key_interval_text(k)),
            None => None,
        },
    ) + hint_opt(
        " --pix-format "@,
        match e.pix_format {
            Some(p) => Some(pixel_format_name(p)),
            None => None,
        },
    ) + hint_opt(
        " --vfilter "@,
        match e.vfilter {
            Some(f) => Some(debug_text(f@)),
            None => None,
        },
    ) + hint_enc_args(strings_view(e.enc_args@))
}

impl Encode {
    /// The `ab-av1 encode` command with these args at `crf` (thousandths).
    pub fn encode_hint(&self, crf: u64) -> (r: String)
        requires
            self.wf(),
        ensures
            r@ == spec_encode_hint(*self, crf),
    {
        let encoder = EncoderString::from_str(self.encoder.as_str());
        proof {
            reveal_strlit("svt-av1");
            reveal_strlit("libsvtav1");
            reveal_strlit("ab-av1 encode -e ");
            reveal_strlit(" -i ");
            reveal_strlit(" --crf ");
            reveal_strlit(" --preset ");
            reveal_strlit(" --keyint ");
            reveal_strlit(" --pix-format ");
            reveal_strlit(" --vfilter ");
            reveal_strlit(" --enc=");
        }
        let mut hint = String::new();
        push_str(&mut hint, "ab-av1 encode -e ");
        push_str(&mut hint, encoder.0.as_str());
        push_str(&mut hint, " -i ");
        let input = debug_quoted(self.input.as_str());
        push_str(&mut hint, input.as_str());
        push_str(&mut hint, " --crf ");
        let c = terse_milli(crf);
        push_str(&mut hint, c.as_str());
        let ghost head = hint@;
        if let Some(preset) = &self.preset {
            push_str(&mut hint, " --preset ");
            push_str(&mut hint, preset.as_str());
        }
        let ghost h1 = hint@;
        assert(h1 =~= head + hint_opt(" --preset "@, opt_string(self.preset)));
        if let Some(keyint) = &self.keyint {
            push_str(&mut hint, " --keyint ");
            let k = keyint.display();
            push_str(&mut hint, k.as_str());
        }
        let ghost h2 = hint@;
        assert(h2 =~= h1 + hint_opt(
            " --keyint "@,
            match self.keyint {
                Some(k) => Some(key_interval_text(k)),
                None => None,
            },
        ));
        if let Some(pix) = self.pix_format {
            push_str(&mut hint, " --pix-format ");
            push_str(&mut hint, pix.as_str());
        }
        let ghost h3 = hint@;
        assert(h3 =~= h2 + hint_opt(
            " --pix-format "@,
            match self.pix_format {
                Some(p) => Some(pixel_format_name(p)),
                None => None,
            },
        ));
        if let Some(vf) = &self.vfilter {
            push_str(&mut hint, " --vfilter ");
            let q = debug_quoted(vf.as_str());
            push_str(&mut hint, q.as_str());
        }
        let ghost h4 = hint@;
        assert(h4 =~= h3 + hint_opt(
            " --vfilter "@,
            match self.vfilter {
                Some(f) => Some(debug_text(f@)),
                None => None,
            },
        ));
        let ghost args = strings_view(self.enc_args@);
        let mut i: usize = 0;
        while i < self.enc_args.len()
            invariant
                i <= self.enc_args@.len(),
                args == strings_view(self.enc_args@),
                args.len() == self.enc_args@.len(),
                hint@ == h4 + hint_enc_args(args.take(i as int)),
            decreases self.enc_args@.len() - i,
        {
            push_str(&mut hint, " --enc=");
            push_str(&mut hint, self.enc_args[i].as_str());
            assert(args.take(i + 1).drop_last() =~= args.take(i as int));
            assert(args[i as int] == self.enc_args@[i as int]@);
            assert(hint@ =~= h4 + hint_enc_args(args.take(i + 1)));
            i = i + 1;
        }
        assert(args.take(self.enc_args@.len() as int) =~= args);
        assert(hint@ =~= spec_encode_hint(*self, crf));
        hint
    }
}

} // verus!
