//! Verified core of ab-av1: output parsing, argument building and the
//! crf search decisions of an AV1 encoding tool.
pub mod text;
pub mod decimal;
pub mod duration;
pub mod ratio;
pub mod literal;
pub mod process;
pub mod vmaf;
pub mod xpsnr;
pub mod command;
pub mod temporary;
pub mod ffmpeg;
pub mod ffprobe;
pub mod cuda;
pub mod svtav1;
pub mod x264;
pub mod log;
pub mod score_stream;
pub mod sample;
