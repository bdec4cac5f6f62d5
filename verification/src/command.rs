//! The logic of ab-av1's commands.
pub mod encoders;
pub mod xpsnr;
pub mod crf_search;
pub mod sample_encode;
pub mod args;
pub mod encode;
pub mod sample_vmaf;
