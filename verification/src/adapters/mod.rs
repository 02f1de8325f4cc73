//! Comparators, smoothers and decoders for the analysis loop.
pub mod ffmpeg_native;
pub mod identity_smoother;
pub mod image_compare;
pub mod image_seq;
pub mod metric;
pub mod native;
pub mod savgol;
