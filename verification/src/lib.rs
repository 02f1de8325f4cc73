//! Temporal video analysis: duplicate-frame streaks, screen tears, frame
//! differences and the small parsers around them, with their contracts
//! checked by Verus.
#![allow(unused_imports)]

use vstd::prelude::*;

pub mod error;
pub mod events;
pub mod fraction;
pub mod adapters;
pub mod degradation;
pub mod detect;
pub mod metrics;
pub mod output;
pub mod pipeline;
pub mod pixel_buffer;
pub mod raw_source;
pub mod resolution;
pub mod scale;
pub mod sums;
pub mod text;

pub use error::TvaError;
pub use fraction::Fraction;
pub use pixel_buffer::PixelBuffer;
