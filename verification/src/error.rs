//! The error type shared by every fallible operation of the library.
use vstd::prelude::*;

verus! {

/// Everything that can go wrong while analysing frames.
#[derive(Debug)]
pub enum TvaError {
    /// A pixel buffer's byte count does not match its dimensions.
    SizeMismatch { expected: usize, got: usize },
    /// A frame carried no pixel data.
    EmptyFrame,
    /// A frame comparison could not be carried out.
    CompareFailed(String),
    /// A smoothing filter refused its parameters or its input.
    SmoothingFailed(String),
    /// The resolution detector could not run.
    FftFailed(String),
    /// A source could not be opened or decoded.
    Decode(String),
    /// The requested adapter was compiled out; the payload names the feature.
    AdapterNotEnabled(&'static str),
    /// A report could not be serialised.
    Serialization(String),
    /// A CSV report could not be written.
    Csv(String),
    /// The metric name is not one of the known comparators.
    UnknownMetric(String),
    /// A scale target such as `720p` or `854x480` could not be parsed.
    BadScale(String),
}

} // verus!
