//! Receivers of analysis progress.
use vstd::prelude::*;

verus! {

/// The receiver that ignores every event, for batch runs where nobody listens.
#[derive(Debug, Clone, Copy, PartialEq, Eq, Structural)]
pub struct NullSink;

} // verus!
