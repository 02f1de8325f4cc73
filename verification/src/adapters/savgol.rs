//! Savitzky-Golay smoothing parameters. The filter itself runs in the
//! savgol-rs crate over floating-point data; this module decides whether it
//! may run and with which window.
use vstd::prelude::*;

use crate::error::TvaError;
use crate::text::{decimal, push_decimal, push_str, string_from_chars};

verus! {

/// Savitzky-Golay smoothing with a window of `window` samples and a
/// polynomial of degree `polyorder`.
#[derive(Debug, Clone, Copy, PartialEq, Eq, Structural)]
pub struct SavgolSmoother {
    pub window: usize,
    pub polyorder: usize,
}

/// The message for a window too small for the polynomial.
pub open spec fn window_too_small_message(window: nat, min_exclusive: nat) -> Seq<char> {
    "window "@ + decimal(window) + " must be > polyorder+1 ("@ + decimal(min_exclusive) + ")"@
}

/// The message for a window longer than the series.
pub open spec fn window_too_long_message(window: nat, len: nat) -> Seq<char> {
    "window "@ + decimal(window) + " exceeds data length "@ + decimal(len)
}

impl SavgolSmoother {
    /// The window the filter runs with on a series of `data_len` samples:
    /// `None` for an empty series (which smooths to an empty series), an
    /// error when the window does not exceed `polyorder + 1` or exceeds the
    /// series, and otherwise the window made odd by adding one if even.
    pub fn checked_window(&self, data_len: usize) -> (r: Result<Option<usize>, TvaError>)
        requires
            data_len > 0 ==> self.polyorder < usize::MAX,
        ensures
            data_len == 0 ==> r == Ok::<Option<usize>, TvaError>(None),
            data_len > 0 && self.window <= self.polyorder + 1 ==> (r matches Err(
                TvaError::SmoothingFailed(m),
            ) && m@ == window_too_small_message(
                self.window as nat,
                (self.polyorder + 1) as nat,
            )),
            data_len > 0 && self.window > self.polyorder + 1 && self.window > data_len ==> (r matches Err(
                TvaError::SmoothingFailed(m),
            ) && m@ == window_too_long_message(self.window as nat, data_len as nat)),
            data_len > 0 && self.window > self.polyorder + 1 && self.window <= data_len ==> r
                == Ok::<Option<usize>, TvaError>(
                Some(
                    if self.window % 2 == 0 {
                        (self.window + 1) as usize
                    } else {
                        self.window
                    },
                ),
            ),
    {
        if data_len == 0 {
            return Ok(None);
        }
        if self.window <= self.polyorder + 1 {
            let mut m: Vec<char> = Vec::new();
            push_str(&mut m, "window ");
            push_decimal(&mut m, self.window as u64);
            push_str(&mut m, " must be > polyorder+1 (");
            push_decimal(&mut m, (self.polyorder + 1) as u64);
            push_str(&mut m, ")");
            return Err(TvaError::SmoothingFailed(string_from_chars(m.as_slice())));
        }
        if self.window > data_len {
            let mut m: Vec<char> = Vec::new();
            push_str(&mut m, "window ");
            push_decimal(&mut m, self.window as u64);
            push_str(&mut m, " exceeds data length ");
            push_decimal(&mut m, data_len as u64);
            return Err(TvaError::SmoothingFailed(string_from_chars(m.as_slice())));
        }
        let w = if self.window % 2 == 0 {
            self.window + 1
        } else {
            self.window
        };
        Ok(Some(w))
    }
}

} // verus!
