//! The codec's error type.

use vstd::prelude::*;

verus! {

/// Errors raised by the codec itself.
///
/// I/O failures never arise here: the library only builds byte buffers, and
/// writing them to disk is the caller's business.
#[derive(Clone, Copy, Debug, PartialEq, Eq, Structural)]
pub enum VoltError {
    /// The requested (audio format, bits per sample) combination is not a
    /// supported WAVE encoding.
    InvalidSampleFormat,
}

impl VoltError {
    /// A human-readable description of the error.
    pub fn message(&self) -> (r: &'static str)
        ensures
            r@ == "Invalid bits per sample!"@,
    {
        match self {
            VoltError::InvalidSampleFormat => "Invalid bits per sample!",
        }
    }
}

} // verus!
