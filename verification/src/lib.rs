//! Audio sample codec: building uncompressed RIFF/WAVE files from in-memory
//! sample buffers, together with the sample-width and channel-layout
//! conversions that feed the encoder.
//!
//! Floating-point samples are handled through their IEEE 754 bit patterns
//! (`u32` for 32-bit samples, `u64` for 64-bit samples), so that every
//! numeric step of the codec — field extraction, quantization, widening,
//! narrowing and byte layout — is plain integer arithmetic with a proved
//! contract.

pub mod blerp;
pub mod browser;
pub mod error;

pub use error::VoltError;
