//! Sample conversion layer: elementary buffer transformations used to
//! prepare audio buffers before encoding.

pub mod device;
pub mod float_bits;
pub mod quantize;
pub mod wavefile;

use crate::blerp::float_bits::{
    narrow_f64_to_f32, spec_narrow_f64_to_f32, spec_widen_f32_to_f64, widen_f32_to_f64,
};
use vstd::prelude::*;

verus! {

/// Projects a mono buffer onto a two-channel interleaved layout by
/// duplicating every sample into an adjacent pair. No channel-mixing math
/// is performed. Works for any copyable sample representation, in
/// particular the bit patterns of 32-bit and 64-bit float samples.
pub fn samples_mono_to_stereo<T: Copy>(samples: &Vec<T>) -> (r: Vec<T>)
    ensures
        r@.len() == 2 * samples@.len(),
        forall|i: int|
            0 <= i < samples@.len() ==> r@[2 * i] == samples@[i] && r@[2 * i + 1] == samples@[i],
{
    let mut out: Vec<T> = Vec::new();
    let mut i: usize = 0;
    while i < samples.len()
        invariant
            i <= samples@.len(),
            out@.len() == 2 * i,
            forall|j: int| 0 <= j < i ==> out@[2 * j] == samples@[j] && out@[2 * j + 1] == samples@[j],
        decreases samples@.len() - i,
    {
        let x = samples[i];
        out.push(x);
        out.push(x);
        i += 1;
    }
    out
}

/// Narrows a buffer of 64-bit float samples (by bit pattern) to 32-bit
/// ones, elementwise, rounding to nearest with ties to even.
pub fn f64_size_to_f32_bits(samples: &Vec<u64>) -> (r: Vec<u32>)
    ensures
        r@.len() == samples@.len(),
        forall|i: int| 0 <= i < samples@.len() ==> r@[i] == spec_narrow_f64_to_f32(samples@[i]),
{
    let mut out: Vec<u32> = Vec::new();
    let mut i: usize = 0;
    while i < samples.len()
        invariant
            i <= samples@.len(),
            out@.len() == i,
            forall|j: int| 0 <= j < i ==> out@[j] == spec_narrow_f64_to_f32(samples@[j]),
        decreases samples@.len() - i,
    {
        out.push(narrow_f64_to_f32(samples[i]));
        i = i + 1;
    }
    out
}

/// Widens a buffer of 32-bit float samples (by bit pattern) to 64-bit
/// ones, elementwise and exactly.
pub fn f32_size_to_f64_bits(samples: &Vec<u32>) -> (r: Vec<u64>)
    ensures
        r@.len() == samples@.len(),
        forall|i: int| 0 <= i < samples@.len() ==> r@[i] == spec_widen_f32_to_f64(samples@[i]),
{
    let mut out: Vec<u64> = Vec::new();
    let mut i: usize = 0;
    while i < samples.len()
        invariant
            i <= samples@.len(),
            out@.len() == i,
            forall|j: int| 0 <= j < i ==> out@[j] == spec_widen_f32_to_f64(samples@[j]),
        decreases samples@.len() - i,
    {
        out.push(widen_f32_to_f64(samples[i]));
        i = i + 1;
    }
    out
}

} // verus!
