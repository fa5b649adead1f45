//! Quantization of float samples to signed integers.
//!
//! A sample with magnitude `v` quantizes to `v * c` rounded toward zero,
//! where `c` is the largest value of the target integer width (127, 32767,
//! 2147483647 or 9223372036854775807). The arithmetic is exact: it works on
//! the sample's integer significand and binary point shift, so no float
//! operation is involved. Out-of-range samples clamp symmetrically to `±c`
//! rather than wrapping, and a NaN sample quantizes to 0; both choices
//! mirror how Rust's saturating float-to-integer casts treat the positive
//! range, and they are deliberate, documented policy here. At the 64-bit
//! width the scale is the exact integer maximum, which float arithmetic
//! could only approximate.

use crate::blerp::float_bits::{
    f32_is_infinite, f32_is_nan, f32_point_shift, f32_sign_bit, f32_significand, f64_is_infinite,
    f64_is_nan, f64_point_shift, f64_sign_bit, f64_significand,
};
use vstd::arithmetic::div_mod::lemma_basic_div;
use vstd::arithmetic::power2::*;
use vstd::prelude::*;

verus! {

/// Magnitude of the quantized sample: `sig / pow2(shift) * c` rounded
/// toward zero, clamped to `c`. A non-positive shift means the sample's
/// magnitude is at least one, so the result clamps.
pub open spec fn spec_quantize_mag(sig: nat, shift: int, c: nat) -> nat {
    if sig == 0 {
        0
    } else if shift <= 0 {
        c
    } else {
        let q = sig * c / pow2(shift as nat);
        if q > c {
            c
        } else {
            q
        }
    }
}

/// The quantized sample for a finite float of the given sign, significand
/// and binary point shift.
pub open spec fn spec_quantize_signed(sign: bool, sig: nat, shift: int, c: nat) -> int {
    if sign {
        -(spec_quantize_mag(sig, shift, c) as int)
    } else {
        spec_quantize_mag(sig, shift, c) as int
    }
}

/// What a 32-bit float sample quantizes to at scale `c`: NaN goes to zero,
/// infinities clamp to `±c`, finite samples round toward zero and clamp.
pub open spec fn spec_quantize_f32(b: u32, c: nat) -> int {
    if f32_is_nan(b) {
        0
    } else if f32_is_infinite(b) {
        if f32_sign_bit(b) {
            -(c as int)
        } else {
            c as int
        }
    } else {
        spec_quantize_signed(f32_sign_bit(b), f32_significand(b), f32_point_shift(b), c)
    }
}

/// What a 64-bit float sample quantizes to at scale `c`.
pub open spec fn spec_quantize_f64(b: u64, c: nat) -> int {
    if f64_is_nan(b) {
        0
    } else if f64_is_infinite(b) {
        if f64_sign_bit(b) {
            -(c as int)
        } else {
            c as int
        }
    } else {
        spec_quantize_signed(f64_sign_bit(b), f64_significand(b), f64_point_shift(b), c)
    }
}

/// Quantization only looks at the number a pattern denotes, not at its
/// width: scaling the significand and the point shift by the same power of
/// two leaves the quantized magnitude unchanged.
proof fn lemma_quantize_mag_scale(sig: nat, shift: int, d: nat, c: nat)
    requires
        1 <= c,
    ensures
        spec_quantize_mag(sig * pow2(d), shift + d, c) == spec_quantize_mag(sig, shift, c),
{
    lemma_pow2_pos(d);
    if sig == 0 {
        assert(sig * pow2(d) == 0);
    } else {
        assert(sig * pow2(d) > 0) by (nonlinear_arith)
            requires
                sig > 0,
                pow2(d) > 0,
        ;
        if shift + d <= 0 {
            // both sides saturate
        } else if shift <= 0 {
            // the narrow pattern saturates; the scaled quotient reaches the
            // clamp as well, because the sample's magnitude is at least one
            let p = pow2((shift + d) as nat);
            lemma_pow2_pos((shift + d) as nat);
            if ((shift + d) as nat) < d {
                lemma_pow2_strictly_increases((shift + d) as nat, d);
            }
            assert(sig * pow2(d) >= pow2(d)) by (nonlinear_arith)
                requires
                    sig >= 1,
                    pow2(d) > 0,
            ;
            assert(sig * pow2(d) * c >= p * c) by (nonlinear_arith)
                requires
                    sig * pow2(d) >= p,
                    c >= 1,
            ;
            vstd::arithmetic::div_mod::lemma_div_is_ordered(
                p as int * c as int,
                sig as int * pow2(d) as int * c as int,
                p as int,
            );
            vstd::arithmetic::div_mod::lemma_div_multiples_vanish(c as int, p as int);
            assert(p as int * c as int == c as int * p as int);
            assert(sig * pow2(d) * c / p >= c);
        } else {
            // both quotients are taken below the clamp; they are equal
            let sn = shift as nat;
            lemma_pow2_pos(sn);
            vstd::arithmetic::div_mod::lemma_div_multiples_vanish_quotient(
                pow2(d) as int,
                sig as int * c as int,
                pow2(sn) as int,
            );
            assert(pow2(d) as int * (sig as int * c as int) == sig as int * pow2(d) as int
                * c as int) by (nonlinear_arith);
            lemma_pow2_adds(d, sn);
            assert(pow2(d) as int * pow2(sn) as int == pow2((shift + d) as nat));
            assert(sig * c / pow2(sn) == sig * pow2(d) * c / pow2((shift + d) as nat));
        }
    }
}

/// Quantizing a widened sample gives exactly what quantizing the original
/// 32-bit sample gives: the two PCM paths agree wherever they meet.
pub proof fn lemma_quantize_widen_consistent(b: u32, c: nat)
    requires
        1 <= c,
    ensures
        spec_quantize_f64(crate::blerp::float_bits::spec_widen_f32_to_f64(b), c)
            == spec_quantize_f32(b, c),
{
    crate::blerp::float_bits::lemma_widen_preserves_value(b);
    let w = crate::blerp::float_bits::spec_widen_f32_to_f64(b);
    if f32_is_nan(b) || f32_is_infinite(b) {
    } else {
        let d = choose|d: nat|
            f64_significand(w) == f32_significand(b) * pow2(d) && f64_point_shift(w)
                == f32_point_shift(b) + d;
        lemma_quantize_mag_scale(f32_significand(b), f32_point_shift(b), d, c);
    }
}

/// pow2(120) written out, for overflow bounds on 128-bit arithmetic.
proof fn lemma_pow2_120()
    ensures
        pow2(120) == 0x1000000000000000000000000000000,
{
    lemma_pow2_adds(60, 60);
    lemma2_to64_rest();
}

/// pow2(116) written out: the bound on a significand times a scale.
proof fn lemma_pow2_116()
    ensures
        pow2(116) == 0x100000000000000000000000000000,
{
    lemma_pow2_adds(58, 58);
    lemma2_to64_rest();
}

/// 2 to the given power, as a 128-bit integer.
fn pow2_u128(e: u32) -> (r: u128)
    requires
        e <= 120,
    ensures
        r as nat == pow2(e as nat),
{
    let mut r: u128 = 1;
    let mut i: u32 = 0;
    proof {
        lemma2_to64();
    }
    while i < e
        invariant
            i <= e,
            e <= 120,
            r as nat == pow2(i as nat),
        decreases e - i,
    {
        proof {
            lemma_pow2_adds(i as nat, 1);
            lemma2_to64();
            lemma_pow2_120();
            if i as nat + 1 < 120 {
                lemma_pow2_strictly_increases(i as nat + 1, 120);
            }
        }
        r = r * 2;
        i = i + 1;
    }
    r
}

/// Quantized magnitude: `sig * c / pow2(shift)` rounded down, clamped to `c`.
fn quantize_mag(sig: u64, shift: u32, c: u64) -> (r: u64)
    requires
        1 <= shift,
        sig < 0x20000000000000,  // below pow2(53)
        1 <= c <= 0x7FFF_FFFF_FFFF_FFFF,
    ensures
        r as nat == spec_quantize_mag(sig as nat, shift as int, c as nat),
        r <= c,
{
    if sig == 0 {
        return 0;
    }
    proof {
        lemma_pow2_116();
        assert((sig as nat) * (c as nat) < 0x100000000000000000000000000000) by (nonlinear_arith)
            requires
                sig < 0x20000000000000,
                c <= 0x7FFF_FFFF_FFFF_FFFF,
        ;
    }
    let prod: u128 = sig as u128 * c as u128;
    if shift >= 117 {
        proof {
            lemma_pow2_strictly_increases(116, shift as nat);
            lemma_basic_div(prod as int, pow2(shift as nat) as int);
        }
        return 0;
    }
    let p: u128 = pow2_u128(shift);
    proof {
        lemma_pow2_pos(shift as nat);
    }
    let q: u128 = prod / p;
    if q > c as u128 {
        c
    } else {
        q as u64
    }
}

/// Quantizes one 32-bit float sample, given by its bit pattern, to scale `c`.
fn quantize_f32_core(b: u32, c: u64) -> (r: i64)
    requires
        1 <= c <= 0x7FFF_FFFF_FFFF_FFFF,
    ensures
        r as int == spec_quantize_f32(b, c as nat),
        -(c as int) <= r as int <= c as int,
{
    let sign = b / 0x8000_0000 == 1;
    let e: u32 = (b / 0x0080_0000) % 0x100;
    let f: u32 = b % 0x0080_0000;
    if e == 0xFF {
        if f != 0 {
            0
        } else if sign {
            -(c as i64)
        } else {
            c as i64
        }
    } else {
        let mag: u64 = if e >= 150 {
            c
        } else {
            let sig: u64 = if e == 0 {
                f as u64
            } else {
                (f + 0x0080_0000) as u64
            };
            let shift: u32 = 150 - (if e == 0 {
                1
            } else {
                e
            });
            quantize_mag(sig, shift, c)
        };
        if sign {
            -(mag as i64)
        } else {
            mag as i64
        }
    }
}

/// Quantizes one 64-bit float sample, given by its bit pattern, to scale `c`.
fn quantize_f64_core(b: u64, c: u64) -> (r: i64)
    requires
        1 <= c <= 0x7FFF_FFFF_FFFF_FFFF,
    ensures
        r as int == spec_quantize_f64(b, c as nat),
        -(c as int) <= r as int <= c as int,
{
    let sign = b / 0x8000_0000_0000_0000 == 1;
    let e: u64 = (b / 0x0010_0000_0000_0000) % 0x800;
    let f: u64 = b % 0x0010_0000_0000_0000;
    if e == 0x7FF {
        if f != 0 {
            0
        } else if sign {
            -(c as i64)
        } else {
            c as i64
        }
    } else {
        let mag: u64 = if e >= 1075 {
            c
        } else {
            let sig: u64 = if e == 0 {
                f
            } else {
                f + 0x0010_0000_0000_0000
            };
            let shift: u32 = (1075 - (if e == 0 {
                1
            } else {
                e
            })) as u32;
            quantize_mag(sig, shift, c)
        };
        if sign {
            -(mag as i64)
        } else {
            mag as i64
        }
    }
}

/// Quantizes a 32-bit float sample (by bit pattern) to a signed 8-bit value.
pub fn quantize_i8_f32(sample_bits: u32) -> (r: i8)
    ensures
        r as int == spec_quantize_f32(sample_bits, 127),
{
    quantize_f32_core(sample_bits, 127) as i8
}

/// Quantizes a 32-bit float sample (by bit pattern) to a signed 16-bit value.
pub fn quantize_i16_f32(sample_bits: u32) -> (r: i16)
    ensures
        r as int == spec_quantize_f32(sample_bits, 32767),
{
    quantize_f32_core(sample_bits, 32767) as i16
}

/// Quantizes a 32-bit float sample (by bit pattern) to a signed 32-bit value.
pub fn quantize_i32_f32(sample_bits: u32) -> (r: i32)
    ensures
        r as int == spec_quantize_f32(sample_bits, 2147483647),
{
    quantize_f32_core(sample_bits, 2147483647) as i32
}

/// Quantizes a 32-bit float sample (by bit pattern) to a signed 64-bit value.
pub fn quantize_i64_f32(sample_bits: u32) -> (r: i64)
    ensures
        r as int == spec_quantize_f32(sample_bits, 9223372036854775807),
{
    quantize_f32_core(sample_bits, 9223372036854775807)
}

/// Quantizes a 64-bit float sample (by bit pattern) to a signed 8-bit value.
pub fn quantize_i8_f64(sample_bits: u64) -> (r: i8)
    ensures
        r as int == spec_quantize_f64(sample_bits, 127),
{
    quantize_f64_core(sample_bits, 127) as i8
}

/// Quantizes a 64-bit float sample (by bit pattern) to a signed 16-bit value.
pub fn quantize_i16_f64(sample_bits: u64) -> (r: i16)
    ensures
        r as int == spec_quantize_f64(sample_bits, 32767),
{
    quantize_f64_core(sample_bits, 32767) as i16
}

/// Quantizes a 64-bit float sample (by bit pattern) to a signed 32-bit value.
pub fn quantize_i32_f64(sample_bits: u64) -> (r: i32)
    ensures
        r as int == spec_quantize_f64(sample_bits, 2147483647),
{
    quantize_f64_core(sample_bits, 2147483647) as i32
}

/// Quantizes a 64-bit float sample (by bit pattern) to a signed 64-bit value.
pub fn quantize_i64_f64(sample_bits: u64) -> (r: i64)
    ensures
        r as int == spec_quantize_f64(sample_bits, 9223372036854775807),
{
    quantize_f64_core(sample_bits, 9223372036854775807)
}

} // verus!
