//! Views of IEEE 754 bit patterns.
//!
//! A 32-bit float sample is carried as the `u32` holding its bit pattern, a
//! 64-bit sample as the corresponding `u64`. The spec functions here read
//! the sign, the biased exponent field and the fraction field out of such a
//! pattern with plain division and remainder, and give the number the
//! pattern denotes as an exact pair: an integer significand together with a
//! binary point shift, so that a finite pattern's magnitude is
//! `significand / pow2(point_shift)` (a negative shift meaning
//! `significand * pow2(-point_shift)`).

use vstd::arithmetic::power2::{lemma2_to64, lemma_pow2_adds, lemma_pow2_strictly_increases, pow2};
use vstd::prelude::*;

verus! {

/// The sign bit of a 32-bit pattern: true means negative.
pub open spec fn f32_sign_bit(b: u32) -> bool {
    b / 0x8000_0000 == 1
}

/// The 8-bit biased exponent field of a 32-bit pattern.
pub open spec fn f32_exp_field(b: u32) -> u32 {
    (b / 0x0080_0000) % 0x100
}

/// The 23-bit fraction field of a 32-bit pattern.
pub open spec fn f32_frac_field(b: u32) -> u32 {
    b % 0x0080_0000
}

/// The integer significand: the fraction field with the implied leading one
/// added for normal numbers.
pub open spec fn f32_significand(b: u32) -> nat {
    if f32_exp_field(b) == 0 {
        f32_frac_field(b) as nat
    } else {
        (f32_frac_field(b) + 0x0080_0000) as nat
    }
}

/// How far the binary point sits left of the significand's last digit: a
/// finite 32-bit pattern's magnitude is `f32_significand / pow2(shift)`.
/// Subnormal patterns (exponent field zero) share the scale of exponent
/// field one.
pub open spec fn f32_point_shift(b: u32) -> int {
    150 - (if f32_exp_field(b) == 0 {
        1int
    } else {
        f32_exp_field(b) as int
    })
}

pub open spec fn f32_is_nan(b: u32) -> bool {
    f32_exp_field(b) == 0xFF && f32_frac_field(b) != 0
}

pub open spec fn f32_is_infinite(b: u32) -> bool {
    f32_exp_field(b) == 0xFF && f32_frac_field(b) == 0
}

pub open spec fn f32_is_finite(b: u32) -> bool {
    f32_exp_field(b) != 0xFF
}

/// The sign bit of a 64-bit pattern: true means negative.
pub open spec fn f64_sign_bit(b: u64) -> bool {
    b / 0x8000_0000_0000_0000 == 1
}

/// The 11-bit biased exponent field of a 64-bit pattern.
pub open spec fn f64_exp_field(b: u64) -> u64 {
    (b / 0x0010_0000_0000_0000) % 0x800
}

/// The 52-bit fraction field of a 64-bit pattern.
pub open spec fn f64_frac_field(b: u64) -> u64 {
    b % 0x0010_0000_0000_0000
}

/// The integer significand: the fraction field with the implied leading one
/// added for normal numbers.
pub open spec fn f64_significand(b: u64) -> nat {
    if f64_exp_field(b) == 0 {
        f64_frac_field(b) as nat
    } else {
        (f64_frac_field(b) + 0x0010_0000_0000_0000) as nat
    }
}

/// How far the binary point sits left of the significand's last digit: a
/// finite 64-bit pattern's magnitude is `f64_significand / pow2(shift)`.
pub open spec fn f64_point_shift(b: u64) -> int {
    1075 - (if f64_exp_field(b) == 0 {
        1int
    } else {
        f64_exp_field(b) as int
    })
}

pub open spec fn f64_is_nan(b: u64) -> bool {
    f64_exp_field(b) == 0x7FF && f64_frac_field(b) != 0
}

pub open spec fn f64_is_infinite(b: u64) -> bool {
    f64_exp_field(b) == 0x7FF && f64_frac_field(b) == 0
}

pub open spec fn f64_is_finite(b: u64) -> bool {
    f64_exp_field(b) != 0x7FF
}

/// Index of the highest one bit: the largest `k` with `pow2(k) <= m`, and 0
/// for 0.
pub open spec fn msb_index(m: nat) -> nat
    decreases m,
{
    if m <= 1 {
        0
    } else {
        1 + msb_index(m / 2)
    }
}

/// The defining property of `msb_index`.
pub proof fn lemma_msb_index_bounds(m: nat)
    requires
        m >= 1,
    ensures
        pow2(msb_index(m)) <= m < pow2(msb_index(m) + 1),
    decreases m,
{
    lemma2_to64();
    if m <= 1 {
    } else {
        lemma_msb_index_bounds(m / 2);
        lemma_pow2_adds(msb_index(m / 2), 1);
        lemma_pow2_adds(msb_index(m / 2) + 1, 1);
    }
}

/// The 64-bit pattern denoting the same number as the given 32-bit pattern.
/// Signs, zeros, infinities and NaN payloads carry over; a subnormal 32-bit
/// pattern becomes a normal 64-bit one. The conversion is exact: every
/// 32-bit float is representable as a 64-bit float.
pub open spec fn spec_widen_f32_to_f64(b: u32) -> u64 {
    let s: u64 = if f32_sign_bit(b) {
        0x8000_0000_0000_0000u64
    } else {
        0u64
    };
    if f32_exp_field(b) == 0xFF {
        (s + 0x7FF0_0000_0000_0000 + f32_frac_field(b) * 0x2000_0000) as u64
    } else if f32_exp_field(b) == 0 {
        if f32_frac_field(b) == 0 {
            s
        } else {
            // subnormal: normalize the fraction into an implied leading one
            let k = msb_index(f32_frac_field(b) as nat);
            (s + (873 + k) * 0x0010_0000_0000_0000 + f32_frac_field(b) * pow2((52 - k) as nat)) as u64
        }
    } else {
        (s + (f32_exp_field(b) + 896) * 0x0010_0000_0000_0000 + f32_frac_field(b) * 0x2000_0000) as u64
    }
}

/// Widens one 32-bit float sample, given by its bit pattern, to the 64-bit
/// pattern of the same number.
pub fn widen_f32_to_f64(sample_bits: u32) -> (r: u64)
    ensures
        r == spec_widen_f32_to_f64(sample_bits),
{
    let sign: u64 = if sample_bits / 0x8000_0000 == 1 {
        0x8000_0000_0000_0000
    } else {
        0
    };
    let e: u32 = (sample_bits / 0x0080_0000) % 0x100;
    let f: u32 = sample_bits % 0x0080_0000;
    if e == 0xFF {
        sign + 0x7FF0_0000_0000_0000 + (f as u64) * 0x2000_0000
    } else if e == 0 {
        if f == 0 {
            sign
        } else {
            let mut m: u32 = f;
            let mut k: u32 = 0;
            proof {
                lemma_msb_index_bounds(f as nat);
                lemma2_to64();
                if msb_index(f as nat) >= 23 {
                    if msb_index(f as nat) > 23 {
                        lemma_pow2_strictly_increases(23, msb_index(f as nat));
                    }
                    assert(false);
                }
            }
            while m >= 2
                invariant
                    m >= 1,
                    msb_index(f as nat) == k + msb_index(m as nat),
                    k <= msb_index(f as nat),
                    msb_index(f as nat) <= 22,
                decreases m,
            {
                m = m / 2;
                k = k + 1;
            }
            // now k is the index of f's highest one bit, at most 22
            let ghost kn = msb_index(f as nat);
            proof {
                assert(k == kn);
                lemma_msb_index_bounds(f as nat);
                lemma2_to64();
                vstd::arithmetic::power2::lemma_pow2_pos((52 - kn) as nat);
                // f * pow2(52 - k) stays below pow2(53)
                lemma_pow2_adds(kn + 1, (52 - kn) as nat);
                assert(f * pow2((52 - kn) as nat) < pow2(kn + 1) * pow2((52 - kn) as nat))
                    by (nonlinear_arith)
                    requires
                        f < pow2(kn + 1),
                        pow2((52 - kn) as nat) > 0,
                ;
                lemma2_to64_rest_53();
            }
            let p: u64 = pow2_u64_small(52 - k);
            sign + (873 + k as u64) * 0x0010_0000_0000_0000 + f as u64 * p
        }
    } else {
        sign + ((e + 896) as u64) * 0x0010_0000_0000_0000 + (f as u64) * 0x2000_0000
    }
}

/// Reading the fields back out of a composed 64-bit pattern.
proof fn lemma_f64_field_decompose(b: u64, sgn: u64, e: u64, f: u64)
    requires
        sgn <= 1,
        e < 0x800,
        f < 0x0010_0000_0000_0000,
        b == sgn * 0x8000_0000_0000_0000 + e * 0x0010_0000_0000_0000 + f,
    ensures
        f64_sign_bit(b) == (sgn == 1),
        f64_exp_field(b) == e,
        f64_frac_field(b) == f,
{
    assert((sgn * 0x800 + e) * 0x0010_0000_0000_0000 == sgn * 0x8000_0000_0000_0000 + e
        * 0x0010_0000_0000_0000) by (nonlinear_arith);
    vstd::arithmetic::div_mod::lemma_fundamental_div_mod_converse_div(
        b as int,
        0x0010_0000_0000_0000,
        sgn as int * 0x800 + e as int,
        f as int,
    );
    vstd::arithmetic::div_mod::lemma_fundamental_div_mod_converse_mod(
        b as int,
        0x0010_0000_0000_0000,
        sgn as int * 0x800 + e as int,
        f as int,
    );
    vstd::arithmetic::div_mod::lemma_fundamental_div_mod_converse_mod(
        sgn as int * 0x800 + e as int,
        0x800,
        sgn as int,
        e as int,
    );
    vstd::arithmetic::div_mod::lemma_fundamental_div_mod_converse_div(
        b as int,
        0x8000_0000_0000_0000,
        sgn as int,
        e as int * 0x0010_0000_0000_0000 + f as int,
    );
}

/// Widening never changes what a pattern means: the sign carries over, the
/// kind (finite, infinite, NaN) carries over, and a finite sample keeps its
/// exact value — the 64-bit significand and point shift are the 32-bit ones
/// scaled by one and the same power of two.
pub proof fn lemma_widen_preserves_value(b: u32)
    ensures
        f64_sign_bit(spec_widen_f32_to_f64(b)) == f32_sign_bit(b),
        f32_is_nan(b) == f64_is_nan(spec_widen_f32_to_f64(b)),
        f32_is_infinite(b) == f64_is_infinite(spec_widen_f32_to_f64(b)),
        f32_is_finite(b) == f64_is_finite(spec_widen_f32_to_f64(b)),
        f32_is_finite(b) ==> exists|d: nat|
            f64_significand(spec_widen_f32_to_f64(b)) == f32_significand(b) * pow2(d)
                && f64_point_shift(spec_widen_f32_to_f64(b)) == f32_point_shift(b) + d,
{
    lemma2_to64();
    vstd::arithmetic::power2::lemma2_to64_rest();
    let w = spec_widen_f32_to_f64(b);
    let sgn: u64 = if f32_sign_bit(b) {
        1u64
    } else {
        0u64
    };
    let e = f32_exp_field(b);
    let f = f32_frac_field(b);
    if e == 0xFF {
        lemma_f64_field_decompose(w, sgn, 0x7FF, (f * 0x2000_0000) as u64);
        assert(f != 0 ==> f * 0x2000_0000 != 0) by (nonlinear_arith);
        assert(f * 0x2000_0000 < 0x0010_0000_0000_0000) by (nonlinear_arith)
            requires
                f < 0x80_0000,
        ;
    } else if e == 0 && f == 0 {
        lemma_f64_field_decompose(w, sgn, 0, 0);
        // a signed zero keeps significand zero; any scaling distance closes
        // the gap between the two point shifts
        assert(f64_significand(w) == f32_significand(b) * pow2(925) && f64_point_shift(w)
            == f32_point_shift(b) + 925);
    } else if e == 0 {
        // subnormal: the widened pattern is normal at exponent field 874 + k
        let k = msb_index(f as nat);
        lemma_msb_index_bounds(f as nat);
        if k >= 23 {
            if k > 23 {
                lemma_pow2_strictly_increases(23, k);
            }
            assert(false);
        }
        lemma_pow2_adds(k + 1, (52 - k) as nat);
        vstd::arithmetic::power2::lemma_pow2_pos((52 - k) as nat);
        assert(f * pow2((52 - k) as nat) < pow2(k + 1) * pow2((52 - k) as nat)) by (nonlinear_arith)
            requires
                f < pow2(k + 1),
                pow2((52 - k) as nat) > 0,
        ;
        assert(pow2(k) * pow2((52 - k) as nat) <= f * pow2((52 - k) as nat)) by (nonlinear_arith)
            requires
                pow2(k) <= f,
                pow2((52 - k) as nat) > 0,
        ;
        lemma_pow2_adds(k, (52 - k) as nat);
        let frac64 = f * pow2((52 - k) as nat) - pow2(52);
        lemma_f64_field_decompose(w, sgn, (874 + k) as u64, frac64 as u64);
        assert(f64_significand(w) == f32_significand(b) * pow2((52 - k) as nat));
        assert(f64_point_shift(w) == f32_point_shift(b) + (52 - k));
    } else {
        // normal: the fraction moves up 29 places, the exponent is rebiased
        assert(f * 0x2000_0000 < 0x0010_0000_0000_0000) by (nonlinear_arith)
            requires
                f < 0x80_0000,
        ;
        lemma_f64_field_decompose(w, sgn, (e + 896) as u64, (f * 0x2000_0000) as u64);
        assert((f + 0x80_0000) * 0x2000_0000 == f * 0x2000_0000 + 0x0010_0000_0000_0000)
            by (nonlinear_arith);
        assert(pow2(29) == 0x2000_0000);
        assert(f64_significand(w) == f32_significand(b) * pow2(29));
        assert(f64_point_shift(w) == f32_point_shift(b) + 29);
    }
}

/// Round-to-nearest-even of `m / pow2(sh)`: the quotient rounded down, plus
/// one when the remainder is over half a unit, or exactly half a unit next
/// to an odd quotient.
pub open spec fn spec_rne_div_pow2(m: nat, sh: nat) -> nat {
    if sh == 0 {
        m
    } else {
        let base = m / pow2(sh);
        let rem = m % pow2(sh);
        let half = pow2((sh - 1) as nat);
        if rem > half || (rem == half && base % 2 == 1) {
            base + 1
        } else {
            base
        }
    }
}

/// The 32-bit pattern nearest (ties to even) to the number the given 64-bit
/// pattern denotes. Values beyond the 32-bit range become infinities of the
/// same sign; subnormal results flush through the same rounding; a NaN
/// becomes the quiet NaN of the same sign.
pub open spec fn spec_narrow_f64_to_f32(b: u64) -> u32 {
    let s: u32 = if f64_sign_bit(b) {
        0x8000_0000u32
    } else {
        0u32
    };
    if f64_exp_field(b) == 0x7FF {
        if f64_frac_field(b) != 0 {
            (s + 0x7FC0_0000) as u32
        } else {
            (s + 0x7F80_0000) as u32
        }
    } else if f64_significand(b) == 0 {
        s
    } else {
        let sig = f64_significand(b);
        let e = -f64_point_shift(b);  // the sample is sig * pow2(e)
        let r0 = e + msb_index(sig);  // floor of its base-2 logarithm
        let t0: int = if r0 >= -126 {
            r0 - 23
        } else {
            -149
        };  // exponent of the result's unit in the last place
        let q0: nat = if e >= t0 {
            sig * pow2((e - t0) as nat)
        } else {
            spec_rne_div_pow2(sig, (t0 - e) as nat)
        };
        // rounding may carry into the next binade
        let q: nat = if q0 == 0x100_0000 {
            0x80_0000 as nat
        } else {
            q0
        };
        let t: int = if q0 == 0x100_0000 {
            t0 + 1
        } else {
            t0
        };
        if t > 104 {
            (s + 0x7F80_0000) as u32
        } else {
            (s + (t + 149) * 0x80_0000 + q) as u32
        }
    }
}

/// `x < pow2(a + b)` bounds the quotient: `x / pow2(b) < pow2(a)`.
proof fn lemma_div_pow2_lt(x: nat, a: nat, b: nat)
    requires
        x < pow2(a + b),
    ensures
        x / pow2(b) < pow2(a),
{
    vstd::arithmetic::power2::lemma_pow2_pos(b);
    lemma_pow2_adds(a, b);
    vstd::arithmetic::mul::lemma_mul_is_commutative(pow2(a) as int, pow2(b) as int);
    vstd::arithmetic::div_mod::lemma_multiply_divide_lt(
        x as int,
        pow2(b) as int,
        pow2(a) as int,
    );
}

/// Round-to-nearest-even of `m / pow2(sh)`, executable.
fn rne_div_pow2(m: u64, sh: u32) -> (r: u64)
    requires
        1 <= sh,
        m < 0x20000000000000,  // below pow2(53)
    ensures
        r as nat == spec_rne_div_pow2(m as nat, sh as nat),
{
    proof {
        lemma2_to64_rest_53();
    }
    if sh >= 54 {
        proof {
            lemma_pow2_strictly_increases(53, sh as nat);
            if sh > 54 {
                lemma_pow2_strictly_increases(53, (sh - 1) as nat);
            }
            vstd::arithmetic::div_mod::lemma_basic_div(m as int, pow2(sh as nat) as int);
            vstd::arithmetic::power2::lemma_pow2_pos(sh as nat);
            assert(m as nat % pow2(sh as nat) == m as nat) by {
                vstd::arithmetic::div_mod::lemma_small_mod(m as nat, pow2(sh as nat));
            }
        }
        return 0;
    }
    let p: u64 = pow2_u64_small(sh);
    let half: u64 = pow2_u64_small(sh - 1);
    proof {
        vstd::arithmetic::power2::lemma_pow2_pos(sh as nat);
        vstd::arithmetic::power2::lemma_pow2_pos((sh - 1) as nat);
        lemma_pow2_adds((sh - 1) as nat, 1);
        lemma2_to64();
    }
    let base = m / p;
    let rem = m % p;
    if rem > half || (rem == half && base % 2 == 1) {
        base + 1
    } else {
        base
    }
}

/// Narrows one 64-bit float sample, given by its bit pattern, to the
/// nearest 32-bit pattern, ties to even.
pub fn narrow_f64_to_f32(sample_bits: u64) -> (r: u32)
    ensures
        r == spec_narrow_f64_to_f32(sample_bits),
{
    let sign: u32 = if sample_bits / 0x8000_0000_0000_0000 == 1 {
        0x8000_0000
    } else {
        0
    };
    let e_field: u64 = (sample_bits / 0x0010_0000_0000_0000) % 0x800;
    let f_field: u64 = sample_bits % 0x0010_0000_0000_0000;
    if e_field == 0x7FF {
        if f_field != 0 {
            return sign + 0x7FC0_0000;
        } else {
            return sign + 0x7F80_0000;
        }
    }
    let sig: u64 = if e_field == 0 {
        f_field
    } else {
        f_field + 0x0010_0000_0000_0000
    };
    if sig == 0 {
        return sign;
    }
    let e: i32 = (if e_field == 0 {
        1
    } else {
        e_field as i32
    }) - 1075;
    // index of the significand's highest one bit
    let mut m: u64 = sig;
    let mut k: u32 = 0;
    proof {
        lemma_msb_index_bounds(sig as nat);
        lemma2_to64_rest_53();
        assert(sig < 0x20000000000000);
        if msb_index(sig as nat) >= 53 {
            if msb_index(sig as nat) > 53 {
                lemma_pow2_strictly_increases(53, msb_index(sig as nat));
            }
            assert(pow2(msb_index(sig as nat)) >= pow2(53));
            assert(false);
        }
    }
    while m >= 2
        invariant
            m >= 1,
            msb_index(sig as nat) == k + msb_index(m as nat),
            k <= msb_index(sig as nat),
            msb_index(sig as nat) <= 52,
        decreases m,
    {
        m = m / 2;
        k = k + 1;
    }
    let ghost kn = msb_index(sig as nat);
    proof {
        lemma_msb_index_bounds(sig as nat);
    }
    let r0: i32 = e + k as i32;
    let t0: i32 = if r0 >= -126 {
        r0 - 23
    } else {
        -149
    };
    let q0: u64 = if e >= t0 {
        // the value is exactly representable at the target scale
        proof {
            lemma_pow2_adds(kn + 1, (e - t0) as nat);
            vstd::arithmetic::power2::lemma_pow2_pos((e - t0) as nat);
            assert(sig * pow2((e - t0) as nat) < pow2(kn + 1) * pow2((e - t0) as nat))
                by (nonlinear_arith)
                requires
                    sig < pow2(kn + 1),
                    pow2((e - t0) as nat) > 0,
            ;
            if (kn + 1 + (e - t0)) < 25 {
                lemma_pow2_strictly_increases((kn + 1 + (e - t0) as int) as nat, 25);
            }
            lemma2_to64();
        }
        sig * pow2_u64_small((e - t0) as u32)
    } else {
        rne_div_pow2(sig, (t0 - e) as u32)
    };
    proof {
        lemma2_to64();
        lemma2_to64_rest_53();
        if e < t0 {
            // bound the rounded quotient by pow2(24)
            let sh = (t0 - e) as nat;
            if r0 < -126 {
                // subnormal target: the value is below pow2(-126)
                assert(kn + 1 <= sh + 23);
                lemma_pow2_adds(23, sh);
                if kn + 1 < sh + 23 {
                    lemma_pow2_strictly_increases(kn + 1, sh + 23);
                }
                lemma_div_pow2_lt(sig as nat, 23, sh);
            } else {
                // normal target: sh == kn - 23
                assert(sh + 24 == kn + 1);
                lemma_pow2_adds(24, sh);
                lemma_div_pow2_lt(sig as nat, 24, sh);
            }
        }
    }
    let mut q: u64 = q0;
    let mut t: i32 = t0;
    if q0 == 0x100_0000 {
        q = 0x80_0000;
        t = t0 + 1;
    }
    if t > 104 {
        sign + 0x7F80_0000
    } else {
        sign + ((t + 149) as u32) * 0x80_0000 + q as u32
    }
}

/// A value squeezed between two adjacent powers of two pins the index of
/// its highest one bit.
proof fn lemma_msb_index_unique(m: nat, j: nat)
    requires
        pow2(j) <= m < pow2(j + 1),
    ensures
        msb_index(m) == j,
{
    vstd::arithmetic::power2::lemma_pow2_pos(j);
    lemma_msb_index_bounds(m);
    let i = msb_index(m);
    if i < j {
        lemma_pow2_strictly_increases(i + 1, j + 1);
        if i + 1 < j {
            lemma_pow2_strictly_increases(i + 1, j);
        }
        assert(false);
    }
    if i > j {
        lemma_pow2_strictly_increases(j + 1, i + 1);
        if j + 1 < i {
            lemma_pow2_strictly_increases(j + 1, i);
        }
        assert(false);
    }
}

/// Putting a 32-bit pattern back together from its three fields.
proof fn lemma_f32_recompose(b: u32)
    ensures
        b == (if f32_sign_bit(b) {
            0x8000_0000u32
        } else {
            0u32
        }) + f32_exp_field(b) * 0x80_0000 + f32_frac_field(b),
{
    let q = b as int / 0x80_0000;
    vstd::arithmetic::div_mod::lemma_fundamental_div_mod(b as int, 0x80_0000);
    vstd::arithmetic::div_mod::lemma_fundamental_div_mod(q, 0x100);
    vstd::arithmetic::div_mod::lemma_div_denominator(b as int, 0x80_0000, 0x100);
    assert(0x80_0000int * (0x100int * (q / 0x100) + q % 0x100) == (q / 0x100) * 0x8000_0000 + (q
        % 0x100) * 0x80_0000) by (nonlinear_arith);
}

/// Narrowing a widened sample gives the very pattern that was widened: the
/// two width conversions cancel on every sample but a NaN (which keeps its
/// sign and NaN-ness but is canonicalized).
pub proof fn lemma_narrow_widen_roundtrip(b: u32)
    requires
        !f32_is_nan(b),
    ensures
        spec_narrow_f64_to_f32(spec_widen_f32_to_f64(b)) == b,
{
    lemma2_to64();
    vstd::arithmetic::power2::lemma2_to64_rest();
    lemma_f32_recompose(b);
    let w = spec_widen_f32_to_f64(b);
    let sgn: u64 = if f32_sign_bit(b) {
        1u64
    } else {
        0u64
    };
    let e = f32_exp_field(b);
    let f = f32_frac_field(b);
    if e == 0xFF {
        // an infinity comes back as the infinity of the same sign
        lemma_f64_field_decompose(w, sgn, 0x7FF, 0);
    } else if e == 0 && f == 0 {
        // a signed zero comes back as the same signed zero
        lemma_f64_field_decompose(w, sgn, 0, 0);
    } else if e == 0 {
        // subnormal: the widened pattern sits at exponent field 874 + k
        let k = msb_index(f as nat);
        let d = (52 - k) as nat;
        lemma_msb_index_bounds(f as nat);
        if k >= 23 {
            if k > 23 {
                lemma_pow2_strictly_increases(23, k);
            }
            assert(false);
        }
        lemma_pow2_adds(k + 1, d);
        lemma_pow2_adds(k, d);
        vstd::arithmetic::power2::lemma_pow2_pos(d);
        assert(f * pow2(d) < pow2(k + 1) * pow2(d)) by (nonlinear_arith)
            requires
                f < pow2(k + 1),
                pow2(d) > 0,
        ;
        assert(pow2(k) * pow2(d) <= f * pow2(d)) by (nonlinear_arith)
            requires
                pow2(k) <= f,
                pow2(d) > 0,
        ;
        let frac64 = f * pow2(d) - pow2(52);
        lemma_f64_field_decompose(w, sgn, (874 + k) as u64, frac64 as u64);
        assert(f64_significand(w) == f * pow2(d));
        // the significand's top bit is bit 52, so the target is subnormal
        assert(pow2(52) <= f * pow2(d) < pow2(53)) by {
            lemma_pow2_adds(k, d);
            lemma_pow2_adds(k + 1, d);
            if (k + 1 + d) < 53 {
                lemma_pow2_strictly_increases(k + 1 + d, 53);
            }
        }
        lemma_msb_index_unique((f * pow2(d)) as nat, 52);
        // dividing the scaled significand back down restores the fraction
        vstd::arithmetic::mul::lemma_mul_is_commutative(f as int, pow2(d) as int);
        vstd::arithmetic::div_mod::lemma_div_multiples_vanish(f as int, pow2(d) as int);
        vstd::arithmetic::div_mod::lemma_mod_multiples_basic(f as int, pow2(d) as int);
        assert(spec_rne_div_pow2((f * pow2(d)) as nat, d) == f) by {
            vstd::arithmetic::power2::lemma_pow2_pos((d - 1) as nat);
        }
    } else {
        // normal: the fraction moved up 29 places and comes back down
        let sig: nat = (f + 0x80_0000) as nat;
        assert(f * 0x2000_0000 < 0x0010_0000_0000_0000) by (nonlinear_arith)
            requires
                f < 0x80_0000,
        ;
        lemma_f64_field_decompose(w, sgn, (e + 896) as u64, (f * 0x2000_0000) as u64);
        assert((f + 0x80_0000) * 0x2000_0000 == f * 0x2000_0000 + 0x0010_0000_0000_0000)
            by (nonlinear_arith);
        assert(f64_significand(w) == sig * pow2(29));
        assert(pow2(52) <= sig * pow2(29) < pow2(53)) by {
            lemma_pow2_adds(23, 29);
            lemma_pow2_adds(24, 29);
            assert(pow2(23) * pow2(29) <= sig * pow2(29) < pow2(24) * pow2(29))
                by (nonlinear_arith)
                requires
                    pow2(23) <= sig < pow2(24),
                    pow2(29) > 0,
            ;
        }
        lemma_msb_index_unique(sig * pow2(29), 52);
        vstd::arithmetic::mul::lemma_mul_is_commutative(sig as int, pow2(29) as int);
        vstd::arithmetic::div_mod::lemma_div_multiples_vanish(sig as int, pow2(29) as int);
        vstd::arithmetic::div_mod::lemma_mod_multiples_basic(sig as int, pow2(29) as int);
        assert(spec_rne_div_pow2(sig * pow2(29), 29) == sig) by {
            vstd::arithmetic::power2::lemma_pow2_pos(28);
        }
        assert(spec_narrow_f64_to_f32(w) == b);
    }
}

/// pow2(53) written out.
proof fn lemma2_to64_rest_53()
    ensures
        pow2(53) == 0x20000000000000,
{
    vstd::arithmetic::power2::lemma2_to64_rest();
}

/// 2 to the given power as a 64-bit integer, for exponents up to 62.
fn pow2_u64_small(e: u32) -> (r: u64)
    requires
        e <= 62,
    ensures
        r as nat == pow2(e as nat),
{
    let mut r: u64 = 1;
    let mut i: u32 = 0;
    proof {
        lemma2_to64();
    }
    while i < e
        invariant
            i <= e,
            e <= 62,
            r as nat == pow2(i as nat),
        decreases e - i,
    {
        proof {
            lemma_pow2_adds(i as nat, 1);
            lemma2_to64();
            if i as nat + 1 < 63 {
                lemma_pow2_strictly_increases(i as nat + 1, 63);
            }
            vstd::arithmetic::power2::lemma2_to64_rest();
        }
        r = r * 2;
        i = i + 1;
    }
    r
}

} // verus!
