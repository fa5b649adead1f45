//! Quantization behaviour on concrete samples.

use volt::blerp::quantize::{
    quantize_i16_f32, quantize_i16_f64, quantize_i32_f32, quantize_i32_f64, quantize_i64_f32,
    quantize_i64_f64, quantize_i8_f32, quantize_i8_f64,
};

#[test]
fn quantize_i16_boundaries() {
    assert_eq!(quantize_i16_f32(1.0f32.to_bits()), 32767);
    assert_eq!(quantize_i16_f32((-1.0f32).to_bits()), -32767);
    assert_eq!(quantize_i16_f64(1.0f64.to_bits()), 32767);
    assert_eq!(quantize_i16_f64((-1.0f64).to_bits()), -32767);
}

#[test]
fn quantize_i8_zero() {
    assert_eq!(quantize_i8_f32(0.0f32.to_bits()), 0);
    assert_eq!(quantize_i8_f64(0.0f64.to_bits()), 0);
    assert_eq!(quantize_i8_f32((-0.0f32).to_bits()), 0);
}

#[test]
fn quantize_rounds_toward_zero() {
    // 0.5 * 32767 == 16383.5, truncated toward zero
    assert_eq!(quantize_i16_f32(0.5f32.to_bits()), 16383);
    assert_eq!(quantize_i16_f64(0.5f64.to_bits()), 16383);
    assert_eq!(quantize_i16_f32((-0.5f32).to_bits()), -16383);
    // 0.5 * 127 == 63.5
    assert_eq!(quantize_i8_f32(0.5f32.to_bits()), 63);
    // 0.25 * 32767 == 8191.75
    assert_eq!(quantize_i16_f32(0.25f32.to_bits()), 8191);
    assert_eq!(quantize_i16_f64(0.25f64.to_bits()), 8191);
    // 0.75 * 127 == 95.25
    assert_eq!(quantize_i8_f64(0.75f64.to_bits()), 95);
}

#[test]
fn quantize_full_scale() {
    assert_eq!(quantize_i8_f32(1.0f32.to_bits()), 127);
    assert_eq!(quantize_i8_f32((-1.0f32).to_bits()), -127);
    assert_eq!(quantize_i32_f32(1.0f32.to_bits()), 2147483647);
    assert_eq!(quantize_i32_f64((-1.0f64).to_bits()), -2147483647);
    assert_eq!(quantize_i64_f32(1.0f32.to_bits()), 9223372036854775807);
    assert_eq!(quantize_i64_f64(1.0f64.to_bits()), 9223372036854775807);
    assert_eq!(quantize_i64_f64((-1.0f64).to_bits()), -9223372036854775807);
}

#[test]
fn quantize_clamps_out_of_range() {
    // beyond full scale the value clamps instead of wrapping
    assert_eq!(quantize_i16_f32(2.0f32.to_bits()), 32767);
    assert_eq!(quantize_i16_f32((-2.0f32).to_bits()), -32767);
    assert_eq!(quantize_i16_f64(1e300f64.to_bits()), 32767);
    assert_eq!(quantize_i8_f32(1.0000001f32.to_bits()), 127);
    assert_eq!(quantize_i16_f32(f32::INFINITY.to_bits()), 32767);
    assert_eq!(quantize_i16_f32(f32::NEG_INFINITY.to_bits()), -32767);
}

#[test]
fn quantize_nan_is_zero() {
    assert_eq!(quantize_i16_f32(f32::NAN.to_bits()), 0);
    assert_eq!(quantize_i64_f64(f64::NAN.to_bits()), 0);
}

#[test]
fn quantize_tiny_values_vanish() {
    // a subnormal sample quantizes to zero at every width
    assert_eq!(quantize_i16_f32(1e-40f32.to_bits()), 0);
    assert_eq!(quantize_i64_f64(5e-324f64.to_bits()), 0);
    assert_eq!(quantize_i64_f64((-5e-324f64).to_bits()), 0);
}

#[test]
fn quantize_matches_float_reference_where_exact() {
    // on samples whose product with the scale is exactly representable,
    // quantization agrees with the float computation it replaces
    for &x in &[0.0f32, 0.25, -0.25, 0.5, -0.5, 0.75, 1.0, -1.0] {
        assert_eq!(quantize_i16_f32(x.to_bits()), (x * 32767.0) as i16, "sample {x}");
        assert_eq!(quantize_i8_f32(x.to_bits()), (x * 127.0) as i8, "sample {x}");
    }
    for &x in &[0.0f64, 0.125, -0.125, 0.375, 1.0, -1.0] {
        assert_eq!(quantize_i16_f64(x.to_bits()), (x * 32767.0) as i16, "sample {x}");
        assert_eq!(quantize_i32_f64(x.to_bits()), (x * 2147483647.0) as i32, "sample {x}");
    }
}
