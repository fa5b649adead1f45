//! Width conversions on concrete bit patterns, checked against the
//! platform's own float casts.

use volt::blerp::float_bits::{narrow_f64_to_f32, widen_f32_to_f64};
use volt::blerp::{f32_size_to_f64_bits, f64_size_to_f32_bits};

#[test]
fn widen_matches_platform_cast() {
    let samples = [
        0.0f32,
        -0.0,
        1.0,
        -1.0,
        0.1,
        -0.1,
        0.5,
        1.5,
        -2.75,
        3.4028235e38,  // largest finite f32
        -3.4028235e38,
        1.1754944e-38,  // smallest positive normal f32
        1e-40,          // subnormal
        -1e-40,
        1e-45,          // smallest positive subnormal
        f32::INFINITY,
        f32::NEG_INFINITY,
    ];
    for &x in &samples {
        assert_eq!(
            widen_f32_to_f64(x.to_bits()),
            (x as f64).to_bits(),
            "widening {x}"
        );
    }
}

#[test]
fn widen_keeps_nan_a_nan() {
    let widened = widen_f32_to_f64(f32::NAN.to_bits());
    assert!(f64::from_bits(widened).is_nan());
}

#[test]
fn narrow_matches_platform_cast() {
    let samples = [
        0.0f64,
        -0.0,
        1.0,
        -1.0,
        0.5,
        0.1,                       // not exactly representable, must round
        -0.1,
        0.2,
        1.0 + 2f64.powi(-24),      // exact tie, rounds to even (1.0)
        1.0 + 3.0 * 2f64.powi(-24),// exact tie, rounds to even (1.0 + 2^-23)
        1.0 + 2f64.powi(-25),      // below the tie, rounds down
        16777217.0,                // 2^24 + 1, tie at integer scale
        3.4028235e38,              // largest finite f32, exact
        3.4028236e38,              // just above it, rounds to the max
        1e39,                      // far beyond f32, becomes infinity
        -1e39,
        1e300,
        1.1754944e-38,             // smallest positive normal f32
        1e-40,                     // subnormal result
        -1e-40,
        7e-46,                     // rounds to the smallest subnormal
        1e-46,                     // rounds to zero
        -1e-46,
        5e-324,                    // smallest positive f64, vanishes
        f64::INFINITY,
        f64::NEG_INFINITY,
    ];
    for &x in &samples {
        assert_eq!(
            narrow_f64_to_f32(x.to_bits()),
            (x as f32).to_bits(),
            "narrowing {x}"
        );
    }
}

#[test]
fn narrow_keeps_nan_a_nan() {
    let narrowed = narrow_f64_to_f32(f64::NAN.to_bits());
    assert!(f32::from_bits(narrowed).is_nan());
}

#[test]
fn buffer_conversions_are_elementwise() {
    let narrow_src = [0.1f64, -2.5, 1e300];
    let narrow_bits: Vec<u64> = narrow_src.iter().map(|x| x.to_bits()).collect();
    let narrowed = f64_size_to_f32_bits(&narrow_bits);
    let expected: Vec<u32> = narrow_src.iter().map(|&x| (x as f32).to_bits()).collect();
    assert_eq!(narrowed, expected);

    let widen_src = [0.1f32, -2.5, 1e-40];
    let widen_bits: Vec<u32> = widen_src.iter().map(|x| x.to_bits()).collect();
    let widened = f32_size_to_f64_bits(&widen_bits);
    let expected: Vec<u64> = widen_src.iter().map(|&x| (x as f64).to_bits()).collect();
    assert_eq!(widened, expected);
}

#[test]
fn narrow_then_widen_is_identity_on_f32_values() {
    // every number that already fits a 32-bit float survives the round trip
    for &x in &[0.0f32, -1.0, 0.1, 123.456, 1e-40, 3.4028235e38] {
        let wide = widen_f32_to_f64(x.to_bits());
        assert_eq!(narrow_f64_to_f32(wide), x.to_bits(), "round trip {x}");
    }
}
