use snn_core::{add_sat, fixed_mul, sub_sat, Fixed, FRACTIONAL_BITS, SCALE};

fn reference_mul(a: i32, b: i32) -> i32 {
    ((a as i64 * b as i64) >> 16) as i32
}

#[test]
fn constants() {
    assert_eq!(FRACTIONAL_BITS, 16);
    assert_eq!(SCALE, 1 << 16);
    let one: Fixed = SCALE;
    assert_eq!(one, 65536);
}

#[test]
fn mul_exact_values() {
    // 1.0 * 1.0 = 1.0
    assert_eq!(fixed_mul(65536, 65536), 65536);
    // 0.5 * 0.5 = 0.25
    assert_eq!(fixed_mul(32768, 32768), 16384);
    // -1.0 * 0.5 = -0.5
    assert_eq!(fixed_mul(-65536, 32768), -32768);
    // 3.0 * 2.5 = 7.5
    assert_eq!(fixed_mul(3 * 65536, 163840), 491520);
    assert_eq!(fixed_mul(0, 12345), 0);
    assert_eq!(fixed_mul(12345, 0), 0);
}

#[test]
fn mul_rounds_toward_negative_infinity() {
    // the smallest positive value times itself vanishes
    assert_eq!(fixed_mul(1, 1), 0);
    // a tiny negative product rounds down to the smallest negative value
    assert_eq!(fixed_mul(-1, 1), -1);
    assert_eq!(fixed_mul(1, -1), -1);
    assert_eq!(fixed_mul(-1, -1), 0);
    assert_eq!(fixed_mul(-3, 32768), -2);
}

#[test]
fn mul_wraps_on_narrowing() {
    assert_eq!(fixed_mul(i32::MIN, i32::MIN), 0);
    assert_eq!(fixed_mul(i32::MAX, i32::MAX), -65536);
    assert_eq!(fixed_mul(i32::MIN, i32::MAX), 32768);
    // 32768.0 does not fit: 2^15 * 2^16 wraps to the minimum
    assert_eq!(fixed_mul(1 << 30, 1 << 17), i32::MIN);
}

#[test]
fn mul_agrees_with_the_64_bit_formula() {
    let samples = [
        i32::MIN, i32::MIN + 1, -70000, -65537, -65536, -65535, -32768, -3, -2, -1, 0, 1, 2, 3, 655, 786,
        32767, 32768, 62914, 65535, 65536, 65537, 1 << 20, i32::MAX - 1, i32::MAX,
    ];
    for &a in samples.iter() {
        for &b in samples.iter() {
            assert_eq!(fixed_mul(a, b), reference_mul(a, b));
        }
    }
}

#[test]
fn add_saturates() {
    assert_eq!(add_sat(1, 2), 3);
    assert_eq!(add_sat(-5, 2), -3);
    assert_eq!(add_sat(i32::MAX, 1), i32::MAX);
    assert_eq!(add_sat(i32::MAX, i32::MAX), i32::MAX);
    assert_eq!(add_sat(i32::MIN, -1), i32::MIN);
    assert_eq!(add_sat(i32::MIN, i32::MIN), i32::MIN);
    assert_eq!(add_sat(i32::MAX, i32::MIN), -1);
    for &(a, b) in [(0, 0), (i32::MAX, -1), (i32::MIN, 1), (123, -456), (1 << 30, 1 << 30)].iter() {
        assert_eq!(add_sat(a, b), a.saturating_add(b));
    }
}

#[test]
fn sub_saturates() {
    assert_eq!(sub_sat(5, 3), 2);
    assert_eq!(sub_sat(3, 5), -2);
    assert_eq!(sub_sat(i32::MIN, 1), i32::MIN);
    assert_eq!(sub_sat(i32::MAX, -1), i32::MAX);
    assert_eq!(sub_sat(0, i32::MIN), i32::MAX);
    assert_eq!(sub_sat(-1, i32::MIN), i32::MAX);
    for &(a, b) in [(0, 0), (i32::MAX, 1), (i32::MIN, -1), (123, -456), (-(1 << 30), 1 << 31 - 1)].iter() {
        assert_eq!(sub_sat(a, b), a.saturating_sub(b));
    }
}

#[test]
fn conversion_round_trip_stays_within_one_step() {
    // the conversion at the boundary is `x * 65536` truncated; going back
    // divides by 65536
    for &x in [0.0f32, 0.25, 0.7, 1.0, -1.0, 3.1415, -2.71828, 100.5, -32767.0, 32767.0].iter() {
        let fixed = (x * SCALE as f32) as i32;
        let back = fixed as f32 / SCALE as f32;
        assert!((back - x).abs() <= 1.0 / 65536.0);
        // multiplying by one keeps the value
        assert_eq!(fixed_mul(fixed, SCALE), fixed);
    }
}
