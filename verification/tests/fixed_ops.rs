use pathtrace::fixed::{
    fp_add, fp_div, fp_mul, fp_sqrt, fp_sin, fp_cos, isqrt64, FP_MAX, HALF_PI_FP, PI_FP, SCALE,
    TWO_PI_FP,
};
use pathtrace::color::Color;

#[test]
fn unit_is_multiplicative_identity() {
    assert_eq!(fp_mul(SCALE, SCALE), SCALE);
    assert_eq!(fp_mul(12345, SCALE), 12345);
    assert_eq!(fp_mul(SCALE, -9876), -9876);
}

#[test]
fn half_times_half_is_quarter() {
    assert_eq!(fp_mul(32768, 32768), 16384);
}

#[test]
fn products_saturate_instead_of_overflowing() {
    assert_eq!(fp_mul(FP_MAX, FP_MAX), FP_MAX);
    assert_eq!(fp_mul(-FP_MAX, FP_MAX), -FP_MAX);
}

#[test]
fn addition_saturates() {
    assert_eq!(fp_add(FP_MAX, FP_MAX), FP_MAX);
    assert_eq!(fp_add(-FP_MAX, -FP_MAX), -FP_MAX);
    assert_eq!(fp_add(SCALE, SCALE), 2 * SCALE);
}

#[test]
fn division_by_zero_clamps_to_signed_infinity() {
    assert_eq!(fp_div(SCALE, 0), FP_MAX);
    assert_eq!(fp_div(-SCALE, 0), -FP_MAX);
}

#[test]
fn division_exact_values() {
    assert_eq!(fp_div(SCALE, 2 * SCALE), SCALE / 2);
    assert_eq!(fp_div(3 * SCALE, 2 * SCALE), 3 * SCALE / 2);
    assert_eq!(fp_div(-SCALE, 2 * SCALE), -(SCALE / 2));
}

#[test]
fn integer_square_roots() {
    assert_eq!(isqrt64(0), 0);
    assert_eq!(isqrt64(144), 12);
    assert_eq!(isqrt64(145), 12);
    assert_eq!(isqrt64(u64::MAX), 4294967295);
}

#[test]
fn fixed_square_roots() {
    assert_eq!(fp_sqrt(4 * SCALE), 2 * SCALE);
    assert_eq!(fp_sqrt(SCALE), SCALE);
    assert_eq!(fp_sqrt(0), 0);
}

#[test]
fn sine_zeroes_and_peak() {
    assert_eq!(fp_sin(0), 0);
    assert_eq!(fp_sin(PI_FP), 0);
    let peak = fp_sin(HALF_PI_FP);
    assert!(peak > 60000 && peak <= SCALE, "peak {peak}");
    let trough = fp_sin(PI_FP + HALF_PI_FP);
    assert!(trough < -60000 && trough >= -SCALE, "trough {trough}");
}

#[test]
fn cosine_is_shifted_sine() {
    assert_eq!(fp_cos(0), fp_sin(HALF_PI_FP));
    assert!(fp_cos(TWO_PI_FP) >= 60000);
    let at_pi = fp_cos(PI_FP);
    assert!(at_pi < -60000, "cos(pi) {at_pi}");
}

#[test]
fn white_and_black_display_bytes() {
    assert_eq!(Color::white().to_rgba8(), [255, 255, 255, 255]);
    assert_eq!(Color::black().to_rgba8(), [0, 0, 0, 255]);
    let half = Color::new(32768, 32768, 32768);
    assert_eq!(half.to_rgba8(), [127, 127, 127, 255]);
}

#[test]
fn clamp_limits_channels_to_one_unit() {
    let c = Color::new(3 * SCALE, -5, 100).clamp();
    assert_eq!(c, Color::new(SCALE, 0, 100));
}
