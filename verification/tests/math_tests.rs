use funmarket_pump::errors::ErrorCode;
use funmarket_pump::math::{
    div_ceil_u128, exp_fixed_pos, exp_fixed_signed, ln_fixed, LN2_SCALED, MAX_EXP_INPUT, SCALE,
};

#[test]
fn div_ceil_rounds_up() {
    assert_eq!(div_ceil_u128(7, 2), Ok(4));
    assert_eq!(div_ceil_u128(6, 2), Ok(3));
    assert_eq!(div_ceil_u128(0, 5), Ok(0));
    assert_eq!(div_ceil_u128(1, 1_000_000_000), Ok(1));
}

#[test]
fn div_ceil_rejects_zero_divisor() {
    assert_eq!(div_ceil_u128(7, 0), Err(ErrorCode::MathOverflow));
}

#[test]
fn div_ceil_rejects_unrepresentable_addend() {
    assert_eq!(div_ceil_u128(u128::MAX, 2), Err(ErrorCode::MathOverflow));
}

#[test]
fn exp_of_zero_is_one() {
    assert_eq!(exp_fixed_pos(0), Ok(SCALE));
}

#[test]
fn exp_of_ln2_is_exactly_two() {
    // ln 2 reduces to k = 1 with residual 0, so the series is exact.
    assert_eq!(exp_fixed_pos(LN2_SCALED), Ok(2 * SCALE));
    assert_eq!(exp_fixed_pos(2 * LN2_SCALED), Ok(4 * SCALE));
}

#[test]
fn exp_of_one_is_near_e() {
    let v = exp_fixed_pos(SCALE).unwrap();
    // e = 2.718281828...
    assert!(v > 2_708_000_000, "exp(1) too small: {v}");
    assert!(v < 2_728_000_000, "exp(1) too large: {v}");
}

#[test]
fn exp_rejects_oversized_input() {
    assert_eq!(exp_fixed_pos(MAX_EXP_INPUT + 1), Err(ErrorCode::MathOverflow));
    assert_eq!(
        exp_fixed_signed((MAX_EXP_INPUT as i128) + 1),
        Err(ErrorCode::MathOverflow)
    );
    assert_eq!(
        exp_fixed_signed(-(MAX_EXP_INPUT as i128) - 1),
        Err(ErrorCode::MathOverflow)
    );
}

#[test]
fn exp_signed_negative_is_reciprocal() {
    // exp(-ln 2) = 1/2 exactly, because exp(ln 2) is exact.
    assert_eq!(exp_fixed_signed(-(LN2_SCALED as i128)), Ok(SCALE / 2));
    assert_eq!(exp_fixed_signed(0), Ok(SCALE));
    let small = exp_fixed_signed(-(SCALE as i128)).unwrap();
    assert!(small <= SCALE);
    assert!(small > 0);
}

#[test]
fn ln_of_one_is_zero() {
    assert_eq!(ln_fixed(SCALE), Ok(0));
}

#[test]
fn ln_of_two_is_ln2() {
    // 2.0 normalizes to mantissa 1.0 and exponent 1, so the series is exact.
    assert_eq!(ln_fixed(2 * SCALE), Ok(LN2_SCALED));
    assert_eq!(ln_fixed(4 * SCALE), Ok(2 * LN2_SCALED));
}

#[test]
fn ln_rejects_inputs_below_one() {
    assert_eq!(ln_fixed(SCALE - 1), Err(ErrorCode::MathOverflow));
    assert_eq!(ln_fixed(0), Err(ErrorCode::MathOverflow));
}

#[test]
fn ln_exp_round_trip_is_close() {
    for x in [SCALE / 2, SCALE, 3 * SCALE, 10 * SCALE] {
        let e = exp_fixed_pos(x).unwrap();
        let back = ln_fixed(e).unwrap();
        let diff = if back > x { back - x } else { x - back };
        // within 0.1% of the argument or a small absolute slack
        assert!(
            diff < x / 1000 + 2_000_000,
            "round trip drifted: x={x} back={back}"
        );
    }
}
