use physics_puzzle::fixed::{isqrt_wide, Fixed, SCALE};

#[test]
fn scale_is_a_million() {
    assert_eq!(SCALE, 1_000_000_000);
    assert_eq!(Fixed::one().to_raw(), 1_000_000_000);
    assert_eq!(Fixed::zero().to_raw(), 0);
}

#[test]
fn whole_numbers_scale_up() {
    assert_eq!(Fixed::from_int(3).to_raw(), 3_000_000_000);
    assert_eq!(Fixed::from_int(-220).to_raw(), -220_000_000_000);
    assert_eq!(Fixed::from_int(0).to_raw(), 0);
}

#[test]
fn whole_numbers_saturate() {
    assert_eq!(Fixed::from_int(i64::MAX).to_raw(), i64::MAX);
    assert_eq!(Fixed::from_int(i64::MIN).to_raw(), i64::MIN);
    assert_eq!(Fixed::from_int(9_223_372_037).to_raw(), i64::MAX);
    assert_eq!(Fixed::from_int(9_223_372_036).to_raw(), 9_223_372_036_000_000_000);
    assert_eq!(Fixed::from_int(-9_223_372_037).to_raw(), i64::MIN);
}

#[test]
fn ratios_round_toward_zero() {
    assert_eq!(Fixed::from_ratio(94, 100).to_raw(), 940_000_000);
    assert_eq!(Fixed::from_ratio(1, 3).to_raw(), 333_333_333);
    assert_eq!(Fixed::from_ratio(-1, 3).to_raw(), -333_333_333);
    assert_eq!(Fixed::from_ratio(1, -3).to_raw(), -333_333_333);
    assert_eq!(Fixed::from_ratio(-2, -3).to_raw(), 666_666_666);
    assert_eq!(Fixed::from_ratio(1, 60).to_raw(), 16_666_666);
}

#[test]
fn sums_and_differences_are_exact() {
    let a = Fixed::from_ratio(3, 2);
    let b = Fixed::from_ratio(-9, 4);
    assert_eq!(a.add(b), Fixed::from_ratio(-3, 4));
    assert_eq!(a.sub(b), Fixed::from_ratio(15, 4));
    assert_eq!(b.sub(a), Fixed::from_ratio(-15, 4));
    assert_eq!(Fixed::from_raw(5).add(Fixed::from_raw(-7)).to_raw(), -2);
}

#[test]
fn sums_and_differences_saturate() {
    let top = Fixed::from_raw(i64::MAX);
    let bottom = Fixed::from_raw(i64::MIN);
    assert_eq!(top.add(Fixed::from_raw(1)).to_raw(), i64::MAX);
    assert_eq!(bottom.sub(Fixed::from_raw(1)).to_raw(), i64::MIN);
    assert_eq!(top.sub(bottom).to_raw(), i64::MAX);
    assert_eq!(bottom.sub(top).to_raw(), i64::MIN);
    assert_eq!(top.add(bottom).to_raw(), -1);
}

#[test]
fn negation_saturates_at_the_bottom() {
    assert_eq!(Fixed::from_raw(5).neg().to_raw(), -5);
    assert_eq!(Fixed::from_raw(-5).neg().to_raw(), 5);
    assert_eq!(Fixed::from_raw(i64::MIN).neg().to_raw(), i64::MAX);
    assert_eq!(Fixed::from_raw(i64::MAX).neg().to_raw(), -i64::MAX);
}

#[test]
fn absolute_value_saturates_at_the_bottom() {
    assert_eq!(Fixed::from_raw(-7).abs().to_raw(), 7);
    assert_eq!(Fixed::from_raw(7).abs().to_raw(), 7);
    assert_eq!(Fixed::from_raw(0).abs().to_raw(), 0);
    assert_eq!(Fixed::from_raw(i64::MIN).abs().to_raw(), i64::MAX);
}

#[test]
fn product_of_scaled_values() {
    let a = Fixed::from_int(3);
    let b = Fixed::from_ratio(1, 2);
    assert_eq!(a.mul(b).to_raw(), 1_500_000_000);
    assert_eq!(Fixed::from_int(-400).mul(Fixed::from_raw(16_000_000)).to_raw(), -6_400_000_000);
    assert_eq!(Fixed::from_int(12).mul(Fixed::zero()).to_raw(), 0);
}

#[test]
fn product_rounds_toward_zero() {
    assert_eq!(Fixed::from_raw(-7).mul(Fixed::from_raw(500_000_000)).to_raw(), -3);
    assert_eq!(Fixed::from_raw(7).mul(Fixed::from_raw(500_000_000)).to_raw(), 3);
    assert_eq!(Fixed::from_raw(7).mul(Fixed::from_raw(-500_000_000)).to_raw(), -3);
    assert_eq!(Fixed::from_raw(-7).mul(Fixed::from_raw(-500_000_000)).to_raw(), 3);
    assert_eq!(Fixed::from_raw(1).mul(Fixed::from_raw(999_999_999)).to_raw(), 0);
}

#[test]
fn product_saturates() {
    let big = Fixed::from_raw(i64::MAX);
    assert_eq!(big.mul(Fixed::from_int(2)).to_raw(), i64::MAX);
    assert_eq!(big.mul(Fixed::from_int(-2)).to_raw(), i64::MIN);
    assert_eq!(Fixed::from_raw(i64::MIN).mul(Fixed::from_raw(i64::MIN)).to_raw(), i64::MAX);
    assert_eq!(big.mul(Fixed::one()).to_raw(), i64::MAX);
}

#[test]
fn quotient_of_scaled_values() {
    assert_eq!(Fixed::from_int(3).div(Fixed::from_ratio(1, 2)).to_raw(), 6_000_000_000);
    assert_eq!(Fixed::one().div(Fixed::from_int(3)).to_raw(), 333_333_333);
    assert_eq!(Fixed::one().div(Fixed::from_int(-3)).to_raw(), -333_333_333);
    assert_eq!(Fixed::from_int(-1).div(Fixed::from_int(3)).to_raw(), -333_333_333);
    assert_eq!(Fixed::from_int(800).div(Fixed::from_int(2)).to_raw(), 400_000_000_000);
}

#[test]
fn quotient_saturates() {
    assert_eq!(Fixed::from_raw(i64::MAX).div(Fixed::from_raw(1)).to_raw(), i64::MAX);
    assert_eq!(Fixed::from_raw(i64::MIN).div(Fixed::from_raw(1)).to_raw(), i64::MIN);
    assert_eq!(Fixed::from_raw(i64::MIN).div(Fixed::from_raw(-1)).to_raw(), i64::MAX);
}

#[test]
fn checked_quotient_refuses_zero() {
    assert_eq!(Fixed::from_int(3).checked_div(Fixed::zero()), None);
    assert_eq!(Fixed::zero().checked_div(Fixed::zero()), None);
    assert_eq!(
        Fixed::from_int(3).checked_div(Fixed::from_int(2)),
        Some(Fixed::from_raw(1_500_000_000))
    );
}

#[test]
fn half_rounds_toward_zero() {
    assert_eq!(Fixed::from_int(-7).half().to_raw(), -3_500_000_000);
    assert_eq!(Fixed::from_raw(-7).half().to_raw(), -3);
    assert_eq!(Fixed::from_raw(7).half().to_raw(), 3);
    assert_eq!(Fixed::from_raw(i64::MIN).half().to_raw(), i64::MIN / 2);
}

#[test]
fn lesser_of_two() {
    let a = Fixed::from_raw(3);
    let b = Fixed::from_raw(-4);
    assert_eq!(a.min(b), b);
    assert_eq!(b.min(a), b);
    assert_eq!(a.min(a), a);
}

#[test]
fn integer_square_roots() {
    assert_eq!(isqrt_wide(0), 0);
    assert_eq!(isqrt_wide(1), 1);
    assert_eq!(isqrt_wide(2), 1);
    assert_eq!(isqrt_wide(3), 1);
    assert_eq!(isqrt_wide(4), 2);
    assert_eq!(isqrt_wide(24), 4);
    assert_eq!(isqrt_wide(25), 5);
    assert_eq!(isqrt_wide(26), 5);
    assert_eq!(isqrt_wide(1_000_000_000_000), 1_000_000);
    assert_eq!(isqrt_wide(u128::MAX), u64::MAX as u128);
}

#[test]
fn integer_square_root_is_the_floor() {
    let mut n: u128 = 0;
    while n < 5_000 {
        let r = isqrt_wide(n);
        assert!(r * r <= n);
        assert!(n < (r + 1) * (r + 1));
        n += 1;
    }
}

#[test]
fn order_goes_by_value() {
    assert!(Fixed::from_raw(-1) < Fixed::from_raw(0));
    assert!(Fixed::from_int(2) > Fixed::from_ratio(3, 2));
    assert_eq!(Fixed::from_ratio(1, 2), Fixed::from_raw(500_000_000));
}
