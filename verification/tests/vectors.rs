use physics_puzzle::fixed::Fixed;
use physics_puzzle::vec2::Vec2;

fn v(x: i64, y: i64) -> Vec2 {
    Vec2::new(Fixed::from_int(x), Fixed::from_int(y))
}

fn raw(x: i64, y: i64) -> Vec2 {
    Vec2::new(Fixed::from_raw(x), Fixed::from_raw(y))
}

fn milli(x: i64, y: i64) -> Vec2 {
    Vec2::new(Fixed::from_ratio(x, 1_000), Fixed::from_ratio(y, 1_000))
}

#[test]
fn components_are_kept() {
    let a = v(3, -4);
    assert_eq!(a.x, Fixed::from_int(3));
    assert_eq!(a.y, Fixed::from_int(-4));
    assert_eq!(Vec2::zero(), raw(0, 0));
}

#[test]
fn sum_difference_and_scaling() {
    let a = v(3, -4);
    let b = v(10, 20);
    assert_eq!(a.add(b), v(13, 16));
    assert_eq!(a.sub(b), v(-7, -24));
    assert_eq!(a.mul(Fixed::from_int(2)), v(6, -8));
    assert_eq!(a.mul(Fixed::from_ratio(1, 2)), milli(1_500, -2_000));
    assert_eq!(b.div(Fixed::from_int(4)), milli(2_500, 5_000));
}

#[test]
fn dot_product() {
    assert_eq!(v(3, -4).dot(&v(10, 20)), Fixed::from_int(-50));
    assert_eq!(v(1, 0).dot(&v(0, 1)).to_raw(), 0);
    assert_eq!(v(-400, 0).dot(&v(1, 0)), Fixed::from_int(-400));
}

#[test]
fn length_of_a_right_triangle() {
    assert_eq!(v(3, 4).length(), Fixed::from_int(5));
    assert_eq!(v(-3, 4).length(), Fixed::from_int(5));
    assert_eq!(v(0, -7).length(), Fixed::from_int(7));
}

#[test]
fn length_rounds_down() {
    // sqrt(2) = 1.4142135623730950...
    assert_eq!(v(1, 1).length().to_raw(), 1_414_213_562);
    assert_eq!(raw(1, 1).length().to_raw(), 1);
    assert_eq!(raw(1, 0).length().to_raw(), 1);
}

#[test]
fn length_of_extremes() {
    assert_eq!(raw(0, 0).length().to_raw(), 0);
    assert_eq!(raw(i64::MAX, 0).length().to_raw(), i64::MAX);
    assert_eq!(raw(i64::MIN, 0).length().to_raw(), i64::MAX);
    assert_eq!(raw(i64::MIN, i64::MIN).length().to_raw(), i64::MAX);
}

#[test]
fn normalized_has_unit_length() {
    assert_eq!(v(3, 4).normalized(), milli(600, 800));
    assert_eq!(v(0, -9).normalized(), v(0, -1));
    assert_eq!(v(200, 0).normalized(), v(1, 0));
}

#[test]
fn normalized_zero_is_zero() {
    assert_eq!(raw(0, 0).normalized(), raw(0, 0));
}

#[test]
fn quarter_turn() {
    assert_eq!(v(3, 4).perp(), v(-4, 3));
    assert_eq!(v(1, 0).perp(), v(0, 1));
    assert_eq!(v(3, 4).perp().dot(&v(3, 4)).to_raw(), 0);
}
