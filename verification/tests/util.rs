use raytracer::util::lerp;

const FLOAT_EPSILON: f64 = 0.000_001;

fn assert_float_relative_eq(lhs: f64, rhs: f64) {
    let diff = (lhs - rhs).abs();
    let largest = lhs.abs().max(rhs.abs());
    assert!(
        lhs == rhs || diff <= FLOAT_EPSILON || diff <= largest * FLOAT_EPSILON,
        "{lhs} is not approximately {rhs}"
    );
}

#[test]
fn lerp_between_two_values() {
    assert_float_relative_eq(lerp(1.0, 2.0, 0.5), 1.5);
    assert_float_relative_eq(lerp(0.0, 1.0, 0.32), 0.32);
    assert_float_relative_eq(lerp(-5.0, 10.0, 0.0), -5.0);
    assert_float_relative_eq(lerp(-2.0, 4.0, 1.0), 4.0);
}

#[test]
fn lerp_when_first_value_is_higher() {
    assert_float_relative_eq(lerp(3.4, 2.1, 0.3), 3.01);
    assert_float_relative_eq(lerp(4.0, 0.0, 0.0), 4.0);
    assert_float_relative_eq(lerp(4.0, 0.0, 1.0), 0.0);
}

#[test]
fn lerp_when_t_outside_zero_to_one() {
    assert_float_relative_eq(lerp(1.0, 2.0, 1.5), 2.5);
    assert_float_relative_eq(lerp(1.0, 2.0, -1.8), -0.8);
}

#[test]
fn lerp_on_integers() {
    assert_eq!(lerp(1i64, 5, 2), 9);
    assert_eq!(lerp(-5i64, 10, 0), -5);
    assert_eq!(lerp(-2i64, 4, 1), 4);
    assert_eq!(lerp(10u32, 20, 3), 40);
}
