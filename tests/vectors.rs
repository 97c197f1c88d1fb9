use phys_buzz::elementary::{cos_real, exp_real, sin_real, PI};
use phys_buzz::fixed::{
    abs_real, add_real, div_int, div_real, mul_real, neg_real, pow_real, sqrt_real, sub_real,
};
use phys_buzz::{Vector3, ONE};

fn v(x: i64, y: i64, z: i64) -> Vector3 {
    Vector3::new(x * ONE, y * ONE, z * ONE)
}

#[test]
fn scalar_arithmetic() {
    assert_eq!(add_real(2 * ONE, 3 * ONE), 5 * ONE);
    assert_eq!(sub_real(2 * ONE, 3 * ONE), -ONE);
    assert_eq!(mul_real(3 * ONE / 2, 4 * ONE), 6 * ONE);
    assert_eq!(mul_real(-3 * ONE / 2, 4 * ONE), -6 * ONE);
    assert_eq!(div_real(ONE, 4 * ONE), ONE / 4);
    assert_eq!(div_real(ONE, -4 * ONE), -ONE / 4);
    assert_eq!(neg_real(7), -7);
    assert_eq!(abs_real(-7), 7);
    assert_eq!(div_int(-7, 2), -3);
}

#[test]
fn scalar_arithmetic_saturates() {
    assert_eq!(add_real(i64::MAX, 1), i64::MAX);
    assert_eq!(sub_real(-i64::MAX, 1), -i64::MAX);
    assert_eq!(neg_real(i64::MIN), i64::MAX);
    assert_eq!(mul_real(i64::MAX, 2 * ONE), i64::MAX);
}

#[test]
fn scalar_sqrt_and_pow() {
    assert_eq!(sqrt_real(4 * ONE), 2 * ONE);
    assert_eq!(sqrt_real(ONE / 4), ONE / 2);
    assert_eq!(sqrt_real(-ONE), 0);
    assert_eq!(sqrt_real(2 * ONE), 1_414_213);
    assert_eq!(pow_real(ONE / 2, 2 * ONE), ONE / 4);
    assert_eq!(pow_real(ONE / 4, ONE / 2), ONE / 2);
    assert_eq!(pow_real(99 * ONE / 100, ONE), 990_000);
    assert_eq!(pow_real(ONE, 3 * ONE / 7), ONE);
    assert_eq!(pow_real(3 * ONE, 0), ONE);
}

#[test]
fn scalar_elementary_functions() {
    assert_eq!(exp_real(0), ONE);
    assert!((exp_real(ONE) - 2_718_282).abs() <= 10);
    assert!((exp_real(-ONE) - 367_879).abs() <= 10);
    assert!((exp_real(ONE / 2) - 1_648_721).abs() <= 10);
    assert_eq!(sin_real(0), 0);
    assert_eq!(cos_real(0), ONE);
    assert!((sin_real(PI / 2) - ONE).abs() <= 10);
    assert!(cos_real(PI / 2).abs() <= 10);
    assert!((cos_real(PI) + ONE).abs() <= 10);
    assert!((sin_real(PI / 6) - ONE / 2).abs() <= 10);
    assert!((sin_real(2 * PI + PI / 6) - ONE / 2).abs() <= 10);
}

#[test]
fn vector_new_and_default() {
    let a = Vector3::new(1, 2, 3);
    assert_eq!((a.x, a.y, a.z), (1, 2, 3));
    assert_eq!(Vector3::default(), Vector3::new(0, 0, 0));
    assert_eq!(Vector3::zero(), Vector3::new(0, 0, 0));
}

#[test]
fn vector_add_sub_scale() {
    let a = v(1, 2, 3);
    let b = v(4, -5, 6);
    assert_eq!(a.add_vector(&b), v(5, -3, 9));
    assert_eq!(a.sub_vector(&b), v(-3, 7, -3));
    assert_eq!(a.scale(2 * ONE), v(2, 4, 6));
    assert_eq!(a.scale(-ONE / 2), Vector3::new(-ONE / 2, -ONE, -3 * ONE / 2));
}

#[test]
fn vector_invert() {
    let mut a = v(1, -2, 3);
    a.invert();
    assert_eq!(a, v(-1, 2, -3));
    assert_eq!(a.negated(), v(1, -2, 3));
}

#[test]
fn vector_add_scaled() {
    let mut a = v(1, 1, 1);
    a.add_scaled_vector(&v(2, 4, -6), ONE / 2);
    assert_eq!(a, v(2, 3, -2));
}

#[test]
fn vector_component_product() {
    let a = v(1, 2, 3);
    let b = v(4, 5, -6);
    assert_eq!(a.component_product(&b), v(4, 10, -18));
    let mut c = a;
    c.component_product_update(&b);
    assert_eq!(c, v(4, 10, -18));
}

#[test]
fn vector_scalar_product() {
    assert_eq!(v(1, 2, 3).scalar_product(&v(4, -5, 6)), 12 * ONE);
}

#[test]
fn vector_product_right_hand_rule() {
    assert_eq!(v(1, 0, 0).vector_product(&v(0, 1, 0)), v(0, 0, 1));
    assert_eq!(v(0, 1, 0).vector_product(&v(0, 0, 1)), v(1, 0, 0));
    assert_eq!(v(0, 0, 1).vector_product(&v(1, 0, 0)), v(0, 1, 0));
    assert_eq!(v(1, 2, 3).vector_product(&v(4, 5, 6)), v(-3, 6, -3));
}

#[test]
fn vector_product_anticommutative() {
    let a = v(1, 2, 3);
    let b = v(-4, 5, 7);
    assert_eq!(a.vector_product(&b), b.vector_product(&a).negated());
    assert_eq!(a.vector_product(&a), Vector3::zero());
}

#[test]
fn square_magnitude_sums_all_axes() {
    assert_eq!(v(1, 2, 3).square_magnitude(), 14 * ONE);
    assert_eq!(v(3, 1, 2).square_magnitude(), 14 * ONE);
    assert_eq!(v(0, 0, 5).square_magnitude(), 25 * ONE);
}

#[test]
fn magnitude_of_vectors() {
    assert_eq!(v(3, 4, 0).magnitude(), 5 * ONE);
    assert_eq!(v(2, 3, 6).magnitude(), 7 * ONE);
    assert_eq!(Vector3::zero().magnitude(), 0);
}

#[test]
fn normalize_gives_unit_length() {
    let mut a = v(3, 4, 0);
    a.normalize();
    assert_eq!(a, Vector3::new(600_000, 800_000, 0));
    assert_eq!(a.magnitude(), ONE);
    let mut b = v(2, -3, 6);
    b.normalize();
    assert!((b.magnitude() - ONE).abs() <= 10);
    let mut c = v(-123, 45, 67);
    c.normalize();
    assert!((c.magnitude() - ONE).abs() <= 10);
}
