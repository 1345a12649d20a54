use rhg_engine::num_traits::{isqrt, Sqrt};
use rhg_engine::vector::{Vec2i8, Vec2u8, Vec3i32, Vec4i32, Vec4u8};

#[test]
fn unit() {
    assert_eq!(Vec4u8::unit(), Vec4u8::new(1, 1, 1, 1));
    assert_eq!(Vec4u8::unit_x(), Vec4u8::new(1, 0, 0, 1));
    assert_eq!(Vec4u8::unit_y(), Vec4u8::new(0, 1, 0, 1));
    assert_eq!(Vec4u8::unit_z(), Vec4u8::new(0, 0, 1, 1));
    assert_eq!(Vec4u8::unit_w(), Vec4u8::new(0, 0, 0, 1));
}

#[test]
fn add() {
    let v1 = Vec2u8::new(1, 2);
    let v2 = Vec2u8::new(3, 4);
    let v3 = v1.add(v2);
    assert_eq!(v3, Vec2u8::new(4, 6));
}

#[test]
fn sub() {
    let v1 = Vec2u8::new(3, 4);
    let v2 = Vec2u8::new(1, 2);
    let v3 = v1.sub(v2);
    assert_eq!(v3, Vec2u8::new(2, 2));
}

#[test]
fn mul() {
    let v1 = Vec2u8::new(3, 4);
    let v2 = Vec2u8::new(1, 2);
    let v3 = v1.mul(v2);
    assert_eq!(v3, Vec2u8::new(3, 8));
}

#[test]
fn div() {
    let v1 = Vec2u8::new(10, 20);
    let v2 = Vec2u8::new(2, 2);
    let v3 = v1.div(v2);
    assert_eq!(v3, Vec2u8::new(5, 10));
}

#[test]
fn squared_magnitude() {
    assert_eq!(Vec2u8::new(2, 3).sq_magnitude(), (2 * 2 + 3 * 3) as u8)
}

#[test]
fn magnitude() {
    assert_eq!(Vec2u8::new(2, 3).magnitude(), ((2 * 2 + 3 * 3) as u8).sqrt())
}

#[test]
fn normalized() {
    let expected_mag = ((2 * 2 + 3 * 3) as u8).sqrt();
    let mut v = Vec2u8::new(2, 3);
    let mag = v.normalize();
    assert_eq!(mag, expected_mag);
    assert_eq!(v, Vec2u8::new(2, 3).div(Vec2u8::new(expected_mag, expected_mag)))
}

#[test]
fn dot() {
    assert_eq!(Vec2u8::new(2, 3).dot(&Vec2u8::new(4, 5)), 2 * 4 + 3 * 5);
}

#[test]
fn cross() {
    assert_eq!(Vec2i8::new(2, 3).cross(&Vec2i8::new(4, 5)), -2);
}

#[test]
fn zero_vector_keeps_when_normalized() {
    let v = Vec2u8::zero();
    assert_eq!(v, Vec2u8::new(0, 0));
    assert_eq!(v.normalized(), v);
}

#[test]
fn normalized_rounds_toward_zero() {
    let v = Vec2i8::new(-3, 4);
    assert_eq!(v.magnitude(), 5);
    assert_eq!(v.normalized(), Vec2i8::new(0, 0));
    let v = Vec2i8::new(-10, 0);
    assert_eq!(v.normalized(), Vec2i8::new(-1, 0));
}

#[test]
fn cross_in_three_and_four_dimensions() {
    let a = Vec3i32::new(1, 2, 3);
    let b = Vec3i32::new(4, 5, 6);
    assert_eq!(a.cross(&b), Vec3i32::new(-3, 6, -3));
    let a = Vec4i32::new(1, 2, 3, 0);
    let b = Vec4i32::new(4, 5, 6, 0);
    // w = 1*5*6 - 2*4*6 + 3*4*5 - 1*6*5
    assert_eq!(a.cross(&b), Vec4i32::new(-3, 6, -3, 30 - 48 + 60 - 30));
}

#[test]
fn accessors_and_parts() {
    let v = Vec4i32::new(1, 2, 3, 4);
    assert_eq!((v.x(), v.y(), v.z(), v.w()), (1, 2, 3, 4));
    assert_eq!(v.parts(), &[1, 2, 3, 4]);
    assert_eq!(Vec4i32::from_parts([1, 2, 3, 4]), v);
    assert_eq!(Vec3i32::unit_y(), Vec3i32::new(0, 1, 0));
}

#[test]
fn integer_square_roots() {
    assert_eq!(isqrt(0), 0);
    assert_eq!(isqrt(15), 3);
    assert_eq!(isqrt(16), 4);
    assert_eq!(isqrt(u64::MAX), 4294967295);
    assert_eq!((-4i32).sqrt(), 0);
    assert_eq!(99i64.sqrt(), 9);
}

#[test]
fn signed_division_truncates() {
    let v = Vec2i8::new(-7, 7).div(Vec2i8::new(2, -2));
    assert_eq!(v, Vec2i8::new(-3, -3));
}
