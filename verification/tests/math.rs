use rasterizer::math::{cross, dot, isqrt, Vec3};

#[test]
fn test_add() {
    let a = Vec3::new(1, 2, 3);
    let b = Vec3::new(3, 2, 1);
    assert_eq!(a.add(&b), Vec3::new(4, 4, 4));
}

#[test]
fn test_sub() {
    let a = Vec3::new(1, 2, 3);
    let b = Vec3::new(3, 2, 1);
    assert_eq!(a.sub(&b), Vec3::new(-2, 0, 2));
}

#[test]
fn test_dot() {
    let a = Vec3::new(1, 2, 3);
    let b = Vec3::new(3, 0, 1);
    assert_eq!(dot(&a, &b), 6);
}

#[test]
fn test_cross() {
    let a = Vec3::new(1, 2, 3);
    let b = Vec3::new(3, 2, 1);
    assert_eq!(cross(&a, &b), Vec3::new(-4, 8, -4));
    assert_eq!(cross(&b, &a), Vec3::new(4, -8, 4));
}

#[test]
fn test_mul_scales_components() {
    let a = Vec3::new(1, -2, 3);
    assert_eq!(a.mul(4), Vec3::new(4, -8, 12));
}

#[test]
fn test_length_squared() {
    assert_eq!(Vec3::new(1, 0, 0).length_squared(), 1);
    assert_eq!(Vec3::new(3, 4, 12).length_squared(), 169);
}

#[test]
fn test_isqrt() {
    assert_eq!(isqrt(0), 0);
    assert_eq!(isqrt(1), 1);
    assert_eq!(isqrt(168), 12);
    assert_eq!(isqrt(169), 13);
    assert_eq!(isqrt(170), 13);
    assert_eq!(isqrt(u64::MAX as u128), 0xFFFF_FFFF);
}

#[test]
fn test_normalized() {
    let one: i64 = 65536;
    let v = Vec3::new(one, one, one);
    // 1 / sqrt(3) in Q16: the unit times itself over the rounded-down
    // integer length of (1, 1, 1)
    let component: i64 = (one * one) / 113511;
    assert_eq!(v.normalized(), Vec3::new(component, component, component));

    let v = Vec3::new(3, 4, 0);
    assert_eq!(v.normalized(), Vec3::new(39321, 52428, 0));
    let zero = Vec3::new(0, 0, 0);
    assert_eq!(zero.normalized(), Vec3::new(0, 0, 0));
    let unit = Vec3::new(one, 0, 0);
    assert_eq!(unit.normalized(), Vec3::new(one, 0, 0));
}
