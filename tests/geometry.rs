use witch_hunt::geometry::{distance_squared, is_within_unit, isqrt, velocity_toward, Vec3};

#[test]
fn isqrt_small_values() {
    let roots = [0u64, 1, 1, 1, 2, 2, 2, 2, 2, 3];
    for (n, r) in roots.iter().enumerate() {
        assert_eq!(isqrt(n as u128), *r);
    }
    assert_eq!(isqrt(15), 3);
    assert_eq!(isqrt(16), 4);
}

#[test]
fn isqrt_large_values() {
    assert_eq!(isqrt(1_000_000), 1000);
    assert_eq!(isqrt(999_999), 999);
    assert_eq!(isqrt(2_000_000), 1414);
    let big: u128 = 3 * (1u128 << 64);
    let r = isqrt(big) as u128;
    assert!(r * r <= big && big < (r + 1) * (r + 1));
}

#[test]
fn squared_distance() {
    let a = Vec3 { x: 1, y: 2, z: 3 };
    let b = Vec3 { x: 4, y: 6, z: 3 };
    assert_eq!(distance_squared(a, b), 25);
    let far = Vec3 { x: i32::MIN, y: i32::MIN, z: i32::MIN };
    let near = Vec3 { x: i32::MAX, y: i32::MAX, z: i32::MAX };
    assert_eq!(distance_squared(far, near), 3 * (u32::MAX as u128) * (u32::MAX as u128));
}

#[test]
fn within_one_unit() {
    let o = Vec3 { x: 0, y: 0, z: 0 };
    assert!(is_within_unit(o, Vec3 { x: 600, y: 0, z: 800 }));
    assert!(!is_within_unit(o, Vec3 { x: 600, y: 1, z: 800 }));
}

#[test]
fn velocity_has_requested_speed() {
    let o = Vec3 { x: 0, y: 0, z: 0 };
    assert_eq!(velocity_toward(o, Vec3 { x: 3000, y: 0, z: 4000 }, 5000), Vec3 { x: 3000, y: 0, z: 4000 });
    assert_eq!(velocity_toward(o, Vec3 { x: -10, y: 0, z: 0 }, 3000), Vec3 { x: -3000, y: 0, z: 0 });
    assert_eq!(velocity_toward(o, Vec3 { x: 1000, y: 1000, z: 0 }, 3000), Vec3 { x: 2121, y: 2121, z: 0 });
}
