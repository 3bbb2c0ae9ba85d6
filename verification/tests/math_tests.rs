use silk::math::{div_floor, isqrt};
use silk::vector::{distance, Vector3};

#[test]
fn div_floor_rounds_toward_negative_infinity() {
    assert_eq!(div_floor(7, 2), 3);
    assert_eq!(div_floor(-7, 2), -4);
    assert_eq!(div_floor(6, 2), 3);
    assert_eq!(div_floor(-6, 2), -3);
    assert_eq!(div_floor(0, 5), 0);
    assert_eq!(div_floor(-1, 1_000_000), -1);
}

#[test]
fn isqrt_exact_values() {
    assert_eq!(isqrt(0), 0);
    assert_eq!(isqrt(1), 1);
    assert_eq!(isqrt(2), 1);
    assert_eq!(isqrt(4), 2);
    assert_eq!(isqrt(999_999), 999);
    assert_eq!(isqrt(1_000_000), 1000);
    assert_eq!(isqrt(2_000_000), 1414);
}

#[test]
fn distance_is_floor_of_euclidean_distance() {
    let a = Vector3 { x: 0, y: 0, z: 0 };
    let b = Vector3 { x: 1000, y: 0, z: 0 };
    assert_eq!(distance(&a, &b), 1000);
    let c = Vector3 { x: 1000, y: 1000, z: 0 };
    assert_eq!(distance(&a, &c), 1414);
    let d = Vector3 { x: 3, y: 4, z: 12 };
    assert_eq!(distance(&a, &d), 13);
    assert_eq!(distance(&d, &d), 0);
}
