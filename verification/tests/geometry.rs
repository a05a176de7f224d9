use raycore::bounds::{Axis, Bounds};
use raycore::interval::Interval;
use raycore::rat::Rat;
use raycore::ray::Ray;
use raycore::sphere::isqrt;
use raycore::vec3::{cross, max, min, Vec3, UNIT};

fn rat(n: i128, d: i128) -> Rat {
    Rat::new(n, d)
}

fn wide_interval() -> Interval {
    Interval::new(rat(1, 1000), rat(0x4000_0000_0000_0000, 1))
}

#[test]
fn isqrt_exact_values() {
    assert_eq!(isqrt(0), 0);
    assert_eq!(isqrt(1), 1);
    assert_eq!(isqrt(3), 1);
    assert_eq!(isqrt(4), 2);
    assert_eq!(isqrt(24), 4);
    assert_eq!(isqrt(25), 5);
    assert_eq!(isqrt(26), 5);
    assert_eq!(isqrt((1u128 << 40) * (1u128 << 40) - 1), (1 << 40) - 1);
}

#[test]
fn vec3_arithmetic() {
    let a = Vec3::new(1, 2, 3);
    let b = Vec3::new(4, -5, 6);
    assert_eq!(a.add(&b), Vec3::new(5, -3, 9));
    assert_eq!(a.sub(&b), Vec3::new(-3, 7, -3));
    assert_eq!(a.dot(&b), 1 * 4 + 2 * -5 + 3 * 6);
    assert_eq!(cross(a, b), Vec3::new(2 * 6 - 3 * -5, 3 * 4 - 1 * 6, 1 * -5 - 2 * 4));
    assert_eq!(min(a, b), Vec3::new(1, -5, 3));
    assert_eq!(max(a, b), Vec3::new(4, 2, 6));
    assert_eq!(a.length_squared(), 14);
}

#[test]
fn normalize_rescales_to_grid() {
    let v = Vec3::new(200000, 0, 0);
    assert_eq!(v.normalize(), Vec3::new(UNIT, 0, 0));
    let w = Vec3::new(-131072, 65536, 0);
    // Largest magnitude becomes UNIT; others scale proportionally (floor).
    assert_eq!(w.normalize(), Vec3::new(-UNIT, 32768, 0));
    assert_eq!(Vec3::new(0, 0, 0).normalize(), Vec3::new(0, 0, 0));
}

#[test]
fn rational_order() {
    let a = rat(1, 3);
    let b = rat(2, 5);
    assert!(a.lt(&b));
    assert!(!b.lt(&a));
    assert!(a.le(&b));
    assert!(rat(2, 4).eq_rat(&rat(1, 2)));
    assert!(!rat(2, 4).eq_rat(&rat(1, 3)));
}

#[test]
fn slab_test_axis_aligned_ray() {
    let b = Bounds { min: Vec3::new(-10, -10, -10), max: Vec3::new(10, 10, 10) };
    let ray = Ray::new(Vec3::new(-20, 0, 0), Vec3::new(1, 0, 0));
    let iv = wide_interval();
    let hit = b.hit(&ray, &iv).expect("ray through the box must pass the slab test");
    // Entry at t = 10, exit at t = 30.
    assert!(hit.min.eq_rat(&rat(10, 1)));
    assert!(hit.max.eq_rat(&rat(30, 1)));
    assert!(hit.contains(&rat(20, 1)));
    assert!(!hit.contains(&rat(5, 1)));
    assert!(!hit.contains(&rat(40, 1)));
}

#[test]
fn slab_test_parallel_ray_outside_misses() {
    let b = Bounds { min: Vec3::new(-10, -10, -10), max: Vec3::new(10, 10, 10) };
    // Parallel to x, sitting above the box in y: the zero direction component
    // must exclude it without dividing.
    let ray = Ray::new(Vec3::new(-20, 20, 0), Vec3::new(1, 0, 0));
    assert!(b.hit(&ray, &wide_interval()).is_none());
    // The same ray inside the slab passes.
    let ray2 = Ray::new(Vec3::new(-20, 5, 0), Vec3::new(1, 0, 0));
    assert!(b.hit(&ray2, &wide_interval()).is_some());
}

#[test]
fn slab_test_matches_brute_force_intersection() {
    // A diagonal ray: the returned interval must be the intersection of the
    // three per-axis entry/exit intervals.
    let b = Bounds { min: Vec3::new(0, 0, 0), max: Vec3::new(10, 20, 30) };
    let ray = Ray::new(Vec3::new(-10, -10, -10), Vec3::new(1, 1, 1));
    let hit = b.hit(&ray, &wide_interval()).expect("diagonal ray hits the box");
    // Per-axis entries: x in [10,20], y in [10,30], z in [10,40]; the
    // intersection is [10, 20].
    assert!(hit.min.eq_rat(&rat(10, 1)));
    assert!(hit.max.eq_rat(&rat(20, 1)));
}

#[test]
fn longest_axis_breaks_ties_x_then_y_then_z() {
    // Equal x and y extents, both above z: the fixed priority gives X.
    let b = Bounds { min: Vec3::new(0, 0, 0), max: Vec3::new(5, 5, 4) };
    assert!(matches!(b.longest_axis(), Axis::X));
    // Equal y and z extents above x: Y beats Z.
    let c = Bounds { min: Vec3::new(0, 0, 0), max: Vec3::new(1, 5, 5) };
    assert!(matches!(c.longest_axis(), Axis::Y));
    let d = Bounds { min: Vec3::new(0, 0, 0), max: Vec3::new(1, 2, 9) };
    assert!(matches!(d.longest_axis(), Axis::Z));
    let e = Bounds { min: Vec3::new(0, 0, 0), max: Vec3::new(9, 5, 4) };
    assert!(matches!(e.longest_axis(), Axis::X));
}

#[test]
fn expand_to_contain_grows_box() {
    let mut b = Bounds { min: Vec3::new(0, 0, 0), max: Vec3::new(1, 1, 1) };
    let other = Bounds { min: Vec3::new(-2, 5, 0), max: Vec3::new(0, 9, 3) };
    b.expand_to_contain(&other);
    assert_eq!(b.min, Vec3::new(-2, 0, 0));
    assert_eq!(b.max, Vec3::new(1, 9, 3));
}
