use raycore::interval::Interval;
use raycore::rat::Rat;
use raycore::ray::Ray;
use raycore::sphere::{sphere_uv, Sphere};
use raycore::tri::Tri;
use raycore::vec3::{Vec3, UNIT};

fn rat(n: i128, d: i128) -> Rat {
    Rat::new(n, d)
}

fn wide_interval() -> Interval {
    Interval::new(rat(1, 1000), rat(0x4000_0000_0000_0000, 1))
}

#[test]
fn sphere_head_on_hit() {
    // Sphere at (5, 0, 0) with radius 1, one world unit being 32768 grid
    // steps; ray from the origin along +x: hit at t = 4, normal (-1, 0, 0).
    let sphere = Sphere::new(Vec3::new(163840, 0, 0), 32768, 0);
    let ray = Ray::new(Vec3::new(0, 0, 0), Vec3::new(32768, 0, 0));
    let hit = sphere.hit(&ray, &wide_interval()).expect("head-on ray hits the sphere");
    assert!(hit.t.eq_rat(&rat(4, 1)));
    assert_eq!(hit.point, Vec3::new(4 * 32768, 0, 0));
    assert_eq!(hit.normal, Vec3::new(-32768, 0, 0));
    assert_eq!(hit.material_index, 0);
}

#[test]
fn sphere_miss_and_behind() {
    let sphere = Sphere::new(Vec3::new(163840, 0, 0), 32768, 0);
    // Aimed away from the sphere: the admissible root is negative.
    let away = Ray::new(Vec3::new(0, 0, 0), Vec3::new(-32768, 0, 0));
    assert!(sphere.hit(&away, &wide_interval()).is_none());
    // Aimed past it.
    let past = Ray::new(Vec3::new(0, 0, 0), Vec3::new(0, 32768, 0));
    assert!(sphere.hit(&past, &wide_interval()).is_none());
}

#[test]
fn sphere_ray_from_center_exits_at_radius() {
    // From the center, any direction exits at parametric distance
    // radius / |direction|; (30000, 40000, 0) has exact length 50000.
    let sphere = Sphere::new(Vec3::new(1000, 2000, 3000), 30000, 7);
    let ray = Ray::new(Vec3::new(1000, 2000, 3000), Vec3::new(30000, 40000, 0));
    let hit = sphere.hit(&ray, &wide_interval()).expect("center ray always exits");
    assert!(hit.t.eq_rat(&rat(30000, 50000)));
    assert_eq!(hit.material_index, 7);
}

#[test]
fn triangle_head_on_hit() {
    // Upward-facing unit triangle, ray straight down from (0.2, 0.2, 1):
    // hit at t = 1 with barycentric coordinates inside the triangle.
    let tri = Tri::new(
        Vec3::new(0, 0, 0),
        Vec3::new(UNIT, 0, 0),
        Vec3::new(0, UNIT, 0),
        None,
        None,
        3,
    );
    let fifth = 13107;
    let ray = Ray::new(Vec3::new(fifth, fifth, UNIT), Vec3::new(0, 0, -UNIT));
    let hit = tri.hit(&ray, &wide_interval()).expect("downward ray hits the triangle");
    assert!(hit.t.eq_rat(&rat(1, 1)));
    assert_eq!(hit.point, Vec3::new(fifth, fifth, 0));
    assert_eq!(hit.material_index, 3);
    // The face normal of the counter-clockwise triangle points along +z.
    assert_eq!(hit.normal, Vec3::new(0, 0, (UNIT as i64) * (UNIT as i64)));
}

#[test]
fn triangle_rejects_outside_and_backface() {
    let tri = Tri::new(
        Vec3::new(0, 0, 0),
        Vec3::new(UNIT, 0, 0),
        Vec3::new(0, UNIT, 0),
        None,
        None,
        0,
    );
    // Outside the hypotenuse: u + v > 1.
    let outside = Ray::new(Vec3::new(60000, 60000, UNIT), Vec3::new(0, 0, -UNIT));
    assert!(tri.hit(&outside, &wide_interval()).is_none());
    // From below: back-facing, the determinant test rejects it.
    let behind = Ray::new(Vec3::new(13107, 13107, -UNIT), Vec3::new(0, 0, UNIT));
    assert!(tri.hit(&behind, &wide_interval()).is_none());
}

#[test]
fn triangle_translate_matches_shifted_ray() {
    // Translation invariance: moving the triangle and the ray origin by the
    // same vector reproduces the hit with the point shifted along.
    let mut tri = Tri::new(
        Vec3::new(0, 0, 0),
        Vec3::new(UNIT, 0, 0),
        Vec3::new(0, UNIT, 0),
        None,
        None,
        0,
    );
    let base_ray = Ray::new(Vec3::new(13107, 13107, UNIT), Vec3::new(0, 0, -UNIT));
    let before = tri.hit(&base_ray, &wide_interval()).expect("hit before translation");

    let shift = Vec3::new(1000, -2000, 300);
    tri.translate(&shift);
    let shifted_ray = Ray::new(base_ray.origin.add(&shift), base_ray.dir);
    let after = tri.hit(&shifted_ray, &wide_interval()).expect("hit after translation");

    assert!(before.t.eq_rat(&after.t));
    assert_eq!(after.point, before.point.add(&shift));
    assert_eq!(after.normal, before.normal);
    assert!(before.u.eq_rat(&after.u));
    assert!(before.v.eq_rat(&after.v));
}

#[test]
fn sphere_translate_matches_shifted_ray() {
    let mut sphere = Sphere::new(Vec3::new(163840, 0, 0), 32768, 0);
    let base_ray = Ray::new(Vec3::new(0, 0, 0), Vec3::new(32768, 0, 0));
    let before = sphere.hit(&base_ray, &wide_interval()).expect("hit before translation");

    let shift = Vec3::new(-4000, 777, 12);
    sphere.translate(&shift);
    let shifted_ray = Ray::new(base_ray.origin.add(&shift), base_ray.dir);
    let after = sphere.hit(&shifted_ray, &wide_interval()).expect("hit after translation");

    assert!(before.t.eq_rat(&after.t));
    assert_eq!(after.point, before.point.add(&shift));
    assert_eq!(after.normal, before.normal);
}

#[test]
fn sphere_bounds_follow_translate() {
    let mut sphere = Sphere::new(Vec3::new(0, 0, 0), 100, 0);
    sphere.translate(&Vec3::new(50, 60, 70));
    let b = sphere.get_bounds();
    assert_eq!(b.min, Vec3::new(-50, -40, -30));
    assert_eq!(b.max, Vec3::new(150, 160, 170));
}

#[test]
fn triangle_interpolates_normals_and_uvs() {
    // All vertex normals point up: the interpolated shading normal is the
    // grid unit z. Texture coordinates follow the vertices, so the hit near
    // (0.2, 0.2) reads back coordinates near (0.2, 0.2).
    let up = Vec3::new(0, 0, UNIT);
    let tri = Tri::new(
        Vec3::new(0, 0, 0),
        Vec3::new(UNIT, 0, 0),
        Vec3::new(0, UNIT, 0),
        Some((up, up, up)),
        Some((Vec3::new(0, 0, 0), Vec3::new(UNIT, 0, 0), Vec3::new(0, UNIT, 0))),
        0,
    );
    let fifth = 13107;
    let ray = Ray::new(Vec3::new(fifth, fifth, UNIT), Vec3::new(0, 0, -UNIT));
    let hit = tri.hit(&ray, &wide_interval()).expect("hit with shading data");
    assert_eq!(hit.normal, Vec3::new(0, 0, UNIT));
    // Quantized surface coordinates stay within a grid step of 0.2.
    assert!(rat(19, 100).lt(&hit.u) && hit.u.lt(&rat(21, 100)));
    assert!(rat(19, 100).lt(&hit.v) && hit.v.lt(&rat(21, 100)));
}

#[test]
fn ray_at_evaluates_exactly() {
    let ray = Ray::new(Vec3::new(10, 20, 30), Vec3::new(2, -4, 6));
    // At t = 5/2 the exact point is (15, 10, 45).
    let p = ray.at(&rat(5, 2));
    assert_eq!(p, Vec3::new(15, 10, 45));
    // A non-integral point rounds down componentwise: at t = 1/3 the exact
    // point is (10 + 2/3, 20 - 4/3, 30 + 2).
    let q = ray.at(&rat(1, 3));
    assert_eq!(q, Vec3::new(10, 18, 32));
}

#[test]
fn sphere_surface_coordinates() {
    // Up pole: longitude defaults to a half turn, latitude zero.
    let (u, v) = sphere_uv(&Vec3::new(0, 32768, 0));
    assert!(u.eq_rat(&rat(1, 2)));
    assert!(v.eq_rat(&rat(0, 1)));
    // Down pole: latitude one.
    let (_, v) = sphere_uv(&Vec3::new(0, -32768, 0));
    assert!(v.eq_rat(&rat(1, 1)));
    // +x on the equator: longitude a half turn, latitude a half.
    let (u, v) = sphere_uv(&Vec3::new(32768, 0, 0));
    assert!(u.eq_rat(&rat(1, 2)));
    assert!(v.eq_rat(&rat(1, 2)));
    // -x on the equator: the seam, longitude zero.
    let (u, _) = sphere_uv(&Vec3::new(-32768, 0, 0));
    assert!(u.eq_rat(&rat(0, 1)));
    // +z on the equator: three quarters of a turn.
    let (u, _) = sphere_uv(&Vec3::new(0, 0, 32768));
    assert!(u.eq_rat(&rat(3, 4)));
}
