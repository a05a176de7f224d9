use raycore::aabb::AABB;
use raycore::camera::Camera;
use raycore::color::Color;
use raycore::hittable::HittableType;
use raycore::interval::Interval;
use raycore::material::{Lambertian, MaterialType, TextureLambertian};
use raycore::mesh::Mesh;
use raycore::rat::Rat;
use raycore::ray::Ray;
use raycore::sphere::Sphere;
use raycore::tri::Tri;
use raycore::vec3::{Vec3, UNIT};

fn rat(n: i128, d: i128) -> Rat {
    Rat::new(n, d)
}

fn wide_interval() -> Interval {
    Interval::new(rat(1, 1000), rat(0x4000_0000_0000_0000, 1))
}

fn random_coord() -> i64 {
    rand::random_range(-200000i64..200000)
}

fn random_tri(mat: usize) -> Tri {
    loop {
        let v0 = Vec3::new(random_coord(), random_coord(), random_coord());
        let v1 = Vec3::new(random_coord(), random_coord(), random_coord());
        let v2 = Vec3::new(random_coord(), random_coord(), random_coord());
        let t = Tri::new(v0, v1, v2, None, None, mat);
        // Skip degenerate triangles whose face normal vanishes.
        if t.face_normal != Vec3::new(0, 0, 0) {
            return t;
        }
    }
}

fn random_ray() -> Ray {
    loop {
        let d = Vec3::new(
            rand::random_range(-65536i64..65537),
            rand::random_range(-65536i64..65537),
            rand::random_range(-65536i64..65537),
        );
        if d != Vec3::new(0, 0, 0) {
            return Ray::new(
                Vec3::new(random_coord(), random_coord(), random_coord()),
                d,
            );
        }
    }
}

/// Scan a triangle list directly, keeping the nearest hit by shrinking the
/// search interval: the reference answer the hierarchy must reproduce.
fn brute_force(tris: &[Tri], ray: &Ray) -> Option<raycore::hit_result::HitResult> {
    let mut best: Option<raycore::hit_result::HitResult> = None;
    let mut t_max = rat(0x4000_0000_0000_0000, 1);
    for tri in tris {
        let cur = Interval::new(rat(1, 1000), t_max);
        if let Some(hit) = tri.hit(ray, &cur) {
            t_max = hit.t;
            best = Some(hit);
        }
    }
    best
}

#[test]
fn bvh_small_leaf_matches_scan() {
    let mut tris = Vec::new();
    for k in 0..5 {
        tris.push(random_tri(k));
    }
    let bvh = AABB::new(tris.clone());
    for _ in 0..50 {
        let ray = random_ray();
        let fast = bvh.hit(&ray, &wide_interval());
        let slow = brute_force(&tris, &ray);
        match (fast, slow) {
            (None, None) => {},
            (Some(a), Some(b)) => {
                assert!(a.t.eq_rat(&b.t));
                assert_eq!(a.material_index, b.material_index);
            },
            _ => panic!("hierarchy and scan disagree on whether the ray hits"),
        }
    }
}

#[test]
fn bvh_many_triangles_matches_scan() {
    // Fifty random triangles, two hundred random rays: the hierarchy must
    // return exactly the nearest scan hit every time.
    let mut tris = Vec::new();
    for k in 0..50 {
        tris.push(random_tri(k));
    }
    let bvh = AABB::new(tris.clone());
    let mut hits = 0;
    for _ in 0..200 {
        let ray = random_ray();
        let fast = bvh.hit(&ray, &wide_interval());
        let slow = brute_force(&tris, &ray);
        match (fast, slow) {
            (None, None) => {},
            (Some(a), Some(b)) => {
                hits += 1;
                assert!(a.t.eq_rat(&b.t));
                assert_eq!(a.material_index, b.material_index);
            },
            _ => panic!("hierarchy and scan disagree on whether the ray hits"),
        }
    }
    // With triangles this size some rays must connect; a silent all-miss run
    // would make the comparison vacuous.
    assert!(hits > 0);
}

#[test]
fn mesh_delegates_to_hierarchy() {
    let tri = Tri::new(
        Vec3::new(0, 0, 0),
        Vec3::new(UNIT, 0, 0),
        Vec3::new(0, UNIT, 0),
        None,
        None,
        2,
    );
    let mesh = Mesh::new(vec![tri]);
    let ray = Ray::new(Vec3::new(13107, 13107, UNIT), Vec3::new(0, 0, -UNIT));
    let hit = mesh.hit(&ray, &wide_interval()).expect("mesh forwards the triangle hit");
    assert!(hit.t.eq_rat(&rat(1, 1)));
    assert_eq!(hit.material_index, 2);
}

#[test]
fn scene_object_dispatch() {
    let sphere = Sphere::new(Vec3::new(163840, 0, 0), 32768, 0);
    let object = HittableType::Sphere(sphere);
    let ray = Ray::new(Vec3::new(0, 0, 0), Vec3::new(32768, 0, 0));
    let hit = object.hit(&ray, &wide_interval()).expect("sphere object hit");
    assert!(hit.t.eq_rat(&rat(4, 1)));
}

#[test]
fn color_arithmetic() {
    let half = Color::new(32768, 32768, 32768);
    let quarter = half.mul(&half);
    assert_eq!(quarter, Color::new(16384, 16384, 16384));
    let white = Color::white();
    assert_eq!(white.mul(&half), half);
    let sum = half.add(&quarter);
    assert_eq!(sum, Color::new(49152, 49152, 49152));
    assert_eq!(sum.scale_div(2), Color::new(24576, 24576, 24576));
    assert_eq!(Color::black(), Color::new(0, 0, 0));
}

#[test]
fn empty_scene_renders_pure_background() {
    let camera = Camera::new(1, 1, 8, vec![]);
    let objects: Vec<HittableType> = vec![];
    let frame = camera.render(&objects);
    assert_eq!(frame.len() as u32, camera.total_pixels);
    for p in 0..camera.total_pixels {
        let ray = camera.primary_ray(p);
        let expected = raycore::camera::background_color(&ray.dir);
        assert_eq!(frame[p as usize], expected);
    }
}

#[test]
fn mirror_corridor_absorbs_at_bounce_cap() {
    // A ray bouncing forever between two facing mirror spheres: after the
    // fixed bounce cap the walk returns black instead of recursing on.
    let a = Sphere::new(Vec3::new(0, 0, 0), 32768, 0);
    let b = Sphere::new(Vec3::new(6 * 32768, 0, 0), 32768, 0);
    let materials = vec![MaterialType::Lambertian(Lambertian {
        name: String::from("mirror"),
        albedo: Color::white(),
        roughness: 0,
    })];
    let camera = Camera::new(1, 1, 8, materials);
    let objects = vec![HittableType::Sphere(a), HittableType::Sphere(b)];
    let ray = Ray::new(Vec3::new(3 * 32768, 0, 0), Vec3::new(32768, 0, 0));
    let color = camera.ray_color(&ray, &objects);
    assert_eq!(color, Color::black());
}

#[test]
fn lambertian_scatter_starts_at_hit_point() {
    let sphere = Sphere::new(Vec3::new(163840, 0, 0), 32768, 0);
    let ray = Ray::new(Vec3::new(0, 0, 0), Vec3::new(32768, 0, 0));
    let hit = sphere.hit(&ray, &wide_interval()).unwrap();
    let mat = Lambertian {
        name: String::from("flat"),
        albedo: Color::new(100, 200, 300),
        roughness: 0,
    };
    let (scattered, attenuation) = mat.scatter(&ray, &hit);
    assert_eq!(scattered.origin, hit.point);
    assert_eq!(attenuation, Color::new(100, 200, 300));
    // Head-on reflection about (-1, 0, 0) sends the ray straight back.
    assert_eq!(scattered.dir, Vec3::new(-UNIT, 0, 0));
}

#[test]
fn textured_scatter_looks_up_texel() {
    // A 2x2 texture. The head-on hit's normal points along -x, whose surface
    // coordinates are (0, 1/2): column 0 of row 1, the third texel.
    let pixels = vec![
        Color::new(10, 0, 0),
        Color::new(0, 20, 0),
        Color::new(0, 0, 30),
        Color::new(40, 40, 40),
    ];
    let mat = TextureLambertian { name: String::from("tex"), pixels, roughness: 0 };
    let sphere = Sphere::new(Vec3::new(163840, 0, 0), 32768, 0);
    let ray = Ray::new(Vec3::new(0, 0, 0), Vec3::new(32768, 0, 0));
    let hit = sphere.hit(&ray, &wide_interval()).unwrap();
    let (_, attenuation) = mat.scatter(&ray, &hit);
    assert_eq!(attenuation, Color::new(0, 0, 30));
}

#[test]
fn random_unit_sphere_samples_stay_inside() {
    // The sampler must return points strictly inside the grid unit ball; a
    // broken random source would escape it.
    for _ in 0..200 {
        let p = Vec3::random_in_unit_sphere();
        let len2 = p.dot(&p);
        assert!(len2 < (UNIT as i64) * (UNIT as i64));
        assert!(p.x.abs() <= UNIT && p.y.abs() <= UNIT && p.z.abs() <= UNIT);
    }
}

#[test]
fn rough_scatter_stays_in_hemisphere_or_falls_back() {
    let sphere = Sphere::new(Vec3::new(163840, 0, 0), 32768, 0);
    let ray = Ray::new(Vec3::new(0, 0, 0), Vec3::new(32768, 0, 0));
    let hit = sphere.hit(&ray, &wide_interval()).unwrap();
    let mat = Lambertian {
        name: String::from("rough"),
        albedo: Color::new(60000, 60000, 60000),
        roughness: UNIT / 2,
    };
    let base = Vec3::new(-UNIT, 0, 0);
    for _ in 0..50 {
        let (scattered, _) = mat.scatter(&ray, &hit);
        let visible = scattered.dir.dot(&hit.normal) > 0;
        assert!(visible || scattered.dir == base);
        assert!(scattered.dir != Vec3::new(0, 0, 0));
    }
}
