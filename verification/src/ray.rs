use crate::rat::{srat_wf, Rat, SRat};
use crate::vec3::{v3_in, v3_zero, Vec3, V3, COORD_BOUND};
use vstd::prelude::*;

verus! {

/// Largest component magnitude of a hit point: a reported hit always lies
/// inside the hull of some primitive, so it stays well within this bound.
pub const POINT_BOUND: i64 = 4 * COORD_BOUND;

/// Mathematical view of a ray.
pub ghost struct SRay {
    pub origin: V3,
    pub dir: V3,
}

pub open spec fn ray_wf(r: SRay) -> bool {
    &&& v3_in(r.origin, POINT_BOUND as int)
    &&& v3_in(r.dir, COORD_BOUND as int)
    &&& r.dir != v3_zero()
}

/// Numerators of the exact rational point `origin + t * dir`; the common
/// denominator is `t.d`.
pub open spec fn ray_at_num(r: SRay, t: SRat) -> V3 {
    V3 {
        x: r.origin.x * t.d + t.n * r.dir.x,
        y: r.origin.y * t.d + t.n * r.dir.y,
        z: r.origin.z * t.d + t.n * r.dir.z,
    }
}

/// The point `origin + t * dir` rounded down to the coordinate grid.
pub open spec fn ray_at_floor(r: SRay, t: SRat) -> V3 {
    V3 {
        x: ray_at_num(r, t).x / t.d,
        y: ray_at_num(r, t).y / t.d,
        z: ray_at_num(r, t).z / t.d,
    }
}

/// A ray: origin plus direction. The direction need not be normalized, only
/// non-degenerate; intersection arithmetic divides by it symbolically.
#[derive(Clone, Copy, PartialEq, Eq, Structural, Debug)]
pub struct Ray {
    pub origin: Vec3,
    pub dir: Vec3,
}

impl View for Ray {
    type V = SRay;

    open spec fn view(&self) -> SRay {
        SRay { origin: self.origin@, dir: self.dir@ }
    }
}

impl Ray {
    pub open spec fn wf(&self) -> bool {
        ray_wf(self@)
    }

    pub fn new(origin: Vec3, dir: Vec3) -> (r: Ray)
        requires
            v3_in(origin@, POINT_BOUND as int),
            v3_in(dir@, COORD_BOUND as int),
            dir@ != v3_zero(),
        ensures
            r@ == (SRay { origin: origin@, dir: dir@ }),
            r.wf(),
    {
        Ray { origin, dir }
    }

    /// Projects the ray to parametric distance `t`, rounding each coordinate
    /// down to the grid. The caller must know the exact point is in range —
    /// for a reported hit it always is, because the point lies inside the
    /// primitive that produced it.
    pub fn at(&self, t: &Rat) -> (r: Vec3)
        requires
            self.wf(),
            t.wf(),
            v3_in_scaled(ray_at_num(self@, t@), POINT_BOUND as int, t@.d),
        ensures
            r@ == ray_at_floor(self@, t@),
            v3_in(r@, POINT_BOUND as int),
    {
        proof {
            lemma_at_num_fits(self@, t@);
            crate::rat::lemma_div_range(ray_at_num(self@, t@).x, t@.d, POINT_BOUND as int);
            crate::rat::lemma_div_range(ray_at_num(self@, t@).y, t@.d, POINT_BOUND as int);
            crate::rat::lemma_div_range(ray_at_num(self@, t@).z, t@.d, POINT_BOUND as int);
        }
        let num_x = (self.origin.x as i128) * t.den + t.num * (self.dir.x as i128);
        let num_y = (self.origin.y as i128) * t.den + t.num * (self.dir.y as i128);
        let num_z = (self.origin.z as i128) * t.den + t.num * (self.dir.z as i128);
        Vec3 {
            x: crate::rat::div_floor(num_x, t.den) as i64,
            y: crate::rat::div_floor(num_y, t.den) as i64,
            z: crate::rat::div_floor(num_z, t.den) as i64,
        }
    }
}

/// Each component of `v`, divided by the positive scale `d`, lies in `[-m, m]`.
pub open spec fn v3_in_scaled(v: V3, m: int, d: int) -> bool {
    &&& -(m * d) <= v.x <= m * d
    &&& -(m * d) <= v.y <= m * d
    &&& -(m * d) <= v.z <= m * d
}

proof fn lemma_at_num_fits(r: SRay, t: SRat)
    requires
        ray_wf(r),
        srat_wf(t),
    ensures
        v3_in(ray_at_num(r, t), 0x20_0000_0000_0000_0000_0000),
        -0x10_0000_0000_0000_0000_0000 <= r.origin.x * t.d <= 0x10_0000_0000_0000_0000_0000,
        -0x10_0000_0000_0000_0000_0000 <= r.origin.y * t.d <= 0x10_0000_0000_0000_0000_0000,
        -0x10_0000_0000_0000_0000_0000 <= r.origin.z * t.d <= 0x10_0000_0000_0000_0000_0000,
        -0x10_0000_0000_0000_0000_0000 <= t.n * r.dir.x <= 0x10_0000_0000_0000_0000_0000,
        -0x10_0000_0000_0000_0000_0000 <= t.n * r.dir.y <= 0x10_0000_0000_0000_0000_0000,
        -0x10_0000_0000_0000_0000_0000 <= t.n * r.dir.z <= 0x10_0000_0000_0000_0000_0000,
{
    crate::vec3::lemma_mul_bound(r.origin.x, t.d, POINT_BOUND as int, crate::rat::RAT_BOUND as int);
    crate::vec3::lemma_mul_bound(r.origin.y, t.d, POINT_BOUND as int, crate::rat::RAT_BOUND as int);
    crate::vec3::lemma_mul_bound(r.origin.z, t.d, POINT_BOUND as int, crate::rat::RAT_BOUND as int);
    crate::vec3::lemma_mul_bound(t.n, r.dir.x, crate::rat::RAT_BOUND as int, COORD_BOUND as int);
    crate::vec3::lemma_mul_bound(t.n, r.dir.y, crate::rat::RAT_BOUND as int, COORD_BOUND as int);
    crate::vec3::lemma_mul_bound(t.n, r.dir.z, crate::rat::RAT_BOUND as int, COORD_BOUND as int);
}

} // verus!
