use crate::aabb::{misses_all, nearest_hit, tri_at_least, tri_can_shift, tri_shifted};
use crate::bounds::{Bounds, SBounds};
use crate::hit_result::{HitResult, SHit};
use crate::interval::{sint_contains, sint_wf, Interval, SInterval};
use crate::mesh::Mesh;
use crate::rat::{rle, rlt, srat_wf, SRat};
use crate::ray::{ray_wf, Ray, SRay};
use crate::sphere::{spec_sphere_hit, Sphere};
use crate::vec3::{v3_add, v3_in, Vec3, V3, COORD_BOUND};
use vstd::prelude::*;

verus! {

/// A top-level scene primitive.
pub enum HittableType {
    Sphere(Sphere),
    Mesh(Mesh),
}

pub open spec fn object_wf(o: HittableType) -> bool {
    match o {
        HittableType::Sphere(s) => s.wf(),
        HittableType::Mesh(m) => m.wf(),
    }
}

/// The primitive reports no hit within the interval.
pub open spec fn object_misses(o: HittableType, r: SRay, i: SInterval) -> bool {
    match o {
        HittableType::Sphere(s) => spec_sphere_hit(s@, r, i) is None,
        HittableType::Mesh(m) => misses_all(m.tris(), r, i),
    }
}

/// The primitive reports exactly this hit within the interval (for a mesh:
/// the nearest among its triangles).
pub open spec fn object_gives(o: HittableType, r: SRay, i: SInterval, h: SHit) -> bool {
    match o {
        HittableType::Sphere(s) => spec_sphere_hit(s@, r, i) == Some(h),
        HittableType::Mesh(m) => nearest_hit(m.tris(), r, i, h),
    }
}

impl HittableType {
    pub open spec fn wf(&self) -> bool {
        object_wf(*self)
    }

    /// Nearest hit of this primitive within the interval.
    pub fn hit(&self, ray: &Ray, interval: &Interval) -> (r: Option<HitResult>)
        requires
            self.wf(),
            ray.wf(),
            interval.wf(),
        ensures
            match r {
                None => object_misses(*self, ray@, interval@),
                Some(h) => h.wf() && sint_contains(interval@, h@.t) && object_gives(
                    *self,
                    ray@,
                    interval@,
                    h@,
                ),
            },
    {
        match self {
            HittableType::Sphere(sphere) => sphere.hit(ray, interval),
            HittableType::Mesh(mesh) => mesh.hit(ray, interval),
        }
    }

    pub fn get_bounds(&self) -> (r: &Bounds)
        ensures
            match self {
                HittableType::Sphere(s) => r@ == s@.bounds,
                HittableType::Mesh(m) => r == &m.aabb.bounds,
            },
    {
        match self {
            HittableType::Sphere(sphere) => sphere.get_bounds(),
            HittableType::Mesh(mesh) => mesh.get_bounds(),
        }
    }

    pub fn translate(&mut self, vec: &Vec3)
        requires
            old(self).wf(),
            match *old(self) {
                HittableType::Sphere(s) => v3_in(v3_add(s@.center, vec@), COORD_BOUND as int),
                HittableType::Mesh(m) => forall|k: int|
                    0 <= k < m.tris().len() ==> #[trigger] tri_can_shift(m.tris()[k], vec@),
            },
        ensures
            final(self).wf(),
            match (*old(self), *final(self)) {
                (HittableType::Sphere(s0), HittableType::Sphere(s1)) => {
                    &&& s1@.center == v3_add(s0@.center, vec@)
                    &&& s1@.radius == s0@.radius
                    &&& s1@.material_index == s0@.material_index
                },
                (HittableType::Mesh(m0), HittableType::Mesh(m1)) => {
                    &&& m1.tris().len() == m0.tris().len()
                    &&& forall|k: int|
                        0 <= k < m0.tris().len() ==> #[trigger] tri_shifted(
                            m0.tris()[k],
                            m1.tris()[k],
                            vec@,
                        )
                },
                _ => false,
            },
    {
        match self {
            HittableType::Sphere(sphere) => sphere.translate(vec),
            HittableType::Mesh(mesh) => mesh.translate(vec),
        }
    }
}

/// The triangle's material index lies within the material table.
pub open spec fn tri_mat_ok(t: crate::tri::Tri, len: int) -> bool {
    t@.material_index < len
}

/// Every material index the primitive can report lies within the table.
pub open spec fn object_mats_ok(o: HittableType, len: int) -> bool {
    match o {
        HittableType::Sphere(s) => s@.material_index < len,
        HittableType::Mesh(m) => forall|k: int|
            0 <= k < m.tris().len() ==> #[trigger] tri_mat_ok(m.tris()[k], len),
    }
}

/// A reported hit's material index lies within the table.
pub proof fn lemma_object_hit_mat(o: HittableType, r: SRay, i: SInterval, h: SHit, len: int)
    requires
        object_gives(o, r, i, h),
        object_mats_ok(o, len),
    ensures
        h.material_index < len,
{
    match o {
        HittableType::Sphere(s) => {},
        HittableType::Mesh(m) => {
            let k = crate::aabb::lemma_nearest_witness(m.tris(), r, i, h);
            assert(tri_mat_ok(m.tris()[k], len));
        },
    }
}

/// A primitive's hit from a tightened interval is its hit in the wider one.
pub proof fn lemma_object_gives_widen(
    o: HittableType,
    r: SRay,
    i2: SInterval,
    i: SInterval,
    h: SHit,
)
    requires
        sint_wf(i2),
        sint_wf(i),
        ray_wf(r),
        object_gives(o, r, i2, h),
        i2.min == i.min,
        rle(i2.max, i.max),
    ensures
        object_gives(o, r, i, h),
        sint_contains(i, h.t),
{
    match o {
        HittableType::Sphere(s) => {
            crate::sphere::lemma_self_dot_pos(r.dir);
            crate::rat::lemma_rlt_rle_trans(h.t, i2.max, i.max);
        },
        HittableType::Mesh(m) => {
            crate::aabb::lemma_nearest_widen(m.tris(), r, i2, i, h);
        },
    }
}

} // verus!
