use crate::aabb::{aabb_wf, misses_all, nearest_hit, tree_tris, tri_can_shift, tri_shifted, AABB};
use crate::bounds::Bounds;
use crate::hit_result::HitResult;
use crate::interval::{sint_contains, Interval};
use crate::tri::Tri;
use crate::vec3::Vec3;
use vstd::prelude::*;

verus! {

/// A triangle mesh: a bounding volume hierarchy over its triangles.
pub struct Mesh {
    pub aabb: AABB,
}

impl Mesh {
    pub open spec fn wf(&self) -> bool {
        aabb_wf(self.aabb)
    }

    /// The mesh's triangles, in tree order.
    pub open spec fn tris(&self) -> Seq<Tri> {
        tree_tris(self.aabb)
    }

    pub fn new(children: Vec<Tri>) -> (r: Mesh)
        requires
            children@.len() >= 1,
            forall|k: int| 0 <= k < children@.len() ==> (#[trigger] children@[k]).wf(),
        ensures
            r.wf(),
            r.tris().to_multiset() == children@.to_multiset(),
    {
        let aabb = AABB::new(children);
        Mesh { aabb }
    }

    /// Nearest hit among the mesh's triangles, through the hierarchy.
    pub fn hit(&self, ray: &crate::ray::Ray, interval: &Interval) -> (r: Option<HitResult>)
        requires
            self.wf(),
            ray.wf(),
            interval.wf(),
        ensures
            match r {
                None => misses_all(self.tris(), ray@, interval@),
                Some(h) => h.wf() && sint_contains(interval@, h@.t) && nearest_hit(
                    self.tris(),
                    ray@,
                    interval@,
                    h@,
                ),
            },
    {
        self.aabb.hit(ray, interval)
    }

    pub fn get_bounds(&self) -> (r: &Bounds)
        ensures
            r == &self.aabb.bounds,
    {
        &self.aabb.bounds
    }

    pub fn translate(&mut self, vec: &Vec3)
        requires
            old(self).wf(),
            forall|k: int|
                0 <= k < old(self).tris().len() ==> #[trigger] tri_can_shift(
                    old(self).tris()[k],
                    vec@,
                ),
        ensures
            final(self).wf(),
            final(self).aabb.bounds@ == crate::aabb::sbounds_shifted(old(self).aabb.bounds@, vec@),
            final(self).tris().len() == old(self).tris().len(),
            forall|k: int|
                0 <= k < old(self).tris().len() ==> #[trigger] tri_shifted(
                    old(self).tris()[k],
                    final(self).tris()[k],
                    vec@,
                ),
    {
        proof {
            assert forall|k: int| 0 <= k < tree_tris(self.aabb).len() implies
                #[trigger] tri_can_shift(tree_tris(self.aabb)[k], vec@) by {
                assert(tri_can_shift(old(self).tris()[k], vec@));
            }
        }
        self.aabb.translate(vec);
    }
}

} // verus!
