use crate::rat::{srat_wf, Rat, SRat};
use crate::ray::POINT_BOUND;
use crate::vec3::{v3_in, v3_zero, Vec3, V3, NORMAL_BOUND};
use vstd::prelude::*;

verus! {

/// Mathematical view of a hit record.
pub ghost struct SHit {
    pub t: SRat,
    pub point: V3,
    pub normal: V3,
    pub u: SRat,
    pub v: SRat,
    pub material_index: int,
}

pub open spec fn shit_wf(h: SHit) -> bool {
    &&& srat_wf(h.t)
    &&& srat_wf(h.u)
    &&& srat_wf(h.v)
    &&& v3_in(h.point, POINT_BOUND as int)
    &&& v3_in(h.normal, NORMAL_BOUND as int)
    &&& h.normal != v3_zero()
    &&& 0 <= h.material_index
}

/// What a successful ray-primitive intersection reports: the parametric
/// distance, the grid point, an unnormalized surface normal (its direction
/// carries the information; its length does not), the surface coordinates,
/// and the index of the material to shade with.
#[derive(Clone, Copy, PartialEq, Eq, Structural, Debug)]
pub struct HitResult {
    pub t: Rat,
    pub point: Vec3,
    pub normal: Vec3,
    pub u: Rat,
    pub v: Rat,
    pub material_index: usize,
}

impl View for HitResult {
    type V = SHit;

    open spec fn view(&self) -> SHit {
        SHit {
            t: self.t@,
            point: self.point@,
            normal: self.normal@,
            u: self.u@,
            v: self.v@,
            material_index: self.material_index as int,
        }
    }
}

impl HitResult {
    pub open spec fn wf(&self) -> bool {
        shit_wf(self@)
    }
}

} // verus!
