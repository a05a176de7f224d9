use crate::bounds::{axis_adm, sbounds_wf, slab_adm, Bounds, SBounds};
use crate::hit_result::{HitResult, SHit};
use crate::interval::{sint_contains, Interval, SInterval};
use crate::rat::{srat_int, srat_wf, Rat, SRat};
use crate::ray::{ray_at_floor, ray_at_num, ray_wf, v3_in_scaled, Ray, SRay, POINT_BOUND};
use crate::vec3::{
    spec_quantize, v3_add, v3_cross, v3_dot, v3_in, v3_neg, v3_scale, v3_sub, v3_zero, Vec3, V3,
    COORD_BOUND, NORMAL_BOUND, UNIT,
};
use vstd::prelude::*;

verus! {

/// Mathematical view of a triangle, with its precomputed edge vectors, face
/// normal and padded bounding box.
pub ghost struct STri {
    pub v0: V3,
    pub v1: V3,
    pub v2: V3,
    pub normals: Option<(V3, V3, V3)>,
    pub uvs: Option<(V3, V3, V3)>,
    pub edge_ab: V3,
    pub edge_ac: V3,
    pub face_normal: V3,
    pub bounds: SBounds,
    pub material_index: int,
}

/// The box around a triangle, padded one grid unit on each side so that
/// every point of the (closed) triangle lies strictly inside it.
pub open spec fn tri_bounds(v0: V3, v1: V3, v2: V3) -> SBounds {
    let lo = crate::vec3::v3_min(v0, crate::vec3::v3_min(v1, v2));
    let hi = crate::vec3::v3_max(v0, crate::vec3::v3_max(v1, v2));
    SBounds {
        min: V3 { x: lo.x - 1, y: lo.y - 1, z: lo.z - 1 },
        max: V3 { x: hi.x + 1, y: hi.y + 1, z: hi.z + 1 },
    }
}

pub open spec fn opt3_in(o: Option<(V3, V3, V3)>, m: int) -> bool {
    match o {
        None => true,
        Some(t) => v3_in(t.0, m) && v3_in(t.1, m) && v3_in(t.2, m),
    }
}

pub open spec fn stri_wf(t: STri) -> bool {
    &&& v3_in(t.v0, COORD_BOUND as int)
    &&& v3_in(t.v1, COORD_BOUND as int)
    &&& v3_in(t.v2, COORD_BOUND as int)
    &&& opt3_in(t.normals, COORD_BOUND as int)
    &&& opt3_in(t.uvs, COORD_BOUND as int)
    &&& t.edge_ab == v3_sub(t.v1, t.v0)
    &&& t.edge_ac == v3_sub(t.v2, t.v0)
    &&& t.face_normal == v3_cross(t.edge_ab, t.edge_ac)
    &&& t.bounds == tri_bounds(t.v0, t.v1, t.v2)
    &&& t.material_index >= 0
}

/// The intersection determinant: positive when the ray approaches the
/// triangle's front face. A non-positive determinant (back-facing or edge-on)
/// is a miss.
pub open spec fn tri_det(t: STri, r: SRay) -> int {
    -v3_dot(r.dir, t.face_normal)
}

/// Numerator of the hit parameter over the denominator `tri_det`.
pub open spec fn tri_tn(t: STri, r: SRay) -> int {
    v3_dot(v3_sub(r.origin, t.v0), t.face_normal)
}

pub open spec fn tri_dao(t: STri, r: SRay) -> V3 {
    v3_cross(v3_sub(r.origin, t.v0), r.dir)
}

/// Numerator of the barycentric coordinate `u` over `tri_det`.
pub open spec fn tri_un(t: STri, r: SRay) -> int {
    v3_dot(t.edge_ac, tri_dao(t, r))
}

/// Numerator of the barycentric coordinate `v` over `tri_det`.
pub open spec fn tri_vn(t: STri, r: SRay) -> int {
    -v3_dot(t.edge_ab, tri_dao(t, r))
}

/// The hit parameter as a rational.
pub open spec fn tri_t(t: STri, r: SRay) -> SRat {
    SRat { n: tri_tn(t, r), d: tri_det(t, r) }
}

/// The ray meets the triangle's front face with barycentric coordinates
/// inside it (`u >= 0`, `v >= 0`, `u + v <= 1`, scaled by the determinant) —
/// every part of acceptance that does not depend on the search interval.
pub open spec fn tri_hits_ray(t: STri, r: SRay) -> bool {
    &&& tri_det(t, r) > 0
    &&& 0 <= tri_un(t, r)
    &&& tri_un(t, r) <= tri_det(t, r)
    &&& 0 <= tri_vn(t, r)
    &&& tri_un(t, r) + tri_vn(t, r) <= tri_det(t, r)
}

/// The triangle reports a hit: the ray meets it and the parameter is
/// admitted by the search interval.
pub open spec fn tri_accepts(t: STri, r: SRay, i: SInterval) -> bool {
    tri_hits_ray(t, r) && sint_contains(i, tri_t(t, r))
}

/// The shading normal: the barycentric interpolation of the per-vertex
/// normals when they exist (quantized back to the direction grid), else the
/// face normal; degenerate interpolation falls back to the face normal.
pub open spec fn tri_shade_normal(t: STri, r: SRay) -> V3 {
    match t.normals {
        None => t.face_normal,
        Some(ns) => {
            let det = tri_det(t, r);
            let un = tri_un(t, r);
            let vn = tri_vn(t, r);
            let w = det - un - vn;
            let nn = V3 {
                x: ns.0.x * w + ns.1.x * un + ns.2.x * vn,
                y: ns.0.y * w + ns.1.y * un + ns.2.y * vn,
                z: ns.0.z * w + ns.1.z * un + ns.2.z * vn,
            };
            if nn == v3_zero() {
                t.face_normal
            } else {
                spec_quantize(nn)
            }
        },
    }
}

/// One interpolated texture coordinate. The inputs are fixed-point (a value
/// of `UNIT` means 1.0), so dividing the barycentric combination by the
/// determinant leaves a fixed-point numerator over `UNIT`.
pub open spec fn tri_uv_coord(a: int, b: int, c: int, w: int, un: int, vn: int, det: int) -> SRat {
    SRat { n: (a * w + b * un + c * vn) / det, d: UNIT as int }
}

/// The interpolated texture coordinates, or zero when the triangle has none.
pub open spec fn tri_uv(t: STri, r: SRay) -> (SRat, SRat) {
    match t.uvs {
        None => (srat_int(0), srat_int(0)),
        Some(us) => {
            let det = tri_det(t, r);
            let un = tri_un(t, r);
            let vn = tri_vn(t, r);
            let w = det - un - vn;
            (
                tri_uv_coord(us.0.x, us.1.x, us.2.x, w, un, vn, det),
                tri_uv_coord(us.0.y, us.1.y, us.2.y, w, un, vn, det),
            )
        },
    }
}

/// What intersecting a ray with a triangle returns, exactly: the
/// determinant-based front-face test, the plane parameter, and the
/// barycentric inside test; on acceptance, the grid-rounded point, the
/// shading normal and the interpolated texture coordinates.
pub open spec fn spec_tri_hit(t: STri, r: SRay, i: SInterval) -> Option<SHit> {
    if tri_accepts(t, r, i) {
        Some(
            SHit {
                t: tri_t(t, r),
                point: ray_at_floor(r, tri_t(t, r)),
                normal: tri_shade_normal(t, r),
                u: tri_uv(t, r).0,
                v: tri_uv(t, r).1,
                material_index: t.material_index,
            },
        )
    } else {
        None
    }
}

proof fn lemma_mul_comm(a: int, b: int)
    by (nonlinear_arith)
    ensures
        a * b == b * a,
{
}

proof fn lemma_mul_neg(a: int, b: int)
    by (nonlinear_arith)
    ensures
        a * (-b) == -(a * b),
        (-a) * b == -(a * b),
{
}

proof fn lemma_mul_sub(a: int, b: int, c: int)
    by (nonlinear_arith)
    ensures
        (a - b) * c == a * c - b * c,
{
}

proof fn lemma_dot_comm(a: V3, b: V3)
    by (nonlinear_arith)
    ensures
        v3_dot(a, b) == v3_dot(b, a),
{
}

proof fn lemma_cross_neg_right(a: V3, b: V3)
    by (nonlinear_arith)
    ensures
        v3_cross(a, v3_neg(b)) == v3_neg(v3_cross(a, b)),
{
}

/// Cramer's rule for the intersection system: the ray point at the plane
/// parameter equals the barycentric combination of the triangle's vertices,
/// scaled by the determinant:
/// `det * (origin - v0) + tn * dir == un * edge_ab + vn * edge_ac`.
proof fn lemma_tri_cramer(t: STri, r: SRay)
    requires
        t.edge_ab == v3_sub(t.v1, t.v0),
        t.edge_ac == v3_sub(t.v2, t.v0),
        t.face_normal == v3_cross(t.edge_ab, t.edge_ac),
    ensures
        v3_add(
            v3_scale(v3_sub(r.origin, t.v0), tri_det(t, r)),
            v3_scale(r.dir, tri_tn(t, r)),
        ) == v3_add(v3_scale(t.edge_ab, tri_un(t, r)), v3_scale(t.edge_ac, tri_vn(t, r))),
{
    let ao = v3_sub(r.origin, t.v0);
    let d = r.dir;
    let n = t.face_normal;
    let dao = tri_dao(t, r);
    let e1 = t.edge_ab;
    let e2 = t.edge_ac;

    // n x (d x ao) == d (n.ao) - ao (n.d)
    crate::vec3::lemma_triple_product(n, d, ao);
    // dao x (e1 x e2) == e1 (dao.e2) - e2 (dao.e1)
    crate::vec3::lemma_triple_product(dao, e1, e2);
    // d x ao == -(ao x d) == -dao, so n x (d x ao) == -(n x dao) == dao x n.
    crate::vec3::lemma_cross_antisym(d, ao);
    lemma_cross_neg_right(n, dao);
    crate::vec3::lemma_cross_antisym(n, dao);
    assert(v3_cross(n, v3_cross(d, ao)) == v3_cross(dao, n));
    assert(v3_cross(dao, v3_cross(e1, e2)) == v3_cross(dao, n));

    // Reconcile scalar factors with the named spec quantities.
    lemma_dot_comm(n, ao);
    lemma_dot_comm(n, d);
    lemma_dot_comm(dao, e2);
    lemma_dot_comm(dao, e1);
    lemma_mul_neg(ao.x, v3_dot(d, n));
    lemma_mul_neg(ao.y, v3_dot(d, n));
    lemma_mul_neg(ao.z, v3_dot(d, n));
    lemma_mul_neg(e2.x, v3_dot(e1, dao));
    lemma_mul_neg(e2.y, v3_dot(e1, dao));
    lemma_mul_neg(e2.z, v3_dot(e1, dao));
}

proof fn lemma_convex_bound(p0: int, p1: int, p2: int, wa: int, wb: int, wc: int, lo: int, hi: int)
    by (nonlinear_arith)
    requires
        wa >= 0,
        wb >= 0,
        wc >= 0,
        lo <= p0 <= hi,
        lo <= p1 <= hi,
        lo <= p2 <= hi,
    ensures
        lo * (wa + wb + wc) <= wa * p0 + wb * p1 + wc * p2 <= hi * (wa + wb + wc),
{
}

proof fn lemma_mul_lt(a: int, b: int, c: int)
    by (nonlinear_arith)
    requires
        a < b,
        c > 0,
    ensures
        a * c < b * c,
{
}

proof fn lemma_scaled_range(numx: int, lo: int, hi: int, det: int, pb: int)
    by (nonlinear_arith)
    requires
        det > 0,
        lo * det <= numx <= hi * det,
        -pb <= lo,
        hi <= pb,
    ensures
        -(pb * det) <= numx <= pb * det,
{
}

/// An accepted hit keeps the exact ray point strictly inside the triangle's
/// padded box (so any box that contains the triangle's box admits the
/// parameter), and within the global point range.
pub proof fn lemma_tri_point_in_bounds(t: STri, r: SRay, i: SInterval)
    requires
        stri_wf(t),
        ray_wf(r),
        tri_accepts(t, r, i),
    ensures
        slab_adm(t.bounds, r, tri_t(t, r)),
        v3_in_scaled(ray_at_num(r, tri_t(t, r)), POINT_BOUND as int, tri_t(t, r).d),
{
    let det = tri_det(t, r);
    let tn = tri_tn(t, r);
    let un = tri_un(t, r);
    let vn = tri_vn(t, r);
    let w = det - un - vn;
    let tr = tri_t(t, r);
    let num = ray_at_num(r, tr);

    lemma_tri_cramer(t, r);

    // Rewrite the point numerator as a convex combination of the vertices.
    lemma_mul_sub(r.origin.x, t.v0.x, det);
    lemma_mul_sub(r.origin.y, t.v0.y, det);
    lemma_mul_sub(r.origin.z, t.v0.z, det);
    lemma_mul_sub(t.v1.x, t.v0.x, un);
    lemma_mul_sub(t.v1.y, t.v0.y, un);
    lemma_mul_sub(t.v1.z, t.v0.z, un);
    lemma_mul_sub(t.v2.x, t.v0.x, vn);
    lemma_mul_sub(t.v2.y, t.v0.y, vn);
    lemma_mul_sub(t.v2.z, t.v0.z, vn);
    lemma_mul_comm(r.dir.x, tn);
    lemma_mul_comm(r.dir.y, tn);
    lemma_mul_comm(r.dir.z, tn);
    lemma_mul_comm(t.v0.x, w);
    lemma_mul_comm(t.v0.y, w);
    lemma_mul_comm(t.v0.z, w);
    lemma_mul_comm(t.v1.x, un);
    lemma_mul_comm(t.v1.y, un);
    lemma_mul_comm(t.v1.z, un);
    lemma_mul_comm(t.v2.x, vn);
    lemma_mul_comm(t.v2.y, vn);
    lemma_mul_comm(t.v2.z, vn);
    lemma_mul_comm(t.v0.x, det);
    lemma_mul_comm(t.v0.y, det);
    lemma_mul_comm(t.v0.z, det);
    lemma_mul_comm(t.v0.x, un);
    lemma_mul_comm(t.v0.y, un);
    lemma_mul_comm(t.v0.z, un);
    lemma_mul_comm(t.v0.x, vn);
    lemma_mul_comm(t.v0.y, vn);
    lemma_mul_comm(t.v0.z, vn);
    lemma_mul_sub(det - un, vn, t.v0.x);
    lemma_mul_sub(det - un, vn, t.v0.y);
    lemma_mul_sub(det - un, vn, t.v0.z);
    lemma_mul_sub(det, un, t.v0.x);
    lemma_mul_sub(det, un, t.v0.y);
    lemma_mul_sub(det, un, t.v0.z);
    assert(num.x == w * t.v0.x + un * t.v1.x + vn * t.v2.x);
    assert(num.y == w * t.v0.y + un * t.v1.y + vn * t.v2.y);
    assert(num.z == w * t.v0.z + un * t.v1.z + vn * t.v2.z);

    let lo = crate::vec3::v3_min(t.v0, crate::vec3::v3_min(t.v1, t.v2));
    let hi = crate::vec3::v3_max(t.v0, crate::vec3::v3_max(t.v1, t.v2));
    lemma_convex_bound(t.v0.x, t.v1.x, t.v2.x, w, un, vn, lo.x, hi.x);
    lemma_convex_bound(t.v0.y, t.v1.y, t.v2.y, w, un, vn, lo.y, hi.y);
    lemma_convex_bound(t.v0.z, t.v1.z, t.v2.z, w, un, vn, lo.z, hi.z);
    assert(lo.x * det <= num.x <= hi.x * det);
    assert(lo.y * det <= num.y <= hi.y * det);
    assert(lo.z * det <= num.z <= hi.z * det);

    // Padding makes the containment strict.
    lemma_mul_lt(lo.x - 1, lo.x, det);
    lemma_mul_lt(lo.y - 1, lo.y, det);
    lemma_mul_lt(lo.z - 1, lo.z, det);
    lemma_mul_lt(hi.x, hi.x + 1, det);
    lemma_mul_lt(hi.y, hi.y + 1, det);
    lemma_mul_lt(hi.z, hi.z + 1, det);
    lemma_mul_comm(r.origin.x, det);
    lemma_mul_comm(r.origin.y, det);
    lemma_mul_comm(r.origin.z, det);
    assert(axis_adm(t.bounds.min.x, t.bounds.max.x, r.origin.x, r.dir.x, tr));
    assert(axis_adm(t.bounds.min.y, t.bounds.max.y, r.origin.y, r.dir.y, tr));
    assert(axis_adm(t.bounds.min.z, t.bounds.max.z, r.origin.z, r.dir.z, tr));

    lemma_scaled_range(num.x, lo.x, hi.x, det, POINT_BOUND as int);
    lemma_scaled_range(num.y, lo.y, hi.y, det, POINT_BOUND as int);
    lemma_scaled_range(num.z, lo.z, hi.z, det, POINT_BOUND as int);
}

/// A triangle with optional per-vertex normals and texture coordinates.
#[derive(Clone, Copy, Debug)]
pub struct Tri {
    pub v0: Vec3,
    pub v1: Vec3,
    pub v2: Vec3,
    pub normals: Option<(Vec3, Vec3, Vec3)>,
    pub uvs: Option<(Vec3, Vec3, Vec3)>,
    pub face_normal: Vec3,
    pub edge_ab: Vec3,
    pub edge_ac: Vec3,
    pub bounds: Bounds,
    pub material_index: usize,
}

pub open spec fn opt3_view(o: Option<(Vec3, Vec3, Vec3)>) -> Option<(V3, V3, V3)> {
    match o {
        None => None,
        Some(t) => Some((t.0@, t.1@, t.2@)),
    }
}

impl View for Tri {
    type V = STri;

    open spec fn view(&self) -> STri {
        STri {
            v0: self.v0@,
            v1: self.v1@,
            v2: self.v2@,
            normals: opt3_view(self.normals),
            uvs: opt3_view(self.uvs),
            edge_ab: self.edge_ab@,
            edge_ac: self.edge_ac@,
            face_normal: self.face_normal@,
            bounds: self.bounds@,
            material_index: self.material_index as int,
        }
    }
}

impl Tri {
    pub open spec fn wf(&self) -> bool {
        stri_wf(self@)
    }

    pub fn new(
        v0: Vec3,
        v1: Vec3,
        v2: Vec3,
        normals: Option<(Vec3, Vec3, Vec3)>,
        uvs: Option<(Vec3, Vec3, Vec3)>,
        material_index: usize,
    ) -> (r: Tri)
        requires
            v3_in(v0@, COORD_BOUND as int),
            v3_in(v1@, COORD_BOUND as int),
            v3_in(v2@, COORD_BOUND as int),
            opt3_in(opt3_view(normals), COORD_BOUND as int),
            opt3_in(opt3_view(uvs), COORD_BOUND as int),
        ensures
            r@.v0 == v0@ && r@.v1 == v1@ && r@.v2 == v2@,
            r@.normals == opt3_view(normals),
            r@.uvs == opt3_view(uvs),
            r@.material_index == material_index as int,
            r.wf(),
    {
        let edge_ab = v1.sub(&v0);
        let edge_ac = v2.sub(&v0);
        let face_normal = crate::vec3::cross(edge_ab, edge_ac);
        let lo = crate::vec3::min(v0, crate::vec3::min(v1, v2));
        let hi = crate::vec3::max(v0, crate::vec3::max(v1, v2));
        let bounds = Bounds {
            min: Vec3 { x: lo.x - 1, y: lo.y - 1, z: lo.z - 1 },
            max: Vec3 { x: hi.x + 1, y: hi.y + 1, z: hi.z + 1 },
        };
        Tri { v0, v1, v2, normals, uvs, face_normal, edge_ab, edge_ac, bounds, material_index }
    }

    pub fn get_bounds(&self) -> (r: &Bounds)
        ensures
            r@ == self@.bounds,
    {
        &self.bounds
    }

    /// Shift the triangle (vertices, cached box) by `vec`; edges and the face
    /// normal are differences and do not move.
    pub fn translate(&mut self, vec: &Vec3)
        requires
            old(self).wf(),
            v3_in(v3_add(old(self)@.v0, vec@), COORD_BOUND as int),
            v3_in(v3_add(old(self)@.v1, vec@), COORD_BOUND as int),
            v3_in(v3_add(old(self)@.v2, vec@), COORD_BOUND as int),
        ensures
            final(self)@.v0 == v3_add(old(self)@.v0, vec@),
            final(self)@.v1 == v3_add(old(self)@.v1, vec@),
            final(self)@.v2 == v3_add(old(self)@.v2, vec@),
            final(self)@.normals == old(self)@.normals,
            final(self)@.uvs == old(self)@.uvs,
            final(self)@.face_normal == old(self)@.face_normal,
            final(self)@.material_index == old(self)@.material_index,
            final(self).wf(),
    {
        self.v0 = self.v0.add(vec);
        self.v1 = self.v1.add(vec);
        self.v2 = self.v2.add(vec);
        let lo = crate::vec3::min(self.v0, crate::vec3::min(self.v1, self.v2));
        let hi = crate::vec3::max(self.v0, crate::vec3::max(self.v1, self.v2));
        self.bounds = Bounds {
            min: Vec3 { x: lo.x - 1, y: lo.y - 1, z: lo.z - 1 },
            max: Vec3 { x: hi.x + 1, y: hi.y + 1, z: hi.z + 1 },
        };
    }

    /// Intersect a ray with the triangle: exactly `spec_tri_hit`.
    pub fn hit(&self, ray: &Ray, interval: &Interval) -> (r: Option<HitResult>)
        requires
            self.wf(),
            ray.wf(),
            interval.wf(),
        ensures
            match r {
                Some(h) => h.wf() && spec_tri_hit(self@, ray@, interval@) == Some(h@),
                None => spec_tri_hit(self@, ray@, interval@) is None,
            },
    {
        let ao = ray.origin.sub(&self.v0);
        let dao = crate::vec3::cross(ao, ray.dir);
        proof {
            crate::vec3::lemma_cross_bound(self@.edge_ab, self@.edge_ac, 524288, 524288);
            crate::vec3::lemma_cross_bound(ao@, ray@.dir, 1310720, 262144);
            crate::vec3::lemma_dot_bound(ray@.dir, self@.face_normal, 262144, 549755813888);
            crate::vec3::lemma_dot_bound(ao@, self@.face_normal, 1310720, 549755813888);
            crate::vec3::lemma_dot_bound(self@.edge_ac, dao@, 524288, 687194767360);
            crate::vec3::lemma_dot_bound(self@.edge_ab, dao@, 524288, 687194767360);
        }
        let determinant = -(ray.dir.dot(&self.face_normal));
        if determinant <= 0 {
            return None;
        }
        let tn = ao.dot(&self.face_normal);
        let t = Rat::new(tn as i128, determinant as i128);
        if !interval.contains(&t) {
            return None;
        }
        let un = self.edge_ac.dot(&dao);
        if un < 0 || un > determinant {
            return None;
        }
        let vn = -(self.edge_ab.dot(&dao));
        if vn < 0 || un + vn > determinant {
            return None;
        }
        proof {
            lemma_tri_point_in_bounds(self@, ray@, interval@);
            // A positive determinant rules out a degenerate face normal.
            if self@.face_normal == v3_zero() {
                assert(v3_dot(ray@.dir, self@.face_normal) == 0) by (nonlinear_arith)
                    requires
                        self@.face_normal.x == 0,
                        self@.face_normal.y == 0,
                        self@.face_normal.z == 0,
                ;
            }
        }
        let point = ray.at(&t);
        let normal = self.shade_normal(un, vn, determinant, Ghost(ray@));
        let (u, v) = self.uv_coords(un, vn, determinant, Ghost(ray@));
        Some(HitResult { t, point, normal, u, v, material_index: self.material_index })
    }

    /// The shading normal for a hit with barycentric numerators `un`, `vn`
    /// over `det`.
    fn shade_normal(&self, un: i64, vn: i64, det: i64, ghost_ray: Ghost<SRay>) -> (r: Vec3)
        requires
            self.wf(),
            ray_wf(ghost_ray@),
            det == tri_det(self@, ghost_ray@),
            un == tri_un(self@, ghost_ray@),
            vn == tri_vn(self@, ghost_ray@),
            det > 0,
            0 <= un <= det,
            0 <= vn,
            un + vn <= det,
            det <= 0x1000_0000_0000_0000,
        ensures
            r@ == tri_shade_normal(self@, ghost_ray@),
            v3_in(r@, NORMAL_BOUND as int),
            r@ != v3_zero() || self@.face_normal == v3_zero(),
    {
        proof {
            crate::vec3::lemma_cross_bound(self@.edge_ab, self@.edge_ac, 524288, 524288);
        }
        match self.normals {
            None => self.face_normal,
            Some((n0, n1, n2)) => {
                let w = det - un - vn;
                proof {
                    lemma_interp_bound(n0@.x, n1@.x, n2@.x, w as int, un as int, vn as int, det as int, 262144);
                    lemma_interp_bound(n0@.y, n1@.y, n2@.y, w as int, un as int, vn as int, det as int, 262144);
                    lemma_interp_bound(n0@.z, n1@.z, n2@.z, w as int, un as int, vn as int, det as int, 262144);
                    crate::vec3::lemma_mul_bound(n0@.x, w as int, 262144, det as int);
                    crate::vec3::lemma_mul_bound(n0@.y, w as int, 262144, det as int);
                    crate::vec3::lemma_mul_bound(n0@.z, w as int, 262144, det as int);
                    crate::vec3::lemma_mul_bound(n1@.x, un as int, 262144, det as int);
                    crate::vec3::lemma_mul_bound(n1@.y, un as int, 262144, det as int);
                    crate::vec3::lemma_mul_bound(n1@.z, un as int, 262144, det as int);
                    crate::vec3::lemma_mul_bound(n2@.x, vn as int, 262144, det as int);
                    crate::vec3::lemma_mul_bound(n2@.y, vn as int, 262144, det as int);
                    crate::vec3::lemma_mul_bound(n2@.z, vn as int, 262144, det as int);
                }
                let nx = (n0.x as i128) * (w as i128) + (n1.x as i128) * (un as i128) + (
                n2.x as i128) * (vn as i128);
                let ny = (n0.y as i128) * (w as i128) + (n1.y as i128) * (un as i128) + (
                n2.y as i128) * (vn as i128);
                let nz = (n0.z as i128) * (w as i128) + (n1.z as i128) * (un as i128) + (
                n2.z as i128) * (vn as i128);
                if nx == 0 && ny == 0 && nz == 0 {
                    self.face_normal
                } else {
                    let q = crate::vec3::quantize3(nx, ny, nz);
                    proof {
                        assert(UNIT <= NORMAL_BOUND);
                    }
                    q
                }
            },
        }
    }

    /// The interpolated texture coordinates for a hit.
    fn uv_coords(&self, un: i64, vn: i64, det: i64, ghost_ray: Ghost<SRay>) -> (r: (Rat, Rat))
        requires
            self.wf(),
            ray_wf(ghost_ray@),
            det == tri_det(self@, ghost_ray@),
            un == tri_un(self@, ghost_ray@),
            vn == tri_vn(self@, ghost_ray@),
            det > 0,
            0 <= un <= det,
            0 <= vn,
            un + vn <= det,
            det <= 0x1000_0000_0000_0000,
        ensures
            (r.0@, r.1@) == tri_uv(self@, ghost_ray@),
            r.0.wf(),
            r.1.wf(),
    {
        match self.uvs {
            None => (Rat::from_int(0), Rat::from_int(0)),
            Some((a, b, c)) => {
                let w = det - un - vn;
                proof {
                    lemma_interp_bound(a@.x, b@.x, c@.x, w as int, un as int, vn as int, det as int, 262144);
                    lemma_interp_bound(a@.y, b@.y, c@.y, w as int, un as int, vn as int, det as int, 262144);
                    crate::vec3::lemma_mul_bound(a@.x, w as int, 262144, det as int);
                    crate::vec3::lemma_mul_bound(a@.y, w as int, 262144, det as int);
                    crate::vec3::lemma_mul_bound(b@.x, un as int, 262144, det as int);
                    crate::vec3::lemma_mul_bound(b@.y, un as int, 262144, det as int);
                    crate::vec3::lemma_mul_bound(c@.x, vn as int, 262144, det as int);
                    crate::vec3::lemma_mul_bound(c@.y, vn as int, 262144, det as int);
                }
                let nu = (a.x as i128) * (w as i128) + (b.x as i128) * (un as i128) + (
                c.x as i128) * (vn as i128);
                let nv = (a.y as i128) * (w as i128) + (b.y as i128) * (un as i128) + (
                c.y as i128) * (vn as i128);
                proof {
                    lemma_uv_div_bound(nu as int, det as int, 262144);
                    lemma_uv_div_bound(nv as int, det as int, 262144);
                }
                let uq = crate::rat::div_floor(nu, det as i128);
                let vq = crate::rat::div_floor(nv, det as i128);
                (Rat::new(uq, UNIT as i128), Rat::new(vq, UNIT as i128))
            },
        }
    }
}

/// A barycentric interpolation of values bounded by `m` stays within
/// `3 * m * det`.
proof fn lemma_interp_bound(a: int, b: int, c: int, w: int, un: int, vn: int, det: int, m: int)
    by (nonlinear_arith)
    requires
        0 <= w <= det,
        0 <= un <= det,
        0 <= vn <= det,
        -m <= a <= m,
        -m <= b <= m,
        -m <= c <= m,
        m >= 0,
    ensures
        -(3 * (m * det)) <= a * w + b * un + c * vn <= 3 * (m * det),
{
}

proof fn lemma_uv_div_bound(nu: int, det: int, m: int)
    by (nonlinear_arith)
    requires
        det > 0,
        m >= 0,
        -(3 * (m * det)) <= nu <= 3 * (m * det),
    ensures
        -(3 * m) <= nu / det <= 3 * m,
{
}

/// Every reported triangle hit has barycentric coordinates inside the
/// triangle (`u >= 0`, `v >= 0`, `u + v <= 1`, all scaled by the positive
/// determinant), and its point is exactly the ray evaluated at its parameter
/// (rounded to the grid).
pub proof fn lemma_tri_hit_inside(t: STri, r: SRay, i: SInterval)
    requires
        spec_tri_hit(t, r, i) is Some,
    ensures
        tri_det(t, r) > 0,
        0 <= tri_un(t, r),
        0 <= tri_vn(t, r),
        tri_un(t, r) + tri_vn(t, r) <= tri_det(t, r),
        spec_tri_hit(t, r, i).unwrap().t == tri_t(t, r),
        spec_tri_hit(t, r, i).unwrap().point == ray_at_floor(r, tri_t(t, r)),
{
}

proof fn lemma_div_shift(a: int, k: int, b: int)
    by (nonlinear_arith)
    requires
        b > 0,
    ensures
        (a + k * b) / b == a / b + k,
{
}

proof fn lemma_mul_add(a: int, b: int, c: int)
    by (nonlinear_arith)
    ensures
        (a + b) * c == a * c + b * c,
{
}

/// Shifting a ray's origin shifts its (grid-rounded) points by the same
/// vector.
pub proof fn lemma_point_shift(r: SRay, r2: SRay, dv: V3, t: SRat)
    requires
        r2.origin == v3_add(r.origin, dv),
        r2.dir == r.dir,
        t.d > 0,
    ensures
        ray_at_num(r2, t) == v3_add(ray_at_num(r, t), v3_scale(dv, t.d)),
        ray_at_floor(r2, t) == v3_add(ray_at_floor(r, t), dv),
{
    lemma_mul_add(r.origin.x, dv.x, t.d);
    lemma_mul_add(r.origin.y, dv.y, t.d);
    lemma_mul_add(r.origin.z, dv.z, t.d);
    lemma_div_shift(ray_at_num(r, t).x, dv.x, t.d);
    lemma_div_shift(ray_at_num(r, t).y, dv.y, t.d);
    lemma_div_shift(ray_at_num(r, t).z, dv.z, t.d);
}

/// Translation invariance: shifting a triangle and the ray origin by the
/// same vector reproduces the same hit, with only the point shifted along.
pub proof fn lemma_tri_translate_invariance(
    a: STri,
    b: STri,
    dv: V3,
    r: SRay,
    r2: SRay,
    i: SInterval,
)
    requires
        stri_wf(a),
        stri_wf(b),
        b.v0 == v3_add(a.v0, dv),
        b.v1 == v3_add(a.v1, dv),
        b.v2 == v3_add(a.v2, dv),
        b.normals == a.normals,
        b.uvs == a.uvs,
        b.material_index == a.material_index,
        r2.origin == v3_add(r.origin, dv),
        r2.dir == r.dir,
    ensures
        match (spec_tri_hit(a, r, i), spec_tri_hit(b, r2, i)) {
            (None, None) => true,
            (Some(h1), Some(h2)) => {
                &&& h2.t == h1.t
                &&& h2.normal == h1.normal
                &&& h2.u == h1.u
                &&& h2.v == h1.v
                &&& h2.material_index == h1.material_index
                &&& h2.point == v3_add(h1.point, dv)
            },
            _ => false,
        },
{
    assert(v3_sub(r2.origin, b.v0) == v3_sub(r.origin, a.v0));
    assert(b.edge_ab == a.edge_ab);
    assert(b.edge_ac == a.edge_ac);
    assert(b.face_normal == a.face_normal);
    assert(tri_det(b, r2) == tri_det(a, r));
    assert(tri_dao(b, r2) == tri_dao(a, r));
    assert(tri_tn(b, r2) == tri_tn(a, r));
    assert(tri_un(b, r2) == tri_un(a, r));
    assert(tri_vn(b, r2) == tri_vn(a, r));
    if tri_accepts(a, r, i) {
        lemma_point_shift(r, r2, dv, tri_t(a, r));
    }
}

} // verus!
