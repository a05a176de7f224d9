use crate::bounds::{sbounds_wf, Bounds, SBounds};
use crate::hit_result::{HitResult, SHit};
use crate::interval::{sint_contains, sint_wf, Interval, SInterval};
use crate::rat::{srat_wf, Rat, SRat};
use crate::ray::{ray_at_floor, ray_at_num, ray_wf, v3_in_scaled, Ray, SRay, POINT_BOUND};
use crate::vec3::{
    v3_add, v3_dot, v3_in, v3_neg, v3_sub, v3_zero, Vec3, V3, COORD_BOUND, NORMAL_BOUND,
};
use vstd::prelude::*;

verus! {

/// `r` is the integer square root (rounded down) of `n`.
pub open spec fn is_sqrt(n: int, r: int) -> bool {
    &&& r >= 0
    &&& r * r <= n
    &&& n < (r + 1) * (r + 1)
}

/// The integer square root, rounded down. `lemma_sqrt_floor` shows the value
/// exists and is unique for every admissible argument.
pub open spec fn sqrt_floor(n: int) -> int {
    choose|r: int| is_sqrt(n, r)
}

proof fn lemma_sqrt_exists(n: int)
    requires
        n >= 0,
    ensures
        exists|r: int| is_sqrt(n, r),
    decreases n,
{
    if n == 0 {
        assert(is_sqrt(0, 0));
    } else {
        lemma_sqrt_exists(n - 1);
        let p = choose|r: int| #[trigger] is_sqrt(n - 1, r);
        if (p + 1) * (p + 1) <= n {
            assert(is_sqrt(n, p + 1)) by (nonlinear_arith)
                requires
                    p >= 0,
                    (p + 1) * (p + 1) <= n,
                    n - 1 < (p + 1) * (p + 1),
            ;
        } else {
            assert(is_sqrt(n, p));
        }
    }
}

/// `sqrt_floor` is the unique integer square root.
pub proof fn lemma_sqrt_floor(n: int, r: int)
    requires
        n >= 0,
        is_sqrt(n, r),
    ensures
        sqrt_floor(n) == r,
{
    lemma_sqrt_exists(n);
    let q = sqrt_floor(n);
    assert(is_sqrt(n, q));
    assert(q == r) by (nonlinear_arith)
        requires
            q >= 0,
            r >= 0,
            q * q <= n,
            n < (q + 1) * (q + 1),
            r * r <= n,
            n < (r + 1) * (r + 1),
    ;
}

/// Integer square root by bisection.
pub fn isqrt(n: u128) -> (r: u128)
    requires
        n < 0x1_0000_0000_0000_0000_0000,
    ensures
        is_sqrt(n as int, r as int),
        r as int == sqrt_floor(n as int),
        r < 0x100_0000_0000,
{
    let mut lo: u128 = 0;
    let mut hi: u128 = 0x100_0000_0000;
    proof {
        assert((0x100_0000_0000 as int) * (0x100_0000_0000 as int) > n as int);
    }
    while hi - lo > 1
        invariant
            lo < hi,
            hi <= 0x100_0000_0000,
            (lo as int) * (lo as int) <= n as int,
            (n as int) < (hi as int) * (hi as int),
        decreases hi - lo,
    {
        let mid = lo + (hi - lo) / 2;
        proof {
            crate::vec3::lemma_mul_bound(mid as int, mid as int, 0x100_0000_0000, 0x100_0000_0000);
        }
        if mid * mid <= n {
            lo = mid;
        } else {
            hi = mid;
        }
    }
    proof {
        lemma_sqrt_floor(n as int, lo as int);
    }
    lo
}

/// A positive number has a positive rounded-down square root.
pub proof fn lemma_sqrt_pos(n: int)
    requires
        n >= 1,
    ensures
        sqrt_floor(n) >= 1,
        sqrt_floor(n) * sqrt_floor(n) <= n,
{
    lemma_sqrt_exists(n);
    let q = sqrt_floor(n);
    assert(is_sqrt(n, q));
    if q == 0 {
        assert(n < 1) by (nonlinear_arith)
            requires
                q == 0,
                n < (q + 1) * (q + 1),
        ;
    }
}

/// The fixed-point surface coordinates of a (nonzero) surface normal:
/// exactly `spec_sphere_u` and `spec_sphere_v`.
pub fn sphere_uv(normal: &Vec3) -> (r: (Rat, Rat))
    requires
        v3_in(normal@, 8 * COORD_BOUND),
        normal@ != v3_zero(),
    ensures
        r.0@ == spec_sphere_u(normal@),
        r.1@ == spec_sphere_v(normal@),
        r.0.wf(),
        r.1.wf(),
{
    let ax = if normal.x >= 0 {
        normal.x
    } else {
        -normal.x
    };
    let az = if normal.z >= 0 {
        normal.z
    } else {
        -normal.z
    };
    let d = ax + az;
    let u = if d == 0 {
        Rat::new(32768, 65536)
    } else {
        proof {
            lemma_uv_frac(normal@.z, d as int);
            lemma_uv_frac(-normal@.z, d as int);
            lemma_uv_frac(normal@.x, d as int);
            lemma_uv_frac(-normal@.x, d as int);
        }
        let a = if normal.x >= 0 && normal.z >= 0 {
            crate::rat::div_floor((normal.z as i128) * 16384, d as i128) as i64
        } else if normal.x < 0 && normal.z >= 0 {
            16384 + crate::rat::div_floor(((-normal.x) as i128) * 16384, d as i128) as i64
        } else if normal.x < 0 {
            32768 + crate::rat::div_floor(((-normal.z) as i128) * 16384, d as i128) as i64
        } else {
            49152 + crate::rat::div_floor((normal.x as i128) * 16384, d as i128) as i64
        };
        let shifted = 32768 + a;
        Rat::new(
            if shifted >= 65536 {
                (shifted - 65536) as i128
            } else {
                shifted as i128
            },
            65536,
        )
    };
    proof {
        crate::vec3::lemma_dot_bound(normal@, normal@, 2097152, 2097152);
        lemma_self_dot_pos(normal@);
    }
    let nn = normal.dot(normal);
    let len128 = isqrt(nn as u128);
    let len = len128 as i64;
    proof {
        lemma_sqrt_pos(nn as int);
        lemma_sq_nonneg(normal@.x);
        lemma_sq_nonneg(normal@.z);
        lemma_comp_in_len(normal@.y, len as int, nn as int);
        lemma_lat_range(normal@.y, len as int);
    }
    let v = Rat::new(
        crate::rat::div_floor(((len as i128) - (normal.y as i128)) * 32768, len as i128),
        65536,
    );
    (u, v)
}

/// A quadrant fraction `(c * 16384) / d` stays within `[0, 16384]` when
/// `0 <= c <= d`.
proof fn lemma_uv_frac(c: int, d: int)
    by (nonlinear_arith)
    requires
        d > 0,
    ensures
        0 <= c <= d ==> 0 <= (c * 16384) / d <= 16384,
{
}

/// A component is no longer than the rounded-down length of its vector.
proof fn lemma_comp_in_len(y: int, len: int, nn: int)
    by (nonlinear_arith)
    requires
        y * y <= nn,
        len >= 0,
        nn < (len + 1) * (len + 1),
    ensures
        -len <= y <= len,
{
}

/// The latitude fraction lies within `[0, 65536]`.
proof fn lemma_lat_range(y: int, len: int)
    by (nonlinear_arith)
    requires
        len >= 1,
        -len <= y <= len,
    ensures
        0 <= ((len - y) * 32768) / len <= 65536,
{
}

/// Mathematical view of a sphere.
pub ghost struct SSphere {
    pub center: V3,
    pub radius: int,
    pub bounds: SBounds,
    pub material_index: int,
}

/// The tight axis-aligned box around a sphere.
pub open spec fn sphere_bounds(center: V3, radius: int) -> SBounds {
    SBounds {
        min: V3 { x: center.x - radius, y: center.y - radius, z: center.z - radius },
        max: V3 { x: center.x + radius, y: center.y + radius, z: center.z + radius },
    }
}

pub open spec fn ssphere_wf(s: SSphere) -> bool {
    &&& v3_in(s.center, COORD_BOUND as int)
    &&& 1 <= s.radius <= COORD_BOUND as int
    &&& s.bounds == sphere_bounds(s.center, s.radius)
    &&& s.material_index >= 0
}

/// Longitude of a direction as a fixed-point fraction of a full turn, by the
/// piecewise-linear diamond-angle approximation of the arctangent: within
/// each quadrant of the xz-plane the angle grows linearly in
/// `z / (|x| + |z|)`. Matches the exact longitude at every axis and stays
/// monotone around the equator.
pub open spec fn spec_sphere_u(n: V3) -> SRat {
    let ax = if n.x >= 0 { n.x } else { -n.x };
    let az = if n.z >= 0 { n.z } else { -n.z };
    let d = ax + az;
    if d == 0 {
        SRat { n: 32768, d: 65536 }
    } else {
        let a = if n.x >= 0 && n.z >= 0 {
            (n.z * 16384) / d
        } else if n.x < 0 && n.z >= 0 {
            16384 + ((-n.x) * 16384) / d
        } else if n.x < 0 {
            32768 + ((-n.z) * 16384) / d
        } else {
            49152 + (n.x * 16384) / d
        };
        let shifted = 32768 + a;
        SRat { n: if shifted >= 65536 { shifted - 65536 } else { shifted }, d: 65536 }
    }
}

/// Latitude of a direction as a fixed-point fraction: `(1 - y/|n|) / 2`, the
/// linear-in-sine approximation of `1/2 - asin(y/|n|)/pi`, with the integer
/// square root standing in for the length. Zero at the up pole, one at the
/// down pole, one half on the equator.
pub open spec fn spec_sphere_v(n: V3) -> SRat {
    let len = sqrt_floor(v3_dot(n, n));
    SRat { n: ((len - n.y) * 32768) / len, d: 65536 }
}

/// What intersecting a ray with a sphere returns, exactly: solve the
/// quadratic `a t^2 - 2 h t + c = 0`; take the smaller root when its value is
/// non-negative, else the larger; reject when the discriminant is negative or
/// the chosen root falls outside the interval. The square root rounds down to
/// an integer, which keeps the reported point inside the closed ball.
pub open spec fn spec_sphere_hit(s: SSphere, r: SRay, i: SInterval) -> Option<SHit> {
    let oc = v3_sub(s.center, r.origin);
    let a = v3_dot(r.dir, r.dir);
    let h = v3_dot(r.dir, oc);
    let c = v3_dot(oc, oc) - s.radius * s.radius;
    let disc = h * h - a * c;
    if disc < 0 {
        None
    } else {
        let sq = sqrt_floor(disc);
        let t = if h - sq >= 0 {
            SRat { n: h - sq, d: a }
        } else {
            SRat { n: h + sq, d: a }
        };
        if !sint_contains(i, t) {
            None
        } else {
            let point = ray_at_floor(r, t);
            let raw = v3_sub(point, s.center);
            // Grid rounding can collapse a small sphere's normal to zero; a
            // degenerate normal falls back to facing the ray.
            let normal = if raw == v3_zero() {
                v3_neg(r.dir)
            } else {
                raw
            };
            Some(
                SHit {
                    t: t,
                    point: point,
                    normal: normal,
                    u: spec_sphere_u(normal),
                    v: spec_sphere_v(normal),
                    material_index: s.material_index,
                },
            )
        }
    }
}

/// The discriminant stays below the square-root routine's input bound: when
/// `c` is non-negative it only shrinks `h^2`, and it is never below `-r^2`.
proof fn lemma_disc_bound(h: int, a: int, c: int)
    by (nonlinear_arith)
    requires
        -1030792151040 <= h <= 1030792151040,
        0 < a <= 206158430208,
        c >= -68719476736,
    ensures
        h * h - a * c < 0x1_0000_0000_0000_0000_0000,
{
}

proof fn lemma_mul_sub(a: int, b: int, c: int)
    by (nonlinear_arith)
    ensures
        (a - b) * c == a * c - b * c,
{
}

/// Shift a ball-relative bound to an absolute coordinate bound.
proof fn lemma_shifted_bound(ox: int, cx: int, radius: int, cb2: int, td: int, pb: int)
    by (nonlinear_arith)
    requires
        td > 0,
        -(radius * td) <= ox <= radius * td,
        -cb2 <= cx <= cb2,
        0 <= radius,
        0 <= cb2,
        radius + cb2 <= pb,
    ensures
        -(pb * td) <= ox + cx * td <= pb * td,
{
}

proof fn lemma_sq_nonneg(a: int)
    by (nonlinear_arith)
    ensures
        a * a >= 0,
{
}

proof fn lemma_sq_le(x: int, y: int)
    by (nonlinear_arith)
    requires
        x * x <= y * y,
        y >= 0,
    ensures
        -y <= x <= y,
{
}

proof fn lemma_sq_diff(x: int, y: int)
    by (nonlinear_arith)
    ensures
        (x - y) * (x - y) == x * x - 2 * (x * y) + y * y,
{
}

proof fn lemma_prod_sq(a: int, b: int)
    by (nonlinear_arith)
    ensures
        (a * b) * (a * b) == (a * a) * (b * b),
{
}

proof fn lemma_prod_swap(a: int, b: int, c: int, e: int)
    by (nonlinear_arith)
    ensures
        (a * b) * (c * e) == (a * e) * (b * c),
{
}

/// One squared component of the point-to-center offset, expanded into the
/// product atoms that the sum manipulations below work with.
proof fn lemma_offset_square(tn: int, d: int, m: int, td: int)
    ensures
        (tn * d - m * td) * (tn * d - m * td) == (tn * tn) * (d * d) - 2 * ((tn * td) * (d * m)) + (
        td * td) * (m * m),
{
    lemma_sq_diff(tn * d, m * td);
    lemma_prod_sq(tn, d);
    lemma_prod_swap(tn, d, m, td);
    lemma_prod_sq(m, td);
    assert((m * m) * (td * td) == (td * td) * (m * m)) by (nonlinear_arith);
}

/// The chosen quadratic root, with its rounded-down square root, keeps the
/// exact ray point inside the closed ball: componentwise,
/// `|tn * d_i - m_i * td| <= radius * td`, where `m` points from the ray
/// origin to the center and `td = |d|^2` is the root's denominator.
proof fn lemma_sphere_point_in_ball(d: V3, m: V3, radius: int, sq: int, tn: int)
    requires
        v3_dot(d, d) > 0,
        radius >= 0,
        sq >= 0,
        sq * sq <= v3_dot(d, m) * v3_dot(d, m) - v3_dot(d, d) * (v3_dot(m, m) - radius * radius),
        tn == v3_dot(d, m) - sq || tn == v3_dot(d, m) + sq,
    ensures
        -(radius * v3_dot(d, d)) <= tn * d.x - m.x * v3_dot(d, d) <= radius * v3_dot(d, d),
        -(radius * v3_dot(d, d)) <= tn * d.y - m.y * v3_dot(d, d) <= radius * v3_dot(d, d),
        -(radius * v3_dot(d, d)) <= tn * d.z - m.z * v3_dot(d, d) <= radius * v3_dot(d, d),
{
    let td = v3_dot(d, d);
    let h = v3_dot(d, m);
    let mm = v3_dot(m, m);
    let r2 = radius * radius;

    lemma_offset_square(tn, d.x, m.x, td);
    lemma_offset_square(tn, d.y, m.y, td);
    lemma_offset_square(tn, d.z, m.z, td);

    // Sum of the three squared offsets, in closed form.
    vstd::arithmetic::mul::lemma_mul_is_distributive_add(tn * tn, d.x * d.x + d.y * d.y, d.z * d.z);
    vstd::arithmetic::mul::lemma_mul_is_distributive_add(tn * tn, d.x * d.x, d.y * d.y);
    vstd::arithmetic::mul::lemma_mul_is_distributive_add(tn * td, d.x * m.x + d.y * m.y, d.z * m.z);
    vstd::arithmetic::mul::lemma_mul_is_distributive_add(tn * td, d.x * m.x, d.y * m.y);
    vstd::arithmetic::mul::lemma_mul_is_distributive_add(td * td, m.x * m.x + m.y * m.y, m.z * m.z);
    vstd::arithmetic::mul::lemma_mul_is_distributive_add(td * td, m.x * m.x, m.y * m.y);
    let ox = tn * d.x - m.x * td;
    let oy = tn * d.y - m.y * td;
    let oz = tn * d.z - m.z * td;
    assert(ox * ox + oy * oy + oz * oz == (tn * tn) * td - 2 * ((tn * td) * h) + (td * td) * mm);

    // The root identity: tn^2 - 2 tn h == sq^2 - h^2 for either root.
    assert(tn * tn - 2 * (tn * h) == sq * sq - h * h) by (nonlinear_arith)
        requires
            tn == h - sq || tn == h + sq,
    ;

    // Discriminant bound turns the sum into at most (radius * td)^2.
    assert((tn * tn) * td - 2 * ((tn * td) * h) + (td * td) * mm <= (r2 * td) * td)
        by (nonlinear_arith)
        requires
            td > 0,
            tn * tn - 2 * (tn * h) == sq * sq - h * h,
            sq * sq <= h * h - td * (mm - r2),
    ;
    assert((radius * td) * (radius * td) == ((radius * radius) * td) * td) by (nonlinear_arith);

    lemma_sq_nonneg(ox);
    lemma_sq_nonneg(oy);
    lemma_sq_nonneg(oz);
    assert(radius * td >= 0) by (nonlinear_arith)
        requires
            radius >= 0,
            td > 0,
    ;
    lemma_sq_le(ox, radius * td);
    lemma_sq_le(oy, radius * td);
    lemma_sq_le(oz, radius * td);
}

/// A nonzero vector has a positive dot product with itself.
pub proof fn lemma_self_dot_pos(a: V3)
    by (nonlinear_arith)
    requires
        !(a.x == 0 && a.y == 0 && a.z == 0),
    ensures
        v3_dot(a, a) > 0,
{
}

/// A sphere given by center, radius and the index of its material.
#[derive(Clone, Copy, PartialEq, Eq, Structural, Debug)]
pub struct Sphere {
    pub center: Vec3,
    pub radius: i64,
    pub bounds: Bounds,
    pub material_index: usize,
}

impl View for Sphere {
    type V = SSphere;

    open spec fn view(&self) -> SSphere {
        SSphere {
            center: self.center@,
            radius: self.radius as int,
            bounds: self.bounds@,
            material_index: self.material_index as int,
        }
    }
}

impl Sphere {
    pub open spec fn wf(&self) -> bool {
        ssphere_wf(self@)
    }

    pub fn new(center: Vec3, radius: i64, material_index: usize) -> (r: Sphere)
        requires
            v3_in(center@, COORD_BOUND as int),
            1 <= radius <= COORD_BOUND,
        ensures
            r@.center == center@,
            r@.radius == radius as int,
            r@.material_index == material_index as int,
            r.wf(),
    {
        let bounds = Bounds {
            min: Vec3 { x: center.x - radius, y: center.y - radius, z: center.z - radius },
            max: Vec3 { x: center.x + radius, y: center.y + radius, z: center.z + radius },
        };
        Sphere { center, radius, bounds, material_index }
    }

    pub fn get_bounds(&self) -> (r: &Bounds)
        ensures
            r@ == self@.bounds,
    {
        &self.bounds
    }

    /// Intersect a ray with the sphere: exactly `spec_sphere_hit`.
    pub fn hit(&self, ray: &Ray, interval: &Interval) -> (r: Option<HitResult>)
        requires
            self.wf(),
            ray.wf(),
            interval.wf(),
        ensures
            match r {
                Some(h) => h.wf() && spec_sphere_hit(self@, ray@, interval@) == Some(h@),
                None => spec_sphere_hit(self@, ray@, interval@) is None,
            },
    {
        let ghost cb: int = COORD_BOUND as int;
        let oc = self.center.sub(&ray.origin);
        proof {
            crate::vec3::lemma_dot_bound(ray@.dir, ray@.dir, 262144, 262144);
            crate::vec3::lemma_dot_bound(ray@.dir, oc@, 262144, 1310720);
            crate::vec3::lemma_dot_bound(oc@, oc@, 1310720, 1310720);
            crate::vec3::lemma_mul_bound(self@.radius, self@.radius, 262144, 262144);
            lemma_self_dot_pos(ray@.dir);
            crate::vec3::lemma_self_dot_nonneg(oc@);
        }
        let a = ray.dir.dot(&ray.dir);
        let h = ray.dir.dot(&oc);
        let c = oc.dot(&oc) - self.radius * self.radius;
        proof {
            crate::vec3::lemma_mul_bound(h as int, h as int, 1030792151040, 1030792151040);
            crate::vec3::lemma_mul_bound(a as int, c as int, 206158430208, 5222680231936);
            lemma_disc_bound(h as int, a as int, c as int);
        }
        let disc = (h as i128) * (h as i128) - (a as i128) * (c as i128);
        if disc < 0 {
            return None;
        }
        let sq = isqrt(disc as u128) as i128;
        let tn = if (h as i128) - sq >= 0 {
            (h as i128) - sq
        } else {
            (h as i128) + sq
        };
        let t = Rat::new(tn, a as i128);
        if !interval.contains(&t) {
            return None;
        }
        proof {
            let dv = ray@.dir;
            let mv = oc@;
            let td = v3_dot(dv, dv);
            assert((sq as int) * (sq as int) <= v3_dot(dv, mv) * v3_dot(dv, mv) - td * (v3_dot(
                mv,
                mv,
            ) - self@.radius * self@.radius));
            lemma_sphere_point_in_ball(dv, mv, self@.radius, sq as int, tn as int);
            // The point numerator is origin*td + tn*dir; shifting the
            // ball-relative offset by the center bounds it absolutely.
            lemma_mul_sub(self@.center.x, ray@.origin.x, td);
            lemma_mul_sub(self@.center.y, ray@.origin.y, td);
            lemma_mul_sub(self@.center.z, ray@.origin.z, td);
            lemma_shifted_bound(
                (tn as int) * dv.x - mv.x * td,
                self@.center.x,
                self@.radius,
                cb,
                td,
                POINT_BOUND as int,
            );
            lemma_shifted_bound(
                (tn as int) * dv.y - mv.y * td,
                self@.center.y,
                self@.radius,
                cb,
                td,
                POINT_BOUND as int,
            );
            lemma_shifted_bound(
                (tn as int) * dv.z - mv.z * td,
                self@.center.z,
                self@.radius,
                cb,
                td,
                POINT_BOUND as int,
            );
            assert(v3_in_scaled(ray_at_num(ray@, t@), POINT_BOUND as int, t@.d));
        }
        let point = ray.at(&t);
        let raw = point.sub(&self.center);
        let normal = if raw.x == 0 && raw.y == 0 && raw.z == 0 {
            ray.dir.neg()
        } else {
            raw
        };
        let (u, v) = sphere_uv(&normal);
        Some(HitResult { t, point, normal, u, v, material_index: self.material_index })
    }

    /// Shift the sphere (and its cached box) by `vec`.
    pub fn translate(&mut self, vec: &Vec3)
        requires
            old(self).wf(),
            v3_in(v3_add(old(self)@.center, vec@), COORD_BOUND as int),
        ensures
            final(self)@.center == v3_add(old(self)@.center, vec@),
            final(self)@.radius == old(self)@.radius,
            final(self)@.material_index == old(self)@.material_index,
            final(self).wf(),
    {
        self.center = self.center.add(vec);
        self.bounds = Bounds {
            min: Vec3 {
                x: self.center.x - self.radius,
                y: self.center.y - self.radius,
                z: self.center.z - self.radius,
            },
            max: Vec3 {
                x: self.center.x + self.radius,
                y: self.center.y + self.radius,
                z: self.center.z + self.radius,
            },
        };
    }
}

/// A ray cast from the sphere's center always exits through the surface: the
/// reported parameter equals the radius divided by the direction's length,
/// whenever the direction's squared length is a perfect square and the search
/// interval admits that parameter.
pub proof fn lemma_sphere_center_ray(s: SSphere, r: SRay, i: SInterval, len: int)
    requires
        ssphere_wf(s),
        ray_wf(r),
        r.origin == s.center,
        len >= 1,
        v3_dot(r.dir, r.dir) == len * len,
        sint_contains(i, SRat { n: len * s.radius, d: len * len }),
    ensures
        spec_sphere_hit(s, r, i) is Some,
        crate::rat::req(spec_sphere_hit(s, r, i).unwrap().t, SRat { n: s.radius, d: len }),
{
    let oc = v3_sub(s.center, r.origin);
    assert(oc == v3_zero());
    assert(v3_dot(r.dir, oc) == 0) by (nonlinear_arith)
        requires
            oc.x == 0 && oc.y == 0 && oc.z == 0,
    ;
    assert(v3_dot(oc, oc) == 0) by (nonlinear_arith)
        requires
            oc.x == 0 && oc.y == 0 && oc.z == 0,
    ;
    let a = v3_dot(r.dir, r.dir);
    let c = v3_dot(oc, oc) - s.radius * s.radius;
    let disc = 0 - a * c;
    assert(disc == (len * s.radius) * (len * s.radius)) by (nonlinear_arith)
        requires
            disc == 0 - (len * len) * (0 - s.radius * s.radius),
    ;
    assert(is_sqrt(disc, len * s.radius)) by (nonlinear_arith)
        requires
            disc == (len * s.radius) * (len * s.radius),
            len >= 1,
            s.radius >= 1,
    ;
    lemma_sqrt_floor(disc, len * s.radius);
    assert(0 - (len * s.radius) < 0) by (nonlinear_arith)
        requires
            len >= 1,
            s.radius >= 1,
    ;
    assert(crate::rat::req(
        SRat { n: 0 + len * s.radius, d: len * len },
        SRat { n: s.radius, d: len },
    )) by (nonlinear_arith);
}

/// Translation invariance: shifting a sphere and the ray origin by the same
/// vector reproduces the same hit, with only the point shifted along.
pub proof fn lemma_sphere_translate_invariance(
    a: SSphere,
    b: SSphere,
    dv: V3,
    r: SRay,
    r2: SRay,
    i: SInterval,
)
    requires
        ray_wf(r),
        b.center == v3_add(a.center, dv),
        b.radius == a.radius,
        b.material_index == a.material_index,
        r2.origin == v3_add(r.origin, dv),
        r2.dir == r.dir,
    ensures
        match (spec_sphere_hit(a, r, i), spec_sphere_hit(b, r2, i)) {
            (None, None) => true,
            (Some(h1), Some(h2)) => {
                &&& h2.t == h1.t
                &&& h2.u == h1.u
                &&& h2.v == h1.v
                &&& h2.material_index == h1.material_index
                &&& h2.point == v3_add(h1.point, dv)
                &&& h2.normal == h1.normal
            },
            _ => false,
        },
{
    lemma_self_dot_pos(r.dir);
    assert(v3_sub(b.center, r2.origin) == v3_sub(a.center, r.origin));
    let oc = v3_sub(a.center, r.origin);
    let aa = v3_dot(r.dir, r.dir);
    let h = v3_dot(r.dir, oc);
    let cc = v3_dot(oc, oc) - a.radius * a.radius;
    let disc = h * h - aa * cc;
    if disc >= 0 {
        let sq = sqrt_floor(disc);
        let t = if h - sq >= 0 {
            SRat { n: h - sq, d: aa }
        } else {
            SRat { n: h + sq, d: aa }
        };
        if sint_contains(i, t) {
            crate::tri::lemma_point_shift(r, r2, dv, t);
            assert(v3_sub(v3_add(ray_at_floor(r, t), dv), b.center) == v3_sub(
                ray_at_floor(r, t),
                a.center,
            ));
        }
    }
}

} // verus!
