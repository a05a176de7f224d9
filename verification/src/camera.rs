use crate::color::{scolor_wf, Color, SColor, COLOR_ONE};
use crate::hit_result::HitResult;
use crate::hittable::{
    lemma_object_gives_widen, lemma_object_hit_mat, object_gives, object_mats_ok, object_misses,
    HittableType,
};
use crate::interval::{sint_contains, Interval, SInterval};
use crate::material::MaterialType;
use crate::rat::{rlt, srat_wf, Rat, SRat, RAT_BOUND};
use crate::ray::{ray_wf, Ray, SRay};
use crate::sphere::{is_sqrt, isqrt, sqrt_floor};
use crate::vec3::{
    spec_quantize, v3_add, v3_cross, v3_dot, v3_in, v3_scale, v3_sub, v3_zero, Vec3, V3,
    COORD_BOUND, UNIT,
};
use vstd::prelude::*;

verus! {

/// Hard cap on light bounces per sample.
pub const MAX_BOUNCES: u32 = 10;

/// Pixels per tile side; a tile is a run of `TILE_SIZE * TILE_SIZE`
/// consecutive pixels in row-major order.
pub const TILE_SIZE: u32 = 16;

/// Samples averaged per pixel.
pub const SAMPLES_PER_PIXEL: u32 = 10;

/// Every scene primitive is well-formed and refers only to materials that
/// exist in the table.
pub open spec fn scene_ok(objs: Seq<HittableType>, mats: int) -> bool {
    forall|k: int|
        0 <= k < objs.len() ==> (#[trigger] objs[k]).wf() && object_mats_ok(objs[k], mats)
}

/// The search window every bounce opens with: a small positive start (the
/// self-intersection guard) up to a sentinel beyond every representable hit.
pub open spec fn first_interval() -> SInterval {
    SInterval { min: SRat { n: 1, d: 1000 }, max: SRat { n: RAT_BOUND as int, d: 1 } }
}

/// No primitive of the scene reports a hit for this ray in the full search
/// window (in particular, an empty scene).
pub open spec fn scene_misses(objs: Seq<HittableType>, r: SRay) -> bool {
    forall|k: int| 0 <= k < objs.len() ==> #[trigger] object_misses(objs[k], r, first_interval())
}

/// The vertical background gradient: blend white into sky blue by the
/// direction's normalized height, with the integer square root standing in
/// for the direction's length.
pub open spec fn spec_background(d: V3) -> SColor {
    let len = sqrt_floor(v3_dot(d, d));
    let tt = ((d.y + len) * 65536) / (2 * len);
    SColor {
        r: ((65536 - tt) * 65536 + tt * 32768) / 65536,
        g: ((65536 - tt) * 65536 + tt * 45875) / 65536,
        b: ((65536 - tt) * 65536 + tt * 65536) / 65536,
    }
}

/// The camera: image geometry, the eye position, the per-pixel viewport
/// steps, and the scene's material table.
pub struct Camera {
    pub image_width: u32,
    pub image_height: u32,
    pub look_from: Vec3,
    pub materials: Vec<MaterialType>,
    pub pixel_delta_u: Vec3,
    pub pixel_delta_v: Vec3,
    pub pixel00_loc: Vec3,
    pub total_pixels: u32,
}

/// The primary ray direction for one pixel: from the eye through the pixel's
/// center, renormalized to the direction grid (a degenerate direction falls
/// back to the grid's unit z).
pub open spec fn spec_primary_dir(c: Camera, idx: int) -> V3 {
    let i = idx % (c.image_width as int);
    let j = idx / (c.image_width as int);
    let center = v3_add(
        c.pixel00_loc@,
        v3_add(v3_scale(c.pixel_delta_u@, i), v3_scale(c.pixel_delta_v@, j)),
    );
    let d = spec_quantize(v3_sub(center, c.look_from@));
    if d == v3_zero() {
        V3 { x: 0, y: 0, z: 65536 }
    } else {
        d
    }
}

/// The fixed eye position, in grid units (one world unit of the eye
/// geometry is 32768 grid steps).
pub open spec fn spec_eye() -> V3 {
    V3 { x: -98304, y: 16384, z: -65536 }
}

/// The viewing basis on the direction grid: back, right and up vectors
/// derived from the fixed eye, target and up by cross products and grid
/// normalization.
pub open spec fn spec_view_w() -> V3 {
    spec_quantize(spec_eye())
}

pub open spec fn spec_view_u() -> V3 {
    spec_quantize(v3_cross(V3 { x: 0, y: 65536, z: 0 }, spec_view_w()))
}

pub open spec fn spec_view_v() -> V3 {
    spec_quantize(v3_cross(spec_view_w(), spec_view_u()))
}

/// Give a grid direction a length of `k` grid units (rounding down).
pub open spec fn spec_scale_div_unit(v: V3, k: int) -> V3 {
    V3 { x: (v.x * k) / 65536, y: (v.y * k) / 65536, z: (v.z * k) / 65536 }
}

pub open spec fn spec_div_by(v: V3, k: int) -> V3 {
    V3 { x: v.x / k, y: v.y / k, z: v.z / k }
}

/// The viewport's world width in grid units: its height (twice the tangent
/// of half the field of view) times the pixel aspect ratio.
pub open spec fn spec_viewport_width(w: int, h: int) -> int {
    (34116 * w) / h
}

/// The vector across the viewport's horizontal edge.
pub open spec fn spec_viewport_u(w: int, h: int) -> V3 {
    spec_scale_div_unit(spec_view_u(), spec_viewport_width(w, h))
}

/// The vector down the viewport's vertical edge.
pub open spec fn spec_viewport_v() -> V3 {
    spec_scale_div_unit(crate::vec3::v3_neg(spec_view_v()), 34116)
}

pub open spec fn spec_pixel_delta_u(w: int, h: int) -> V3 {
    spec_div_by(spec_viewport_u(w, h), w)
}

pub open spec fn spec_pixel_delta_v(w: int, h: int) -> V3 {
    spec_div_by(spec_viewport_v(), h)
}

/// The world position of pixel (0, 0)'s center: the viewport's upper-left
/// corner plus half a pixel step each way.
pub open spec fn spec_pixel00(w: int, h: int) -> V3 {
    let vpu = spec_viewport_u(w, h);
    let vpv = spec_viewport_v();
    let pdu = spec_pixel_delta_u(w, h);
    let pdv = spec_pixel_delta_v(w, h);
    let e = spec_eye();
    let back = spec_view_w();
    V3 {
        x: e.x - back.x - vpu.x / 2 - vpv.x / 2 + pdu.x / 2 + pdv.x / 2,
        y: e.y - back.y - vpu.y / 2 - vpv.y / 2 + pdu.y / 2 + pdv.y / 2,
        z: e.z - back.z - vpu.z / 2 - vpv.z / 2 + pdu.z / 2 + pdv.z / 2,
    }
}

impl Camera {
    pub open spec fn wf(&self) -> bool {
        &&& 1 <= self.image_width <= 4096
        &&& 1 <= self.image_height <= 262144
        &&& self.total_pixels == self.image_width * self.image_height
        &&& v3_in(self.look_from@, COORD_BOUND as int)
        &&& v3_in(self.pixel_delta_u@, 0x4000_0000)
        &&& v3_in(self.pixel_delta_v@, 0x4000_0000)
        &&& v3_in(self.pixel00_loc@, 0x4000_0000)
        &&& forall|k: int|
            0 <= k < self.materials@.len() ==> (#[trigger] self.materials@[k]).wf()
    }

    /// Build the camera for a fixed eye, target, up vector and field of view:
    /// derive the image height from the aspect ratio, an orthonormal viewing
    /// basis on the direction grid, and the viewport's per-pixel steps. The
    /// argument bounds only keep the pixel counts inside `u32` arithmetic.
    #[verifier::rlimit(60)]
    pub fn new(aspect_num: u32, aspect_den: u32, image_width: u32, materials: Vec<
        MaterialType,
    >) -> (c: Camera)
        requires
            1 <= image_width <= 4096,
            1 <= aspect_num <= 64,
            1 <= aspect_den <= 64,
            forall|k: int| 0 <= k < materials@.len() ==> (#[trigger] materials@[k]).wf(),
        ensures
            c.wf(),
            c.image_width == image_width,
            c.image_height as int == if (image_width as int) * (aspect_den as int) / (
            aspect_num as int) >= 1 {
                (image_width as int) * (aspect_den as int) / (aspect_num as int)
            } else {
                1
            },
            c.materials == materials,
            c.look_from@ == spec_eye(),
            c.total_pixels == c.image_width * c.image_height,
            c.pixel_delta_u@ == spec_pixel_delta_u(image_width as int, c.image_height as int),
            c.pixel_delta_v@ == spec_pixel_delta_v(image_width as int, c.image_height as int),
            c.pixel00_loc@ == spec_pixel00(image_width as int, c.image_height as int),
    {
        proof {
            crate::vec3::lemma_mul_bound(image_width as int, aspect_den as int, 4096, 64);
            crate::rat::lemma_div_toward_zero(
                (image_width as int) * (aspect_den as int),
                aspect_num as int,
            );
        }
        let raw_height = ((image_width as u64) * (aspect_den as u64) / (aspect_num as u64)) as u32;
        let image_height = if raw_height >= 1 {
            raw_height
        } else {
            1u32
        };
        proof {
            lemma_height_bound(image_width as int, aspect_den as int, aspect_num as int);
        }

        // One world unit of the fixed eye geometry is 32768 grid steps, which
        // keeps scenes of a few units inside the coordinate bound.
        let look_from = Vec3 { x: -98304, y: 16384, z: -65536 };
        let look_at = Vec3 { x: 0, y: 0, z: 0 };
        let up = Vec3 { x: 0, y: 65536, z: 0 };
        // tan of half the vertical field of view, in world units of 32768.
        let tan_half_fov: i64 = 17058;

        let viewport_height: i64 = 2 * tan_half_fov;
        proof {
            crate::vec3::lemma_mul_bound(
                viewport_height as int,
                image_width as int,
                34116,
                4096,
            );
            crate::rat::lemma_div_range(
                (viewport_height as int) * (image_width as int),
                image_height as int,
                279478272,
            );
        }
        let viewport_width: i64 = (((viewport_height as i128) * (image_width as i128)) / (
        image_height as i128)) as i64;

        let w_dir = look_from.sub(&look_at).normalize();
        let u_dir = crate::vec3::cross(up, w_dir).normalize();
        let v_dir = crate::vec3::cross(w_dir, u_dir).normalize();

        // Viewport edge vectors (right and down), in grid units.
        let vpu = scale_div_unit(u_dir, viewport_width);
        let vpv = scale_div_unit(v_dir.neg(), viewport_height);

        let pdu = div_by(vpu, image_width as i64);
        let pdv = div_by(vpv, image_height as i64);

        let upper_left = Vec3 {
            x: look_from.x - w_dir.x - half(vpu.x) - half(vpv.x),
            y: look_from.y - w_dir.y - half(vpu.y) - half(vpv.y),
            z: look_from.z - w_dir.z - half(vpu.z) - half(vpv.z),
        };
        let pixel00_loc = Vec3 {
            x: upper_left.x + half(pdu.x) + half(pdv.x),
            y: upper_left.y + half(pdu.y) + half(pdv.y),
            z: upper_left.z + half(pdu.z) + half(pdv.z),
        };

        proof {
            crate::vec3::lemma_mul_bound(image_width as int, image_height as int, 4096, 262144);
        }
        let total_pixels = image_width * image_height;

        Camera {
            image_width,
            image_height,
            look_from,
            materials,
            pixel_delta_u: pdu,
            pixel_delta_v: pdv,
            pixel00_loc,
            total_pixels,
        }
    }
}

/// Floor-halve one coordinate.
fn half(x: i64) -> (r: i64)
    ensures
        r as int == (x as int) / 2,
        (x as int) / 2 == r as int,
{
    proof {
        crate::rat::lemma_div_toward_zero(x as int, 2);
    }
    crate::rat::div_floor(x as i128, 2) as i64
}

/// Give a grid direction a length of `k` grid units: `(v * k) / UNIT`
/// componentwise, rounding down.
fn scale_div_unit(v: Vec3, k: i64) -> (r: Vec3)
    requires
        v3_in(v@, UNIT as int),
        0 <= k <= 279478272,
    ensures
        r@ == spec_scale_div_unit(v@, k as int),
        v3_in(r@, 279478272),
{
    proof {
        crate::vec3::lemma_mul_bound(v@.x, k as int, 65536, 279478272);
        crate::vec3::lemma_mul_bound(v@.y, k as int, 65536, 279478272);
        crate::vec3::lemma_mul_bound(v@.z, k as int, 65536, 279478272);
        crate::rat::lemma_div_range(v@.x * k as int, 65536, 279478272);
        crate::rat::lemma_div_range(v@.y * k as int, 65536, 279478272);
        crate::rat::lemma_div_range(v@.z * k as int, 65536, 279478272);
    }
    Vec3 {
        x: crate::rat::div_floor((v.x as i128) * (k as i128), 65536) as i64,
        y: crate::rat::div_floor((v.y as i128) * (k as i128), 65536) as i64,
        z: crate::rat::div_floor((v.z as i128) * (k as i128), 65536) as i64,
    }
}

/// Componentwise division by a positive count, rounding down.
fn div_by(v: Vec3, k: i64) -> (r: Vec3)
    requires
        v3_in(v@, 279478272),
        k >= 1,
    ensures
        r@ == spec_div_by(v@, k as int),
        v3_in(r@, 279478272),
{
    proof {
        crate::rat::lemma_div_toward_zero(v@.x, k as int);
        crate::rat::lemma_div_toward_zero(v@.y, k as int);
        crate::rat::lemma_div_toward_zero(v@.z, k as int);
    }
    Vec3 {
        x: crate::rat::div_floor(v.x as i128, k as i128) as i64,
        y: crate::rat::div_floor(v.y as i128, k as i128) as i64,
        z: crate::rat::div_floor(v.z as i128, k as i128) as i64,
    }
}

proof fn lemma_height_bound(w: int, den: int, num: int)
    by (nonlinear_arith)
    requires
        1 <= w <= 4096,
        1 <= den <= 64,
        1 <= num <= 64,
    ensures
        (w * den) / num <= 262144,
        (w * den) / num >= 0,
{
}

/// The background gradient, evaluated exactly as `spec_background`.
pub fn background_color(dir: &Vec3) -> (c: Color)
    requires
        v3_in(dir@, COORD_BOUND as int),
        dir@ != v3_zero(),
    ensures
        c@ == spec_background(dir@),
        c.wf(),
{
    proof {
        crate::sphere::lemma_self_dot_pos(dir@);
        crate::vec3::lemma_dot_bound(dir@, dir@, 262144, 262144);
    }
    let dd = dir.dot(dir);
    let len128 = isqrt(dd as u128);
    let len = len128 as i64;
    proof {
        crate::sphere::lemma_sqrt_pos(dd as int);
        lemma_sq_nonneg2(dir@.x, dir@.z);
        assert(dir@.y * dir@.y <= dd as int);
        assert(is_sqrt(dd as int, len as int));
        lemma_comp_le_sqrt(dir@.y, len as int, dd as int);
        lemma_len_bound(len as int, dd as int);
        crate::vec3::lemma_mul_bound(dir@.y + len as int, 65536, 0x10_0000_0000, 65536);
        lemma_grad_range(dir@.y, len as int);
    }
    let tt = crate::rat::div_floor(((dir.y as i128) + (len as i128)) * 65536, 2 * (len as i128));
    proof {
        lemma_blend(tt as int, 32768);
        lemma_blend(tt as int, 45875);
        lemma_blend(tt as int, 65536);
    }
    Color {
        r: (crate::rat::div_floor((65536 - tt) * 65536 + tt * 32768, 65536)) as u32,
        g: (crate::rat::div_floor((65536 - tt) * 65536 + tt * 45875, 65536)) as u32,
        b: (crate::rat::div_floor((65536 - tt) * 65536 + tt * 65536, 65536)) as u32,
    }
}

proof fn lemma_sq_nonneg2(a: int, b: int)
    by (nonlinear_arith)
    ensures
        a * a >= 0,
        b * b >= 0,
{
}

proof fn lemma_len_bound(len: int, dd: int)
    by (nonlinear_arith)
    requires
        len >= 0,
        len * len <= dd,
        dd <= 206158430208,
    ensures
        len <= 524288,
{
}

proof fn lemma_comp_le_sqrt(dy: int, len: int, dd: int)
    by (nonlinear_arith)
    requires
        dy * dy <= dd,
        len >= 0,
        dd < (len + 1) * (len + 1),
    ensures
        -len <= dy <= len,
{
}

proof fn lemma_grad_range(dy: int, len: int)
    by (nonlinear_arith)
    requires
        len >= 1,
        -len <= dy <= len,
    ensures
        0 <= ((dy + len) * 65536) / (2 * len) <= 65536,
{
}

proof fn lemma_blend(tt: int, sky: int)
    by (nonlinear_arith)
    requires
        0 <= tt <= 65536,
        0 <= sky <= 65536,
    ensures
        0 <= (65536 - tt) * 65536 + tt * sky <= 0x1_0000_0000_0000,
        0 <= ((65536 - tt) * 65536 + tt * sky) / 65536 <= 65536,
{
}

/// Full white attenuation leaves a color unchanged.
proof fn lemma_white_mul(c: SColor)
    requires
        scolor_wf(c),
    ensures
        crate::color::scolor_mul(
            SColor { r: COLOR_ONE as int, g: COLOR_ONE as int, b: COLOR_ONE as int },
            c,
        ) == c,
{
    lemma_unit_cancel(c.r);
    lemma_unit_cancel(c.g);
    lemma_unit_cancel(c.b);
}

proof fn lemma_unit_cancel(a: int)
    by (nonlinear_arith)
    requires
        0 <= a,
    ensures
        (65536 * a) / 65536 == a,
{
}

impl Camera {
    /// The primary ray for one pixel index (row-major).
    pub fn primary_ray(&self, pixel_index: u32) -> (r: Ray)
        requires
            self.wf(),
            pixel_index < self.total_pixels,
        ensures
            r.wf(),
            r@.origin == self.look_from@,
            r@.dir == spec_primary_dir(*self, pixel_index as int),
    {
        proof {
            lemma_pixel_split(pixel_index as int, self.image_width as int, self.image_height as int);
        }
        let i = pixel_index % self.image_width;
        let j = pixel_index / self.image_width;
        proof {
            crate::vec3::lemma_mul_bound(self.pixel_delta_u@.x, i as int, 0x4000_0000, 4096);
            crate::vec3::lemma_mul_bound(self.pixel_delta_u@.y, i as int, 0x4000_0000, 4096);
            crate::vec3::lemma_mul_bound(self.pixel_delta_u@.z, i as int, 0x4000_0000, 4096);
            crate::vec3::lemma_mul_bound(self.pixel_delta_v@.x, j as int, 0x4000_0000, 262144);
            crate::vec3::lemma_mul_bound(self.pixel_delta_v@.y, j as int, 0x4000_0000, 262144);
            crate::vec3::lemma_mul_bound(self.pixel_delta_v@.z, j as int, 0x4000_0000, 262144);
        }
        let cx = self.pixel00_loc.x + self.pixel_delta_u.x * (i as i64) + self.pixel_delta_v.x * (
        j as i64);
        let cy = self.pixel00_loc.y + self.pixel_delta_u.y * (i as i64) + self.pixel_delta_v.y * (
        j as i64);
        let cz = self.pixel00_loc.z + self.pixel_delta_u.z * (i as i64) + self.pixel_delta_v.z * (
        j as i64);
        let d = crate::vec3::quantize3(
            (cx - self.look_from.x) as i128,
            (cy - self.look_from.y) as i128,
            (cz - self.look_from.z) as i128,
        );
        let dir = if d.x == 0 && d.y == 0 && d.z == 0 {
            Vec3 { x: 0, y: 0, z: 65536 }
        } else {
            d
        };
        Ray::new(self.look_from, dir)
    }

    /// Walk a ray through up to `MAX_BOUNCES` scatters, multiplying the
    /// attenuations; a miss multiplies in the background and stops, and
    /// reaching the cap returns black. When every primitive misses the
    /// primary ray (in particular for an empty scene) the result is exactly
    /// the background of that ray.
    pub fn ray_color(&self, ray: &Ray, objects: &Vec<HittableType>) -> (c: Color)
        requires
            self.wf(),
            ray.wf(),
            scene_ok(objects@, self.materials@.len() as int),
        ensures
            c.wf(),
            scene_misses(objects@, ray@) ==> c@ == spec_background(ray@.dir),
            objects@.len() == 0 ==> c@ == spec_background(ray@.dir),
    {
        let mut depth: u32 = 0;
        let mut attenuation = Color::white();
        let mut cur_ray = *ray;
        while depth < MAX_BOUNCES
            invariant
                self.wf(),
                scene_ok(objects@, self.materials@.len() as int),
                attenuation.wf(),
                cur_ray.wf(),
                depth <= MAX_BOUNCES,
                scene_misses(objects@, ray@) ==> (cur_ray == *ray && attenuation@ == (SColor {
                    r: COLOR_ONE as int,
                    g: COLOR_ONE as int,
                    b: COLOR_ONE as int,
                }) && depth == 0),
            decreases MAX_BOUNCES - depth,
        {
            let t_min = Rat::new(1, 1000);
            let sentinel = Rat::new(RAT_BOUND, 1);
            let ghost iv0 = SInterval { min: t_min@, max: sentinel@ };
            let mut hit_result: Option<HitResult> = None;
            let mut t_max = sentinel;
            let mut k: usize = 0;
            while k < objects.len()
                invariant
                    self.wf(),
                    scene_ok(objects@, self.materials@.len() as int),
                    cur_ray.wf(),
                    k <= objects@.len(),
                    t_min.wf(),
                    t_min@ == iv0.min,
                    sentinel@ == iv0.max,
                    sentinel.wf(),
                    t_max.wf(),
                    match hit_result {
                        None => t_max == sentinel,
                        Some(b) => {
                            &&& b.wf()
                            &&& t_max == b.t
                            &&& sint_contains(iv0, b@.t)
                            &&& exists|k0: int|
                                0 <= k0 < objects@.len() && #[trigger] object_gives(
                                    objects@[k0],
                                    cur_ray@,
                                    iv0,
                                    b@,
                                )
                        },
                    },
                decreases objects@.len() - k,
            {
                let cur = Interval::new(t_min, t_max);
                let oh = objects[k].hit(&cur_ray, &cur);
                match oh {
                    Some(h) => {
                        proof {
                            match hit_result {
                                None => {
                                    assert(cur@ == iv0);
                                    assert(object_gives(objects@[k as int], cur_ray@, iv0, h@));
                                },
                                Some(b) => {
                                    lemma_object_gives_widen(
                                        objects@[k as int],
                                        cur_ray@,
                                        cur@,
                                        iv0,
                                        h@,
                                    );
                                },
                            }
                        }
                        let replace = match &hit_result {
                            None => true,
                            Some(b) => h.t.lt(&b.t),
                        };
                        if replace {
                            t_max = h.t;
                            hit_result = Some(h);
                        }
                    },
                    None => {},
                }
                k += 1;
            }
            match hit_result {
                Some(hit) => {
                    proof {
                        let k0 = choose|k0: int|
                            0 <= k0 < objects@.len() && #[trigger] object_gives(
                                objects@[k0],
                                cur_ray@,
                                iv0,
                                hit@,
                            );
                        lemma_object_hit_mat(
                            objects@[k0],
                            cur_ray@,
                            iv0,
                            hit@,
                            self.materials@.len() as int,
                        );
                    }
                    proof {
                        // A found hit refutes the all-miss hypothesis, so the
                        // background clause of the loop invariant stays vacuous.
                        if scene_misses(objects@, ray@) {
                            let k0 = choose|k0: int|
                                0 <= k0 < objects@.len() && #[trigger] object_gives(
                                    objects@[k0],
                                    cur_ray@,
                                    iv0,
                                    hit@,
                                );
                            assert(object_misses(objects@[k0], ray@, first_interval()));
                            match objects@[k0] {
                                HittableType::Sphere(sp) => {},
                                HittableType::Mesh(m) => {
                                    let kk = crate::aabb::lemma_nearest_witness(
                                        m.tris(),
                                        cur_ray@,
                                        iv0,
                                        hit@,
                                    );
                                    crate::aabb::lemma_misses_all_at(
                                        m.tris(),
                                        cur_ray@,
                                        iv0,
                                        kk,
                                    );
                                },
                            }
                            assert(false);
                        }
                    }
                    let material = &self.materials[hit.material_index];
                    let (scattered, new_color) = material.scatter(&cur_ray, &hit);
                    attenuation = attenuation.mul(&new_color);
                    cur_ray = scattered;
                    depth += 1;
                },
                None => {
                    let bg = background_color(&cur_ray.dir);
                    proof {
                        if scene_misses(objects@, ray@) {
                            lemma_white_mul(bg@);
                        }
                    }
                    return attenuation.mul(&bg);
                },
            }
        }
        Color::black()
    }

    /// Render one tile: the pixels with indices in
    /// `[tile * TILE^2, min((tile+1) * TILE^2, total))`, each the average of
    /// `SAMPLES_PER_PIXEL` bounce walks.
    pub fn render_tile(&self, tile_index: u32, objects: &Vec<HittableType>) -> (buf: Vec<Color>)
        requires
            self.wf(),
            tile_index < 0x40_0000,
            scene_ok(objects@, self.materials@.len() as int),
        ensures
            ({
                let start = if (tile_index as int) * 256 <= self.total_pixels as int {
                    (tile_index as int) * 256
                } else {
                    self.total_pixels as int
                };
                let end = if (tile_index as int) * 256 + 256 <= self.total_pixels as int {
                    (tile_index as int) * 256 + 256
                } else {
                    self.total_pixels as int
                };
                &&& buf@.len() == end - start
                &&& forall|p: int| 0 <= p < buf@.len() ==> (#[trigger] buf@[p]).wf()
                &&& (objects@.len() == 0 ==> forall|p: int|
                    0 <= p < buf@.len() ==> (#[trigger] buf@[p])@ == spec_background(
                        spec_primary_dir(*self, start + p),
                    ))
            }),
    {
        let start_pixel_raw = tile_index * TILE_SIZE * TILE_SIZE;
        let start_pixel = if start_pixel_raw <= self.total_pixels {
            start_pixel_raw
        } else {
            self.total_pixels
        };
        let end_candidate = start_pixel_raw + TILE_SIZE * TILE_SIZE;
        let end_pixel = if end_candidate <= self.total_pixels {
            end_candidate
        } else {
            self.total_pixels
        };
        let ghost start = start_pixel as int;
        let mut tile_buffer: Vec<Color> = Vec::new();
        let mut pixel_index = start_pixel;
        while pixel_index < end_pixel
            invariant
                self.wf(),
                scene_ok(objects@, self.materials@.len() as int),
                start_pixel <= pixel_index <= end_pixel,
                end_pixel <= self.total_pixels,
                start == start_pixel as int,
                tile_buffer@.len() == pixel_index - start_pixel,
                forall|p: int| 0 <= p < tile_buffer@.len() ==> (#[trigger] tile_buffer@[p]).wf(),
                objects@.len() == 0 ==> forall|p: int|
                    0 <= p < tile_buffer@.len() ==> (#[trigger] tile_buffer@[p])@
                        == spec_background(spec_primary_dir(*self, start + p)),
            decreases end_pixel - pixel_index,
        {
            let ray = self.primary_ray(pixel_index);
            let mut color = Color::black();
            let mut s: u32 = 0;
            while s < SAMPLES_PER_PIXEL
                invariant
                    self.wf(),
                    scene_ok(objects@, self.materials@.len() as int),
                    ray.wf(),
                    s <= SAMPLES_PER_PIXEL,
                    0 <= color@.r <= (s as int) * (COLOR_ONE as int),
                    0 <= color@.g <= (s as int) * (COLOR_ONE as int),
                    0 <= color@.b <= (s as int) * (COLOR_ONE as int),
                    objects@.len() == 0 ==> color@ == (SColor {
                        r: (s as int) * spec_background(ray@.dir).r,
                        g: (s as int) * spec_background(ray@.dir).g,
                        b: (s as int) * spec_background(ray@.dir).b,
                    }),
                decreases SAMPLES_PER_PIXEL - s,
            {
                let sample = self.ray_color(&ray, objects);
                proof {
                    lemma_sample_step(color@.r, sample@.r, s as int);
                    lemma_sample_step(color@.g, sample@.g, s as int);
                    lemma_sample_step(color@.b, sample@.b, s as int);
                    lemma_sample_dist(s as int, spec_background(ray@.dir).r);
                    lemma_sample_dist(s as int, spec_background(ray@.dir).g);
                    lemma_sample_dist(s as int, spec_background(ray@.dir).b);
                }
                color = color.add(&sample);
                s += 1;
            }
            proof {
                if objects@.len() == 0 {
                    lemma_sample_avg(spec_background(ray@.dir).r);
                    lemma_sample_avg(spec_background(ray@.dir).g);
                    lemma_sample_avg(spec_background(ray@.dir).b);
                }
            }
            tile_buffer.push(color.scale_div(SAMPLES_PER_PIXEL));
            pixel_index += 1;
        }
        tile_buffer
    }

    /// Render the whole image: tiles in index order, concatenated into a
    /// row-major pixel buffer of `total_pixels` colors. With no primitives,
    /// every pixel is exactly the background of its primary ray.
    pub fn render(&self, objects: &Vec<HittableType>) -> (buf: Vec<Color>)
        requires
            self.wf(),
            scene_ok(objects@, self.materials@.len() as int),
        ensures
            buf@.len() == self.total_pixels as int,
            forall|p: int| 0 <= p < buf@.len() ==> (#[trigger] buf@[p]).wf(),
            objects@.len() == 0 ==> forall|p: int|
                0 <= p < buf@.len() ==> (#[trigger] buf@[p])@ == spec_background(
                    spec_primary_dir(*self, p),
                ),
    {
        proof {
            crate::vec3::lemma_mul_bound(
                self.image_width as int,
                self.image_height as int,
                4096,
                262144,
            );
        }
        let num_tiles = (self.total_pixels + TILE_SIZE * TILE_SIZE - 1) / (TILE_SIZE * TILE_SIZE);
        let mut framebuffer: Vec<Color> = Vec::new();
        let mut t: u32 = 0;
        while t < num_tiles
            invariant
                self.wf(),
                scene_ok(objects@, self.materials@.len() as int),
                num_tiles == (self.total_pixels + 255) / 256,
                self.total_pixels <= 0x4000_0000,
                t <= num_tiles,
                framebuffer@.len() == if (t as int) * 256 <= self.total_pixels as int {
                    (t as int) * 256
                } else {
                    self.total_pixels as int
                },
                forall|p: int| 0 <= p < framebuffer@.len() ==> (#[trigger] framebuffer@[p]).wf(),
                objects@.len() == 0 ==> forall|p: int|
                    0 <= p < framebuffer@.len() ==> (#[trigger] framebuffer@[p])@
                        == spec_background(spec_primary_dir(*self, p)),
            decreases num_tiles - t,
        {
            let ghost before = framebuffer@;
            let mut tile = self.render_tile(t, objects);
            let ghost tv = tile@;
            framebuffer.append(&mut tile);
            proof {
                assert(framebuffer@ == before + tv);
                lemma_tile_progress(t as int, self.total_pixels as int);
            }
            t += 1;
        }
        proof {
            lemma_tiles_cover(num_tiles as int, self.total_pixels as int);
        }
        framebuffer
    }
}

proof fn lemma_pixel_split(idx: int, w: int, h: int)
    by (nonlinear_arith)
    requires
        w >= 1,
        h >= 1,
        0 <= idx < w * h,
    ensures
        0 <= idx % w < w,
        0 <= idx / w < h,
{
}

proof fn lemma_sample_step(c: int, v: int, s: int)
    by (nonlinear_arith)
    requires
        0 <= c <= s * 65536,
        0 <= v <= 65536,
        0 <= s <= 9,
    ensures
        c + v <= (s + 1) * 65536,
        c + v <= 0xffff_ffff,
{
}

proof fn lemma_sample_avg(v: int)
    by (nonlinear_arith)
    ensures
        (10 * v) / 10 == v,
        (v + 1) * 65536 == v * 65536 + 65536,
{
}

proof fn lemma_sample_dist(sv: int, v: int)
    by (nonlinear_arith)
    ensures
        (sv + 1) * v == sv * v + v,
        (sv + 1) * 65536 == sv * 65536 + 65536,
{
}

proof fn lemma_tile_progress(t: int, total: int)
    by (nonlinear_arith)
    requires
        t >= 0,
        total >= 0,
    ensures
        (t + 1) * 256 == t * 256 + 256,
{
}

proof fn lemma_tiles_cover(nt: int, total: int)
    by (nonlinear_arith)
    requires
        total >= 0,
        nt == (total + 255) / 256,
    ensures
        nt * 256 >= total,
{
}

} // verus!
