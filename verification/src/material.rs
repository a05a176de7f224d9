use crate::color::{scolor_wf, Color, SColor};
use crate::hit_result::{HitResult, SHit};
use crate::rat::SRat;
use crate::ray::{ray_wf, Ray, SRay};
use crate::sphere::{is_sqrt, isqrt, sqrt_floor};
use crate::vec3::{
    spec_quantize, spec_reflect, v3_dot, v3_in, v3_zero, Vec3, V3, NORMAL_BOUND, UNIT,
};
use vstd::prelude::*;

verus! {

/// How many perturbation attempts a rough material makes before settling for
/// the plain mirror direction: keeps the rejection loop bounded even under
/// adversarial geometry.
pub const MAX_SCATTER_TRIES: u8 = 8;

/// The deterministic base bounce direction: the grid reflection of the
/// incoming direction about the hit normal, or the (quantized) normal itself
/// when the reflection degenerates to zero.
pub open spec fn base_scatter_dir(rdir: V3, n: V3) -> V3 {
    if spec_reflect(rdir, n) == v3_zero() {
        spec_quantize(n)
    } else {
        spec_reflect(rdir, n)
    }
}

/// What scattering promises about the outgoing direction whatever the random
/// perturbation did: either it fell back to the base direction, or it is a
/// nonzero grid direction in the visible hemisphere of the normal.
pub open spec fn scatter_dir_ok(dir: V3, rdir: V3, n: V3) -> bool {
    ||| dir == base_scatter_dir(rdir, n)
    ||| (v3_in(dir, UNIT as int) && dir != v3_zero() && v3_dot(dir, n) > 0)
}

/// The flat texel index a square texture of `len` pixels yields for surface
/// coordinates `(u, v)`: nearest-pixel lookup with wrap-around; negative
/// coordinates clamp to the first row or column.
pub open spec fn spec_texel_index(u: SRat, v: SRat, len: int) -> int {
    let width = sqrt_floor(len);
    let ux = (u.n * width) / u.d;
    let vy = (v.n * width) / v.d;
    let x = if ux < 0 {
        0
    } else {
        ux % width
    };
    let y = if vy < 0 {
        0
    } else {
        vy % width
    };
    y * width + x
}

/// A diffuse material with a fixed albedo.
pub struct Lambertian {
    pub name: String,
    pub albedo: Color,
    pub roughness: i64,
}

impl Lambertian {
    pub open spec fn wf(&self) -> bool {
        &&& self.albedo.wf()
        &&& 0 <= self.roughness <= UNIT
    }
}

/// A diffuse material that looks its albedo up in a square pixel table.
pub struct TextureLambertian {
    pub name: String,
    pub pixels: Vec<Color>,
    pub roughness: i64,
}

impl TextureLambertian {
    pub open spec fn wf(&self) -> bool {
        &&& 1 <= self.pixels@.len() <= 0x1_0000_0000
        &&& forall|k: int| 0 <= k < self.pixels@.len() ==> (#[trigger] self.pixels@[k]).wf()
        &&& 0 <= self.roughness <= UNIT
    }
}

/// A scene material.
pub enum MaterialType {
    Lambertian(Lambertian),
    TextureLambertian(TextureLambertian),
}

pub open spec fn material_wf(m: MaterialType) -> bool {
    match m {
        MaterialType::Lambertian(l) => l.wf(),
        MaterialType::TextureLambertian(t) => t.wf(),
    }
}

/// The attenuation a material applies at a hit: a fixed albedo, or the texel
/// the hit's surface coordinates select.
pub open spec fn spec_attenuation(m: MaterialType, h: SHit) -> SColor {
    match m {
        MaterialType::Lambertian(l) => l.albedo@,
        MaterialType::TextureLambertian(t) => t.pixels@[spec_texel_index(
            h.u,
            h.v,
            t.pixels@.len() as int,
        )]@,
    }
}

/// The common bounce-direction logic: reflect, then perturb by points inside
/// the unit ball scaled by the roughness until the direction points into the
/// normal's hemisphere, giving up after a fixed number of tries.
fn scatter_direction(ray: &Ray, hit: &HitResult, roughness: i64) -> (r: Vec3)
    requires
        ray.wf(),
        hit.wf(),
        0 <= roughness <= UNIT,
    ensures
        scatter_dir_ok(r@, ray@.dir, hit@.normal),
        roughness == 0 ==> r@ == base_scatter_dir(ray@.dir, hit@.normal),
        v3_in(r@, UNIT as int),
        r@ != v3_zero(),
{
    let base = {
        let refl = ray.dir.reflect(hit.normal);
        if refl.x == 0 && refl.y == 0 && refl.z == 0 {
            let q = hit.normal.normalize();
            proof {
                crate::vec3::lemma_quantize_props(hit@.normal);
            }
            q
        } else {
            refl
        }
    };
    if roughness == 0 {
        return base;
    }
    let mut dir = base;
    let mut tries: u8 = 0;
    while tries < MAX_SCATTER_TRIES
        invariant
            ray.wf(),
            hit.wf(),
            0 < roughness <= UNIT,
            base@ == base_scatter_dir(ray@.dir, hit@.normal),
            v3_in(base@, UNIT as int),
            base@ != v3_zero(),
            v3_in(dir@, UNIT as int),
            tries <= MAX_SCATTER_TRIES,
        decreases MAX_SCATTER_TRIES - tries,
    {
        let p = Vec3::random_in_unit_sphere();
        proof {
            crate::vec3::lemma_mul_bound(p@.x, roughness as int, 65536, 65536);
            crate::vec3::lemma_mul_bound(p@.y, roughness as int, 65536, 65536);
            crate::vec3::lemma_mul_bound(p@.z, roughness as int, 65536, 65536);
            crate::vec3::lemma_mul_bound(dir@.x, 65536, 65536, 65536);
            crate::vec3::lemma_mul_bound(dir@.y, 65536, 65536, 65536);
            crate::vec3::lemma_mul_bound(dir@.z, 65536, 65536, 65536);
        }
        let rough = roughness as i128;
        proof {
            crate::vec3::lemma_mul_bound(p@.x, rough as int, 65536, 65536);
            assert((p.x as i128) * rough <= 65536 * 65536 && -(65536 * 65536) <= (p.x as i128)
                * rough);
            crate::vec3::lemma_mul_bound(p@.y, rough as int, 65536, 65536);
            crate::vec3::lemma_mul_bound(p@.z, rough as int, 65536, 65536);
        }
        let cand = crate::vec3::quantize3(
            (dir.x as i128) * 65536 + (p.x as i128) * rough,
            (dir.y as i128) * 65536 + (p.y as i128) * rough,
            (dir.z as i128) * 65536 + (p.z as i128) * rough,
        );
        if !(cand.x == 0 && cand.y == 0 && cand.z == 0) {
            proof {
                crate::vec3::lemma_dot_bound(cand@, hit@.normal, 65536, 549755813888);
            }
            if cand.dot(&hit.normal) > 0 {
                return cand;
            }
            dir = cand;
        }
        tries += 1;
    }
    base
}

impl Lambertian {
    /// Bounce a ray off the surface: mirror-like direction (perturbed by
    /// roughness), origin at the hit point, attenuation the albedo.
    pub fn scatter(&self, ray: &Ray, hit: &HitResult) -> (r: (Ray, Color))
        requires
            self.wf(),
            ray.wf(),
            hit.wf(),
        ensures
            r.0.wf(),
            r.0@.origin == hit@.point,
            scatter_dir_ok(r.0@.dir, ray@.dir, hit@.normal),
            self.roughness == 0 ==> r.0@.dir == base_scatter_dir(ray@.dir, hit@.normal),
            r.1 == self.albedo,
            r.1.wf(),
    {
        let dir = scatter_direction(ray, hit, self.roughness);
        let scattered = Ray::new(hit.point, dir);
        (scattered, self.albedo)
    }

    pub fn get_name(&self) -> (r: &str)
        ensures
            r@ == self.name@,
    {
        self.name.as_str()
    }
}

impl TextureLambertian {
    /// Bounce a ray off the surface; the attenuation comes from the texel
    /// under the hit's surface coordinates.
    pub fn scatter(&self, ray: &Ray, hit: &HitResult) -> (r: (Ray, Color))
        requires
            self.wf(),
            ray.wf(),
            hit.wf(),
        ensures
            r.0.wf(),
            r.0@.origin == hit@.point,
            scatter_dir_ok(r.0@.dir, ray@.dir, hit@.normal),
            self.roughness == 0 ==> r.0@.dir == base_scatter_dir(ray@.dir, hit@.normal),
            r.1@ == self.pixels@[spec_texel_index(hit@.u, hit@.v, self.pixels@.len() as int)]@,
            r.1.wf(),
    {
        let dir = scatter_direction(ray, hit, self.roughness);
        let scattered = Ray::new(hit.point, dir);

        let len = self.pixels.len();
        let width128 = isqrt(len as u128);
        let width = width128 as i128;
        proof {
            crate::sphere::lemma_sqrt_pos(len as int);
            lemma_width_bound(len as int, width as int);
        }
        proof {
            crate::vec3::lemma_mul_bound(
                hit@.u.n,
                width as int,
                crate::rat::RAT_BOUND as int,
                65536,
            );
            crate::vec3::lemma_mul_bound(
                hit@.v.n,
                width as int,
                crate::rat::RAT_BOUND as int,
                65536,
            );
        }
        let ux = crate::rat::div_floor((hit.u.num) * width, hit.u.den);
        let vy = crate::rat::div_floor((hit.v.num) * width, hit.v.den);
        let x = if ux < 0 {
            0
        } else {
            ux % width
        };
        let y = if vy < 0 {
            0
        } else {
            vy % width
        };
        proof {
            lemma_texel_in_table(len as int, width as int, x as int, y as int);
        }
        let idx = (y * width + x) as usize;
        let attenuation = self.pixels[idx];
        (scattered, attenuation)
    }

    pub fn get_name(&self) -> (r: &str)
        ensures
            r@ == self.name@,
    {
        self.name.as_str()
    }
}

/// A square texture of at most `2^32` pixels is at most `2^16` wide.
proof fn lemma_width_bound(len: int, w: int)
    by (nonlinear_arith)
    requires
        w >= 0,
        w * w <= len,
        len <= 0x1_0000_0000,
    ensures
        w <= 65536,
{
}

/// A wrapped texel coordinate pair stays inside the table.
proof fn lemma_texel_in_table(len: int, width: int, x: int, y: int)
    by (nonlinear_arith)
    requires
        width >= 1,
        width * width <= len,
        0 <= x < width,
        0 <= y < width,
    ensures
        0 <= y * width + x < len,
{
}

impl MaterialType {
    pub open spec fn wf(&self) -> bool {
        material_wf(*self)
    }

    /// Bounce a ray off the surface with this material.
    pub fn scatter(&self, ray: &Ray, hit_record: &HitResult) -> (r: (Ray, Color))
        requires
            self.wf(),
            ray.wf(),
            hit_record.wf(),
        ensures
            r.0.wf(),
            r.0@.origin == hit_record@.point,
            scatter_dir_ok(r.0@.dir, ray@.dir, hit_record@.normal),
            r.1@ == spec_attenuation(*self, hit_record@),
            r.1.wf(),
    {
        match self {
            MaterialType::Lambertian(mat) => mat.scatter(ray, hit_record),
            MaterialType::TextureLambertian(mat) => mat.scatter(ray, hit_record),
        }
    }

    pub fn get_name(&self) -> (r: &str)
        ensures
            match self {
                MaterialType::Lambertian(mat) => r@ == mat.name@,
                MaterialType::TextureLambertian(mat) => r@ == mat.name@,
            },
    {
        match self {
            MaterialType::Lambertian(mat) => mat.get_name(),
            MaterialType::TextureLambertian(mat) => mat.get_name(),
        }
    }
}

} // verus!
