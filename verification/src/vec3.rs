use vstd::arithmetic::mul::{lemma_mul_is_distributive_add, lemma_mul_is_distributive_sub};
use vstd::prelude::*;

verus! {

/// Largest coordinate magnitude (in grid units) that scene geometry may use.
/// Keeping every position inside this cube lets all intersection arithmetic,
/// including cross-multiplied rational comparisons, stay within `i128`.
pub const COORD_BOUND: i64 = 262144;

/// Grid scale of a normalized direction: `normalize` rescales a vector so
/// that its largest component magnitude equals this value.
pub const UNIT: i64 = 65536;

/// Largest component magnitude of a triangle face normal (a cross product of
/// two edge vectors whose components are at most `2 * COORD_BOUND`).
pub const NORMAL_BOUND: i64 = 8 * COORD_BOUND * COORD_BOUND;

/// Mathematical view of a vector: three unbounded integers.
pub ghost struct V3 {
    pub x: int,
    pub y: int,
    pub z: int,
}

pub open spec fn v3_zero() -> V3 {
    V3 { x: 0, y: 0, z: 0 }
}

pub open spec fn v3_add(a: V3, b: V3) -> V3 {
    V3 { x: a.x + b.x, y: a.y + b.y, z: a.z + b.z }
}

pub open spec fn v3_sub(a: V3, b: V3) -> V3 {
    V3 { x: a.x - b.x, y: a.y - b.y, z: a.z - b.z }
}

pub open spec fn v3_neg(a: V3) -> V3 {
    V3 { x: -a.x, y: -a.y, z: -a.z }
}

pub open spec fn v3_scale(a: V3, k: int) -> V3 {
    V3 { x: a.x * k, y: a.y * k, z: a.z * k }
}

pub open spec fn v3_dot(a: V3, b: V3) -> int {
    a.x * b.x + a.y * b.y + a.z * b.z
}

pub open spec fn v3_cross(a: V3, b: V3) -> V3 {
    V3 {
        x: a.y * b.z - a.z * b.y,
        y: a.z * b.x - a.x * b.z,
        z: a.x * b.y - a.y * b.x,
    }
}

pub open spec fn v3_min(a: V3, b: V3) -> V3 {
    V3 {
        x: if a.x <= b.x { a.x } else { b.x },
        y: if a.y <= b.y { a.y } else { b.y },
        z: if a.z <= b.z { a.z } else { b.z },
    }
}

pub open spec fn v3_max(a: V3, b: V3) -> V3 {
    V3 {
        x: if a.x >= b.x { a.x } else { b.x },
        y: if a.y >= b.y { a.y } else { b.y },
        z: if a.z >= b.z { a.z } else { b.z },
    }
}

/// Every component lies within `[-m, m]`.
pub open spec fn v3_in(a: V3, m: int) -> bool {
    &&& -m <= a.x <= m
    &&& -m <= a.y <= m
    &&& -m <= a.z <= m
}

/// A three-component vector over fixed-point grid coordinates.
#[derive(Clone, Copy, PartialEq, Eq, Structural, Debug)]
pub struct Vec3 {
    pub x: i64,
    pub y: i64,
    pub z: i64,
}

impl View for Vec3 {
    type V = V3;

    open spec fn view(&self) -> V3 {
        V3 { x: self.x as int, y: self.y as int, z: self.z as int }
    }
}

impl Vec3 {
    pub fn new(x: i64, y: i64, z: i64) -> (r: Vec3)
        ensures
            r@ == (V3 { x: x as int, y: y as int, z: z as int }),
    {
        Vec3 { x, y, z }
    }

    pub fn zero() -> (r: Vec3)
        ensures
            r@ == v3_zero(),
    {
        Vec3 { x: 0, y: 0, z: 0 }
    }

    pub fn add(&self, o: &Vec3) -> (r: Vec3)
        requires
            v3_in(self@, 0x3fff_ffff_ffff_ffff),
            v3_in(o@, 0x3fff_ffff_ffff_ffff),
        ensures
            r@ == v3_add(self@, o@),
    {
        Vec3 { x: self.x + o.x, y: self.y + o.y, z: self.z + o.z }
    }

    pub fn sub(&self, o: &Vec3) -> (r: Vec3)
        requires
            v3_in(self@, 0x3fff_ffff_ffff_ffff),
            v3_in(o@, 0x3fff_ffff_ffff_ffff),
        ensures
            r@ == v3_sub(self@, o@),
    {
        Vec3 { x: self.x - o.x, y: self.y - o.y, z: self.z - o.z }
    }

    pub fn neg(&self) -> (r: Vec3)
        requires
            v3_in(self@, 0x7fff_ffff_ffff_fffe),
        ensures
            r@ == v3_neg(self@),
    {
        Vec3 { x: -self.x, y: -self.y, z: -self.z }
    }

    /// Dot product. The bound on both arguments keeps each partial product
    /// and the final sum within `i64`.
    pub fn dot(&self, o: &Vec3) -> (r: i64)
        requires
            v3_in(self@, 0x1_0000_0000_0000),
            v3_in(o@, 0x1_0000_0000_0000),
            -0x7fff_ffff_ffff_ffff <= v3_dot(self@, o@) <= 0x7fff_ffff_ffff_ffff,
        ensures
            r as int == v3_dot(self@, o@),
    {
        proof {
            let m: int = 0x1_0000_0000_0000;
            lemma_mul_bound(self@.x, o@.x, m, m);
            lemma_mul_bound(self@.y, o@.y, m, m);
            lemma_mul_bound(self@.z, o@.z, m, m);
        }
        let px = (self.x as i128) * (o.x as i128);
        let py = (self.y as i128) * (o.y as i128);
        let pz = (self.z as i128) * (o.z as i128);
        (px + py + pz) as i64
    }

    pub fn length_squared(&self) -> (r: i64)
        requires
            v3_in(self@, 0x1_0000_0000_0000),
            v3_dot(self@, self@) <= 0x7fff_ffff_ffff_ffff,
        ensures
            r as int == v3_dot(self@, self@),
            r >= 0,
    {
        proof {
            lemma_self_dot_nonneg(self@);
        }
        self.dot(self)
    }

    pub fn scale(&self, k: i64) -> (r: Vec3)
        requires
            -0x7fff_ffff_ffff_ffff <= self@.x * k <= 0x7fff_ffff_ffff_ffff,
            -0x7fff_ffff_ffff_ffff <= self@.y * k <= 0x7fff_ffff_ffff_ffff,
            -0x7fff_ffff_ffff_ffff <= self@.z * k <= 0x7fff_ffff_ffff_ffff,
        ensures
            r@ == v3_scale(self@, k as int),
    {
        Vec3 {
            x: ((self.x as i128) * (k as i128)) as i64,
            y: ((self.y as i128) * (k as i128)) as i64,
            z: ((self.z as i128) * (k as i128)) as i64,
        }
    }
}

/// The largest component magnitude.
pub open spec fn v3_max_abs(v: V3) -> int {
    let ax = if v.x >= 0 { v.x } else { -v.x };
    let ay = if v.y >= 0 { v.y } else { -v.y };
    let az = if v.z >= 0 { v.z } else { -v.z };
    if ax >= ay && ax >= az {
        ax
    } else if ay >= az {
        ay
    } else {
        az
    }
}

/// Rescale a vector to the direction grid: the largest component magnitude
/// becomes `UNIT`, the others round down proportionally. The zero vector maps
/// to itself.
pub open spec fn spec_quantize(v: V3) -> V3 {
    let m = v3_max_abs(v);
    if m == 0 {
        v3_zero()
    } else {
        V3 {
            x: (v.x * (UNIT as int)) / m,
            y: (v.y * (UNIT as int)) / m,
            z: (v.z * (UNIT as int)) / m,
        }
    }
}

proof fn lemma_div_exact_mul(a: int, b: int)
    by (nonlinear_arith)
    requires
        a > 0,
    ensures
        (b * a) / a == b,
{
}

/// A quantized vector lies on the grid, and quantization preserves being
/// nonzero.
pub proof fn lemma_quantize_props(v: V3)
    ensures
        v3_in(spec_quantize(v), UNIT as int),
        v != v3_zero() ==> spec_quantize(v) != v3_zero(),
{
    let m = v3_max_abs(v);
    if m != 0 {
        lemma_mul_bound(v.x, UNIT as int, m, UNIT as int);
        lemma_mul_bound(v.y, UNIT as int, m, UNIT as int);
        lemma_mul_bound(v.z, UNIT as int, m, UNIT as int);
        crate::rat::lemma_div_range(v.x * (UNIT as int), m, UNIT as int);
        crate::rat::lemma_div_range(v.y * (UNIT as int), m, UNIT as int);
        crate::rat::lemma_div_range(v.z * (UNIT as int), m, UNIT as int);
        lemma_div_exact_mul(m, UNIT as int);
        lemma_div_exact_mul(m, -(UNIT as int));
        if v.x == m {
            assert(v.x * (UNIT as int) == (UNIT as int) * m) by (nonlinear_arith)
                requires
                    v.x == m,
            ;
        } else if v.x == -m {
            assert(v.x * (UNIT as int) == (-(UNIT as int)) * m) by (nonlinear_arith)
                requires
                    v.x == -m,
            ;
        } else if v.y == m {
            assert(v.y * (UNIT as int) == (UNIT as int) * m) by (nonlinear_arith)
                requires
                    v.y == m,
            ;
        } else if v.y == -m {
            assert(v.y * (UNIT as int) == (-(UNIT as int)) * m) by (nonlinear_arith)
                requires
                    v.y == -m,
            ;
        } else if v.z == m {
            assert(v.z * (UNIT as int) == (UNIT as int) * m) by (nonlinear_arith)
                requires
                    v.z == m,
            ;
        } else {
            assert(v.z == -m);
            assert(v.z * (UNIT as int) == (-(UNIT as int)) * m) by (nonlinear_arith)
                requires
                    v.z == -m,
            ;
        }
    }
}

/// Rescale to the direction grid; the executable form of `spec_quantize`.
pub fn quantize3(x: i128, y: i128, z: i128) -> (r: Vec3)
    requires
        -0x100_0000_0000_0000_0000_0000_0000 <= x <= 0x100_0000_0000_0000_0000_0000_0000,
        -0x100_0000_0000_0000_0000_0000_0000 <= y <= 0x100_0000_0000_0000_0000_0000_0000,
        -0x100_0000_0000_0000_0000_0000_0000 <= z <= 0x100_0000_0000_0000_0000_0000_0000,
    ensures
        r@ == spec_quantize(V3 { x: x as int, y: y as int, z: z as int }),
        v3_in(r@, UNIT as int),
    ({
        let v = V3 { x: x as int, y: y as int, z: z as int };
        v != v3_zero() ==> r@ != v3_zero()
    }),
{
    let ghost v = V3 { x: x as int, y: y as int, z: z as int };
    proof {
        lemma_quantize_props(v);
    }
    let ax = if x >= 0 { x } else { -x };
    let ay = if y >= 0 { y } else { -y };
    let az = if z >= 0 { z } else { -z };
    let m = if ax >= ay && ax >= az {
        ax
    } else if ay >= az {
        ay
    } else {
        az
    };
    if m == 0 {
        Vec3 { x: 0, y: 0, z: 0 }
    } else {
        proof {
            lemma_mul_bound(v.x, UNIT as int, v3_max_abs(v), UNIT as int);
            lemma_mul_bound(v.y, UNIT as int, v3_max_abs(v), UNIT as int);
            lemma_mul_bound(v.z, UNIT as int, v3_max_abs(v), UNIT as int);
        }
        Vec3 {
            x: crate::rat::div_floor(x * (UNIT as i128), m) as i64,
            y: crate::rat::div_floor(y * (UNIT as i128), m) as i64,
            z: crate::rat::div_floor(z * (UNIT as i128), m) as i64,
        }
    }
}

impl Vec3 {
    /// Rescale so the largest component magnitude is `UNIT`; the grid
    /// analogue of making a direction unit length.
    pub fn normalize(&self) -> (r: Vec3)
        ensures
            r@ == spec_quantize(self@),
            v3_in(r@, UNIT as int),
            self@ != v3_zero() ==> r@ != v3_zero(),
    {
        quantize3(self.x as i128, self.y as i128, self.z as i128)
    }
}

/// Componentwise minimum.
pub fn min(u: Vec3, v: Vec3) -> (r: Vec3)
    ensures
        r@ == v3_min(u@, v@),
{
    Vec3 {
        x: if u.x <= v.x { u.x } else { v.x },
        y: if u.y <= v.y { u.y } else { v.y },
        z: if u.z <= v.z { u.z } else { v.z },
    }
}

/// Componentwise maximum.
pub fn max(u: Vec3, v: Vec3) -> (r: Vec3)
    ensures
        r@ == v3_max(u@, v@),
{
    Vec3 {
        x: if u.x >= v.x { u.x } else { v.x },
        y: if u.y >= v.y { u.y } else { v.y },
        z: if u.z >= v.z { u.z } else { v.z },
    }
}

/// Cross product.
pub fn cross(u: Vec3, v: Vec3) -> (r: Vec3)
    requires
        v3_in(u@, 0x4000_0000),
        v3_in(v@, 0x4000_0000),
    ensures
        r@ == v3_cross(u@, v@),
{
    proof {
        let m: int = 0x4000_0000;
        lemma_mul_bound(u@.y, v@.z, m, m);
        lemma_mul_bound(u@.z, v@.y, m, m);
        lemma_mul_bound(u@.z, v@.x, m, m);
        lemma_mul_bound(u@.x, v@.z, m, m);
        lemma_mul_bound(u@.x, v@.y, m, m);
        lemma_mul_bound(u@.y, v@.x, m, m);
    }
    Vec3 {
        x: ((u.y as i128) * (v.z as i128) - (u.z as i128) * (v.y as i128)) as i64,
        y: ((u.z as i128) * (v.x as i128) - (u.x as i128) * (v.z as i128)) as i64,
        z: ((u.x as i128) * (v.y as i128) - (u.y as i128) * (v.x as i128)) as i64,
    }
}

/// Interval bounds carry through a product.
pub proof fn lemma_mul_bound(a: int, b: int, ma: int, mb: int)
    by (nonlinear_arith)
    requires
        -ma <= a <= ma,
        -mb <= b <= mb,
        ma >= 0,
        mb >= 0,
    ensures
        -(ma * mb) <= a * b <= ma * mb,
{
}

/// A dot product of a vector with itself is never negative.
pub proof fn lemma_self_dot_nonneg(a: V3)
    by (nonlinear_arith)
    ensures
        v3_dot(a, a) >= 0,
{
}

/// Componentwise bounds carry through a dot product.
pub proof fn lemma_dot_bound(a: V3, b: V3, ma: int, mb: int)
    by (nonlinear_arith)
    requires
        v3_in(a, ma),
        v3_in(b, mb),
        ma >= 0,
        mb >= 0,
    ensures
        -3 * ma * mb <= v3_dot(a, b) <= 3 * ma * mb,
{
}

/// Componentwise bounds carry through a cross product.
pub proof fn lemma_cross_bound(a: V3, b: V3, ma: int, mb: int)
    requires
        v3_in(a, ma),
        v3_in(b, mb),
        ma >= 0,
        mb >= 0,
    ensures
        v3_in(v3_cross(a, b), 2 * (ma * mb)),
{
    lemma_mul_bound(a.y, b.z, ma, mb);
    lemma_mul_bound(a.z, b.y, ma, mb);
    lemma_mul_bound(a.z, b.x, ma, mb);
    lemma_mul_bound(a.x, b.z, ma, mb);
    lemma_mul_bound(a.x, b.y, ma, mb);
    lemma_mul_bound(a.y, b.x, ma, mb);
}

/// The vector triple product expansion: `x × (y × z) == y (x·z) − z (x·y)`.
/// Every algebraic identity the intersection proofs need reduces to this.
/// Reorder a product of three factors: the solver's linear fragment then
/// matches monomials that differ only in factor order.
pub proof fn lemma_mul3(a: int, b: int, c: int)
    by (nonlinear_arith)
    ensures
        a * (b * c) == b * (a * c),
        a * (b * c) == c * (a * b),
{
}

pub proof fn lemma_triple_product(x: V3, y: V3, z: V3)
    ensures
        v3_cross(x, v3_cross(y, z)) == v3_sub(
            v3_scale(y, v3_dot(x, z)),
            v3_scale(z, v3_dot(x, y)),
        ),
{
    lemma_mul_is_distributive_sub(x.y, y.x * z.y, y.y * z.x);
    lemma_mul_is_distributive_sub(x.z, y.z * z.x, y.x * z.z);
    lemma_mul_is_distributive_add(y.x, x.x * z.x + x.y * z.y, x.z * z.z);
    lemma_mul_is_distributive_add(y.x, x.x * z.x, x.y * z.y);
    lemma_mul_is_distributive_add(z.x, x.x * y.x + x.y * y.y, x.z * y.z);
    lemma_mul_is_distributive_add(z.x, x.x * y.x, x.y * y.y);
    lemma_mul3(x.y, y.x, z.y);
    lemma_mul3(x.y, y.y, z.x);
    lemma_mul3(x.z, y.z, z.x);
    lemma_mul3(x.z, y.x, z.z);
    lemma_mul3(x.x, y.x, z.x);
    assert(v3_cross(x, v3_cross(y, z)).x == v3_sub(
        v3_scale(y, v3_dot(x, z)),
        v3_scale(z, v3_dot(x, y)),
    ).x);
    lemma_mul_is_distributive_sub(x.z, y.y * z.z, y.z * z.y);
    lemma_mul_is_distributive_sub(x.x, y.x * z.y, y.y * z.x);
    lemma_mul_is_distributive_add(y.y, x.x * z.x + x.y * z.y, x.z * z.z);
    lemma_mul_is_distributive_add(y.y, x.x * z.x, x.y * z.y);
    lemma_mul_is_distributive_add(z.y, x.x * y.x + x.y * y.y, x.z * y.z);
    lemma_mul_is_distributive_add(z.y, x.x * y.x, x.y * y.y);
    lemma_mul3(x.z, y.y, z.z);
    lemma_mul3(x.z, y.z, z.y);
    lemma_mul3(x.x, y.x, z.y);
    lemma_mul3(x.x, y.y, z.x);
    lemma_mul3(x.y, y.y, z.y);
    assert(v3_cross(x, v3_cross(y, z)).y == v3_sub(
        v3_scale(y, v3_dot(x, z)),
        v3_scale(z, v3_dot(x, y)),
    ).y);
    lemma_mul_is_distributive_sub(x.x, y.z * z.x, y.x * z.z);
    lemma_mul_is_distributive_sub(x.y, y.y * z.z, y.z * z.y);
    lemma_mul_is_distributive_add(y.z, x.x * z.x + x.y * z.y, x.z * z.z);
    lemma_mul_is_distributive_add(y.z, x.x * z.x, x.y * z.y);
    lemma_mul_is_distributive_add(z.z, x.x * y.x + x.y * y.y, x.z * y.z);
    lemma_mul_is_distributive_add(z.z, x.x * y.x, x.y * y.y);
    lemma_mul3(x.x, y.z, z.x);
    lemma_mul3(x.x, y.x, z.z);
    lemma_mul3(x.y, y.y, z.z);
    lemma_mul3(x.y, y.z, z.y);
    lemma_mul3(x.z, y.z, z.z);
    assert(v3_cross(x, v3_cross(y, z)).z == v3_sub(
        v3_scale(y, v3_dot(x, z)),
        v3_scale(z, v3_dot(x, y)),
    ).z);
}

/// Swapping the factors of a cross product negates it.
pub proof fn lemma_cross_antisym(a: V3, b: V3)
    by (nonlinear_arith)
    ensures
        v3_cross(a, b) == v3_neg(v3_cross(b, a)),
{
}

/// The mirror reflection of `v` about `n`, scaled by `|n|^2` and then
/// renormalized to the direction grid: the direction of `v - 2 (v.n) n / |n|^2`
/// without leaving integer arithmetic.
pub open spec fn spec_reflect(v: V3, n: V3) -> V3 {
    spec_quantize(
        V3 {
            x: v.x * v3_dot(n, n) - 2 * (v3_dot(v, n) * n.x),
            y: v.y * v3_dot(n, n) - 2 * (v3_dot(v, n) * n.y),
            z: v.z * v3_dot(n, n) - 2 * (v3_dot(v, n) * n.z),
        },
    )
}

/// Relies on rand::random_range: a uniform value inside the given
/// (non-empty) half-open range; its documentation promises the result lies
/// within the range and that an empty range panics, which the precondition
/// rules out.
#[verifier::external_body]
fn random_i64_between(lo: i64, hi: i64) -> (r: i64)
    requires
        lo < hi,
    ensures
        lo <= r < hi,
{
    rand::random_range(lo..hi)
}

impl Vec3 {
    /// Reflect about an unnormalized normal; the result lies on the
    /// direction grid.
    pub fn reflect(&self, normal: Vec3) -> (r: Vec3)
        requires
            v3_in(self@, COORD_BOUND as int),
            v3_in(normal@, NORMAL_BOUND as int),
        ensures
            r@ == spec_reflect(self@, normal@),
            v3_in(r@, UNIT as int),
    {
        proof {
            let nb: int = NORMAL_BOUND as int;
            let cb: int = COORD_BOUND as int;
            lemma_dot_bound(normal@, normal@, 549755813888, 549755813888);
            lemma_dot_bound(self@, normal@, 262144, 549755813888);
            lemma_mul_bound(normal@.x, normal@.x, 549755813888, 549755813888);
            lemma_mul_bound(normal@.y, normal@.y, 549755813888, 549755813888);
            lemma_mul_bound(normal@.z, normal@.z, 549755813888, 549755813888);
            lemma_mul_bound(self@.x, normal@.x, 262144, 549755813888);
            lemma_mul_bound(self@.y, normal@.y, 262144, 549755813888);
            lemma_mul_bound(self@.z, normal@.z, 262144, 549755813888);
            lemma_mul_bound(self@.x, v3_dot(normal@, normal@), 262144, 906694364710971881029632);
            lemma_mul_bound(self@.y, v3_dot(normal@, normal@), 262144, 906694364710971881029632);
            lemma_mul_bound(self@.z, v3_dot(normal@, normal@), 262144, 906694364710971881029632);
            lemma_mul_bound(
                v3_dot(self@, normal@),
                normal@.x,
                432345564227567616,
                549755813888,
            );
            lemma_mul_bound(
                v3_dot(self@, normal@),
                normal@.y,
                432345564227567616,
                549755813888,
            );
            lemma_mul_bound(
                v3_dot(self@, normal@),
                normal@.z,
                432345564227567616,
                549755813888,
            );
        }
        let nn = (normal.x as i128) * (normal.x as i128) + (normal.y as i128) * (normal.y as i128)
            + (normal.z as i128) * (normal.z as i128);
        let vn = (self.x as i128) * (normal.x as i128) + (self.y as i128) * (normal.y as i128) + (
        self.z as i128) * (normal.z as i128);
        quantize3(
            (self.x as i128) * nn - 2 * (vn * (normal.x as i128)),
            (self.y as i128) * nn - 2 * (vn * (normal.y as i128)),
            (self.z as i128) * nn - 2 * (vn * (normal.z as i128)),
        )
    }

    /// A random point strictly inside the unit ball of the direction grid.
    /// Sampling is rejection with a fixed retry cap; on exhaustion the center
    /// serves as the sample.
    pub fn random_in_unit_sphere() -> (r: Vec3)
        ensures
            v3_in(r@, UNIT as int),
            v3_dot(r@, r@) < (UNIT as int) * (UNIT as int),
    {
        let mut tries: u8 = 0;
        while tries < 16
            invariant
                tries <= 16,
            decreases 16 - tries,
        {
            let p = Vec3 {
                x: random_i64_between(-65535, 65536),
                y: random_i64_between(-65535, 65536),
                z: random_i64_between(-65535, 65536),
            };
            proof {
                lemma_dot_bound(p@, p@, 65535, 65535);
            }
            let len2 = p.dot(&p);
            if len2 < 65536 * 65536 {
                proof {
                    lemma_self_dot_nonneg(p@);
                }
                return p;
            }
            tries += 1;
        }
        Vec3 { x: 0, y: 0, z: 0 }
    }
}

} // verus!
