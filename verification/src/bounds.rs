use crate::interval::{sint_contains, Interval, SInterval};
use crate::rat::{rle, rlt, Rat, SRat};
use crate::ray::{Ray, SRay};
use crate::vec3::{v3_in, v3_max, v3_min, v3_sub, Vec3, V3, COORD_BOUND};
use vstd::prelude::*;

verus! {

/// Largest coordinate a bounding box corner may carry: boxes are unions of
/// (padded) primitive extents, which stay within a few multiples of the
/// scene coordinate bound.
pub const BOX_BOUND: i64 = 4 * COORD_BOUND;

#[derive(Clone, Copy, PartialEq, Eq, Structural, Debug)]
pub enum Axis {
    X,
    Y,
    Z,
}

/// Mathematical view of an axis-aligned box.
pub ghost struct SBounds {
    pub min: V3,
    pub max: V3,
}

pub open spec fn sbounds_wf(b: SBounds) -> bool {
    &&& v3_in(b.min, BOX_BOUND as int)
    &&& v3_in(b.max, BOX_BOUND as int)
}

/// The exact point at parameter `t` (numerator `o * t.d + t.n * d` over the
/// positive denominator `t.d`) lies strictly between the two planes of one
/// axis slab.
pub open spec fn axis_adm(bmin: int, bmax: int, o: int, d: int, t: SRat) -> bool {
    &&& bmin * t.d < o * t.d + t.n * d
    &&& o * t.d + t.n * d < bmax * t.d
}

/// The parameter `t` is admissible for the box: the exact ray point at `t`
/// lies strictly inside it on every axis. This per-axis interval intersection
/// is the brute-force meaning that the slab test must reproduce.
pub open spec fn slab_adm(b: SBounds, r: SRay, t: SRat) -> bool {
    &&& axis_adm(b.min.x, b.max.x, r.origin.x, r.dir.x, t)
    &&& axis_adm(b.min.y, b.max.y, r.origin.y, r.dir.y, t)
    &&& axis_adm(b.min.z, b.max.z, r.origin.z, r.dir.z, t)
}

/// At parameter `t`, the narrowed interval `iv` agrees with "`orig` admits
/// `t` and `t` is admissible for the box".
pub open spec fn slab_step(iv: SInterval, orig: SInterval, b: SBounds, r: SRay, t: SRat) -> bool {
    sint_contains(iv, t) <==> (sint_contains(orig, t) && slab_adm(b, r, t))
}

/// At parameter `t`, `orig` does not admit `t` inside the box.
pub open spec fn slab_out(orig: SInterval, b: SBounds, r: SRay, t: SRat) -> bool {
    !(sint_contains(orig, t) && slab_adm(b, r, t))
}

/// The interval `iv` admits exactly the parameters of `orig` that are
/// admissible for the box — the slab test's whole contract.
pub open spec fn slab_exact(iv: SInterval, orig: SInterval, b: SBounds, r: SRay) -> bool {
    forall|t: SRat| t.d > 0 ==> #[trigger] slab_step(iv, orig, b, r, t)
}

/// No parameter of `orig` is admissible for the box.
pub open spec fn slab_empty(orig: SInterval, b: SBounds, r: SRay) -> bool {
    forall|t: SRat| t.d > 0 ==> #[trigger] slab_out(orig, b, r, t)
}

/// Instantiate `slab_exact` at one parameter.
pub proof fn lemma_slab_exact_at(iv: SInterval, orig: SInterval, b: SBounds, r: SRay, t: SRat)
    requires
        slab_exact(iv, orig, b, r),
        t.d > 0,
    ensures
        sint_contains(iv, t) <==> (sint_contains(orig, t) && slab_adm(b, r, t)),
{
    assert(slab_step(iv, orig, b, r, t));
}

/// Instantiate `slab_empty` at one parameter.
pub proof fn lemma_slab_empty_at(orig: SInterval, b: SBounds, r: SRay, t: SRat)
    requires
        slab_empty(orig, b, r),
        t.d > 0,
    ensures
        !(sint_contains(orig, t) && slab_adm(b, r, t)),
{
    assert(slab_out(orig, b, r, t));
}

/// The componentwise union of two boxes: the tightest box containing both.
pub open spec fn sbounds_union(a: SBounds, b: SBounds) -> SBounds {
    SBounds { min: v3_min(a.min, b.min), max: v3_max(a.max, b.max) }
}

/// `outer` contains `inner` componentwise.
pub open spec fn sbounds_contains(outer: SBounds, inner: SBounds) -> bool {
    &&& outer.min.x <= inner.min.x && inner.max.x <= outer.max.x
    &&& outer.min.y <= inner.min.y && inner.max.y <= outer.max.y
    &&& outer.min.z <= inner.min.z && inner.max.z <= outer.max.z
}

proof fn lemma_mul_le(a: int, b: int, c: int)
    by (nonlinear_arith)
    requires
        a <= b,
        c > 0,
    ensures
        a * c <= b * c,
{
}

/// A parameter admissible for a box is admissible for every box that
/// contains it.
pub proof fn lemma_adm_monotone(inner: SBounds, outer: SBounds, r: SRay, t: SRat)
    requires
        t.d > 0,
        slab_adm(inner, r, t),
        sbounds_contains(outer, inner),
    ensures
        slab_adm(outer, r, t),
{
    lemma_mul_le(outer.min.x, inner.min.x, t.d);
    lemma_mul_le(inner.max.x, outer.max.x, t.d);
    lemma_mul_le(outer.min.y, inner.min.y, t.d);
    lemma_mul_le(inner.max.y, outer.max.y, t.d);
    lemma_mul_le(outer.min.z, inner.min.z, t.d);
    lemma_mul_le(inner.max.z, outer.max.z, t.d);
}

/// The axis along which a box extends furthest; ties break by the fixed
/// priority X, then Y, then Z.
pub open spec fn spec_longest_axis(b: SBounds) -> Axis {
    let diag = v3_sub(b.max, b.min);
    if diag.x >= diag.y && diag.x >= diag.z {
        Axis::X
    } else if diag.y >= diag.z {
        Axis::Y
    } else {
        Axis::Z
    }
}

/// An axis-aligned bounding box.
#[derive(Clone, Copy, PartialEq, Eq, Structural, Debug)]
pub struct Bounds {
    pub min: Vec3,
    pub max: Vec3,
}

impl View for Bounds {
    type V = SBounds;

    open spec fn view(&self) -> SBounds {
        SBounds { min: self.min@, max: self.max@ }
    }
}

impl Bounds {
    pub open spec fn wf(&self) -> bool {
        sbounds_wf(self@)
    }

    /// Grow this box to the componentwise union with another.
    pub fn expand_to_contain(&mut self, other: &Bounds)
        ensures
            final(self)@.min == v3_min(old(self)@.min, other@.min),
            final(self)@.max == v3_max(old(self)@.max, other@.max),
    {
        self.min = crate::vec3::min(self.min, other.min);
        self.max = crate::vec3::max(self.max, other.max);
    }

    /// The axis along which the box extends furthest; ties break by the
    /// fixed priority X, then Y, then Z.
    pub fn longest_axis(&self) -> (r: Axis)
        requires
            self.wf(),
        ensures
            r == spec_longest_axis(self@),
    {
        let dx = self.max.x - self.min.x;
        let dy = self.max.y - self.min.y;
        let dz = self.max.z - self.min.z;
        if dx >= dy && dx >= dz {
            Axis::X
        } else if dy >= dz {
            Axis::Y
        } else {
            Axis::Z
        }
    }

    /// The slab test: restrict `interval` to the parameters admissible for
    /// this box. The returned interval admits exactly the parameters that
    /// `interval` admits and that put the ray point strictly inside the box
    /// on all three axes; when that set is empty the test may report the miss
    /// outright.
    pub fn hit(&self, ray: &Ray, interval: &Interval) -> (r: Option<Interval>)
        requires
            self.wf(),
            ray.wf(),
            interval.wf(),
        ensures
            match r {
                Some(iv) => {
                    &&& iv.wf()
                    &&& rle(interval@.min, iv@.min)
                    &&& rle(iv@.min, iv@.max)
                    &&& rle(iv@.max, interval@.max)
                    &&& slab_exact(iv@, interval@, self@, ray@)
                },
                None => slab_empty(interval@, self@, ray@),
            },
    {
        let ghost b = self@;
        let ghost rv = ray@;
        let ghost iv0 = interval@;

        // X slab
        let sx = slab_axis(
            self.min.x,
            self.max.x,
            ray.origin.x,
            ray.dir.x,
            interval.min,
            interval.max,
        );
        let (min_x, max_x) = match sx {
            Some(p) => p,
            None => {
                proof {
                    assert forall|t: SRat| t.d > 0 implies #[trigger] slab_out(iv0, b, rv, t) by {
                        if sint_contains(iv0, t) && slab_adm(b, rv, t) {
                            lemma_axis_empty_at(
                                iv0.min,
                                iv0.max,
                                b.min.x,
                                b.max.x,
                                rv.origin.x,
                                rv.dir.x,
                                t,
                            );
                        }
                    }
                    assert(slab_empty(iv0, b, rv));
                }
                return None;
            },
        };
        if max_x.le(&min_x) {
            proof {
                assert forall|t: SRat| t.d > 0 implies #[trigger] slab_out(iv0, b, rv, t) by {
                    if sint_contains(iv0, t) && slab_adm(b, rv, t) {
                        lemma_axis_exact_at(
                            min_x@,
                            max_x@,
                            iv0.min,
                            iv0.max,
                            b.min.x,
                            b.max.x,
                            rv.origin.x,
                            rv.dir.x,
                            t,
                        );
                        crate::rat::lemma_rlt_trans(min_x@, t, max_x@);
                    }
                }
                assert(slab_empty(iv0, b, rv));
            }
            return None;
        }

        // Y slab
        let sy = slab_axis(self.min.y, self.max.y, ray.origin.y, ray.dir.y, min_x, max_x);
        let (min_y, max_y) = match sy {
            Some(p) => p,
            None => {
                proof {
                    assert forall|t: SRat| t.d > 0 implies #[trigger] slab_out(iv0, b, rv, t) by {
                        if sint_contains(iv0, t) && slab_adm(b, rv, t) {
                            lemma_axis_exact_at(
                                min_x@,
                                max_x@,
                                iv0.min,
                                iv0.max,
                                b.min.x,
                                b.max.x,
                                rv.origin.x,
                                rv.dir.x,
                                t,
                            );
                            lemma_axis_empty_at(
                                min_x@,
                                max_x@,
                                b.min.y,
                                b.max.y,
                                rv.origin.y,
                                rv.dir.y,
                                t,
                            );
                        }
                    }
                    assert(slab_empty(iv0, b, rv));
                }
                return None;
            },
        };
        if max_y.le(&min_y) {
            proof {
                assert forall|t: SRat| t.d > 0 implies #[trigger] slab_out(iv0, b, rv, t) by {
                    if sint_contains(iv0, t) && slab_adm(b, rv, t) {
                        lemma_axis_exact_at(
                            min_x@,
                            max_x@,
                            iv0.min,
                            iv0.max,
                            b.min.x,
                            b.max.x,
                            rv.origin.x,
                            rv.dir.x,
                            t,
                        );
                        lemma_axis_exact_at(
                            min_y@,
                            max_y@,
                            min_x@,
                            max_x@,
                            b.min.y,
                            b.max.y,
                            rv.origin.y,
                            rv.dir.y,
                            t,
                        );
                        crate::rat::lemma_rlt_trans(min_y@, t, max_y@);
                    }
                }
                assert(slab_empty(iv0, b, rv));
            }
            return None;
        }

        // Z slab
        let sz = slab_axis(self.min.z, self.max.z, ray.origin.z, ray.dir.z, min_y, max_y);
        let (min_z, max_z) = match sz {
            Some(p) => p,
            None => {
                proof {
                    assert forall|t: SRat| t.d > 0 implies #[trigger] slab_out(iv0, b, rv, t) by {
                        if sint_contains(iv0, t) && slab_adm(b, rv, t) {
                            lemma_axis_exact_at(
                                min_x@,
                                max_x@,
                                iv0.min,
                                iv0.max,
                                b.min.x,
                                b.max.x,
                                rv.origin.x,
                                rv.dir.x,
                                t,
                            );
                            lemma_axis_exact_at(
                                min_y@,
                                max_y@,
                                min_x@,
                                max_x@,
                                b.min.y,
                                b.max.y,
                                rv.origin.y,
                                rv.dir.y,
                                t,
                            );
                            lemma_axis_empty_at(
                                min_y@,
                                max_y@,
                                b.min.z,
                                b.max.z,
                                rv.origin.z,
                                rv.dir.z,
                                t,
                            );
                        }
                    }
                    assert(slab_empty(iv0, b, rv));
                }
                return None;
            },
        };
        if min_z.le(&max_z) {
            let out = Interval::new(min_z, max_z);
            proof {
                assert forall|t: SRat| t.d > 0 implies #[trigger] slab_step(out@, iv0, b, rv, t) by {
                    lemma_axis_exact_at(
                        min_x@,
                        max_x@,
                        iv0.min,
                        iv0.max,
                        b.min.x,
                        b.max.x,
                        rv.origin.x,
                        rv.dir.x,
                        t,
                    );
                    lemma_axis_exact_at(
                        min_y@,
                        max_y@,
                        min_x@,
                        max_x@,
                        b.min.y,
                        b.max.y,
                        rv.origin.y,
                        rv.dir.y,
                        t,
                    );
                    lemma_axis_exact_at(
                        min_z@,
                        max_z@,
                        min_y@,
                        max_y@,
                        b.min.z,
                        b.max.z,
                        rv.origin.z,
                        rv.dir.z,
                        t,
                    );
                }
                assert(slab_exact(out@, iv0, b, rv));
                crate::rat::lemma_rle_trans(iv0.min, min_x@, min_y@);
                crate::rat::lemma_rle_trans(iv0.min, min_y@, min_z@);
                crate::rat::lemma_rle_trans(max_z@, max_y@, max_x@);
                crate::rat::lemma_rle_trans(max_z@, max_x@, iv0.max);
            }
            Some(out)
        } else {
            proof {
                assert forall|t: SRat| t.d > 0 implies #[trigger] slab_out(iv0, b, rv, t) by {
                    if sint_contains(iv0, t) && slab_adm(b, rv, t) {
                        lemma_axis_exact_at(
                            min_x@,
                            max_x@,
                            iv0.min,
                            iv0.max,
                            b.min.x,
                            b.max.x,
                            rv.origin.x,
                            rv.dir.x,
                            t,
                        );
                        lemma_axis_exact_at(
                            min_y@,
                            max_y@,
                            min_x@,
                            max_x@,
                            b.min.y,
                            b.max.y,
                            rv.origin.y,
                            rv.dir.y,
                            t,
                        );
                        lemma_axis_exact_at(
                            min_z@,
                            max_z@,
                            min_y@,
                            max_y@,
                            b.min.z,
                            b.max.z,
                            rv.origin.z,
                            rv.dir.z,
                            t,
                        );
                        crate::rat::lemma_rlt_trans(min_z@, t, max_z@);
                        crate::rat::lemma_rle_total(min_z@, max_z@);
                    }
                }
                assert(slab_empty(iv0, b, rv));
            }
            None
        }
    }
}

/// At parameter `t`, the one-axis narrowing `[lo, hi]` of `[tmin, tmax]`
/// agrees with that axis's slab condition.
pub open spec fn axis_step(
    lo: SRat,
    hi: SRat,
    tmin: SRat,
    tmax: SRat,
    bmin: int,
    bmax: int,
    o: int,
    d: int,
    t: SRat,
) -> bool {
    (rlt(lo, t) && rlt(t, hi)) <==> (rlt(tmin, t) && rlt(t, tmax) && axis_adm(bmin, bmax, o, d, t))
}

/// At parameter `t`, `[tmin, tmax]` does not admit `t` within this axis slab.
pub open spec fn axis_out(
    tmin: SRat,
    tmax: SRat,
    bmin: int,
    bmax: int,
    o: int,
    d: int,
    t: SRat,
) -> bool {
    !(rlt(tmin, t) && rlt(t, tmax) && axis_adm(bmin, bmax, o, d, t))
}

/// After tightening by one axis, `[lo, hi]` admits a parameter exactly when
/// `[tmin, tmax]` admitted it and it satisfies that axis's slab.
pub open spec fn axis_exact(
    lo: SRat,
    hi: SRat,
    tmin: SRat,
    tmax: SRat,
    bmin: int,
    bmax: int,
    o: int,
    d: int,
) -> bool {
    forall|t: SRat| t.d > 0 ==> #[trigger] axis_step(lo, hi, tmin, tmax, bmin, bmax, o, d, t)
}

/// No parameter of `[tmin, tmax]` satisfies this axis's slab.
pub open spec fn axis_empty(tmin: SRat, tmax: SRat, bmin: int, bmax: int, o: int, d: int) -> bool {
    forall|t: SRat| t.d > 0 ==> #[trigger] axis_out(tmin, tmax, bmin, bmax, o, d, t)
}

pub proof fn lemma_axis_exact_at(
    lo: SRat,
    hi: SRat,
    tmin: SRat,
    tmax: SRat,
    bmin: int,
    bmax: int,
    o: int,
    d: int,
    t: SRat,
)
    requires
        axis_exact(lo, hi, tmin, tmax, bmin, bmax, o, d),
        t.d > 0,
    ensures
        (rlt(lo, t) && rlt(t, hi)) <==> (rlt(tmin, t) && rlt(t, tmax) && axis_adm(
            bmin,
            bmax,
            o,
            d,
            t,
        )),
{
    assert(axis_step(lo, hi, tmin, tmax, bmin, bmax, o, d, t));
}

pub proof fn lemma_axis_empty_at(
    tmin: SRat,
    tmax: SRat,
    bmin: int,
    bmax: int,
    o: int,
    d: int,
    t: SRat,
)
    requires
        axis_empty(tmin, tmax, bmin, bmax, o, d),
        t.d > 0,
    ensures
        !(rlt(tmin, t) && rlt(t, tmax) && axis_adm(bmin, bmax, o, d, t)),
{
    assert(axis_out(tmin, tmax, bmin, bmax, o, d, t));
}

/// Tighten `[tmin, tmax]` by one axis slab.
fn slab_axis(bmin: i64, bmax: i64, o: i64, d: i64, tmin: Rat, tmax: Rat) -> (r: Option<(Rat, Rat)>)
    requires
        -BOX_BOUND <= bmin <= BOX_BOUND,
        -BOX_BOUND <= bmax <= BOX_BOUND,
        -(4 * COORD_BOUND) <= o <= 4 * COORD_BOUND,
        -COORD_BOUND <= d <= COORD_BOUND,
        tmin.wf(),
        tmax.wf(),
    ensures
        match r {
            Some(p) => p.0.wf() && p.1.wf() && rle(tmin@, p.0@) && rle(p.1@, tmax@) && axis_exact(
                p.0@,
                p.1@,
                tmin@,
                tmax@,
                bmin as int,
                bmax as int,
                o as int,
                d as int,
            ),
            None => axis_empty(tmin@, tmax@, bmin as int, bmax as int, o as int, d as int),
        },
{
    if d > 0 {
        let t0 = Rat::new((bmin as i128) - (o as i128), d as i128);
        let t1 = Rat::new((bmax as i128) - (o as i128), d as i128);
        let nmin = tmin.max_of(t0);
        let nmax = tmax.min_of(t1);
        proof {
            assert forall|t: SRat| t.d > 0 implies #[trigger] axis_step(
                nmin@,
                nmax@,
                tmin@,
                tmax@,
                bmin as int,
                bmax as int,
                o as int,
                d as int,
                t,
            ) by {
                lemma_axis_rewrite_pos(bmin as int, bmax as int, o as int, d as int, t);
                if rlt(nmin@, t) && rlt(t, nmax@) {
                    crate::rat::lemma_rle_rlt_trans(tmin@, nmin@, t);
                    crate::rat::lemma_rle_rlt_trans(t0@, nmin@, t);
                    crate::rat::lemma_rlt_rle_trans(t, nmax@, tmax@);
                    crate::rat::lemma_rlt_rle_trans(t, nmax@, t1@);
                }
            }
            assert(axis_exact(
                nmin@,
                nmax@,
                tmin@,
                tmax@,
                bmin as int,
                bmax as int,
                o as int,
                d as int,
            ));
        }
        Some((nmin, nmax))
    } else if d < 0 {
        let t0 = Rat::new((o as i128) - (bmax as i128), -(d as i128));
        let t1 = Rat::new((o as i128) - (bmin as i128), -(d as i128));
        let nmin = tmin.max_of(t0);
        let nmax = tmax.min_of(t1);
        proof {
            assert forall|t: SRat| t.d > 0 implies #[trigger] axis_step(
                nmin@,
                nmax@,
                tmin@,
                tmax@,
                bmin as int,
                bmax as int,
                o as int,
                d as int,
                t,
            ) by {
                lemma_axis_rewrite_neg(bmin as int, bmax as int, o as int, d as int, t);
                if rlt(nmin@, t) && rlt(t, nmax@) {
                    crate::rat::lemma_rle_rlt_trans(tmin@, nmin@, t);
                    crate::rat::lemma_rle_rlt_trans(t0@, nmin@, t);
                    crate::rat::lemma_rlt_rle_trans(t, nmax@, tmax@);
                    crate::rat::lemma_rlt_rle_trans(t, nmax@, t1@);
                }
            }
            assert(axis_exact(
                nmin@,
                nmax@,
                tmin@,
                tmax@,
                bmin as int,
                bmax as int,
                o as int,
                d as int,
            ));
        }
        Some((nmin, nmax))
    } else {
        // A ray parallel to this axis either always satisfies the slab
        // (origin strictly between the planes) or never does.
        if bmin < o && o < bmax {
            proof {
                assert forall|t: SRat| t.d > 0 implies #[trigger] axis_step(
                    tmin@,
                    tmax@,
                    tmin@,
                    tmax@,
                    bmin as int,
                    bmax as int,
                    o as int,
                    d as int,
                    t,
                ) by {
                    lemma_axis_rewrite_zero(bmin as int, bmax as int, o as int, t);
                }
                assert(axis_exact(
                    tmin@,
                    tmax@,
                    tmin@,
                    tmax@,
                    bmin as int,
                    bmax as int,
                    o as int,
                    d as int,
                ));
            }
            Some((tmin, tmax))
        } else {
            proof {
                assert forall|t: SRat| t.d > 0 implies #[trigger] axis_out(
                    tmin@,
                    tmax@,
                    bmin as int,
                    bmax as int,
                    o as int,
                    d as int,
                    t,
                ) by {
                    lemma_axis_rewrite_zero(bmin as int, bmax as int, o as int, t);
                }
                assert(axis_empty(tmin@, tmax@, bmin as int, bmax as int, o as int, d as int));
            }
            None
        }
    }
}

/// For `d > 0`, comparing against the entry/exit rationals `(bmin-o)/d` and
/// `(bmax-o)/d` is the one-axis slab condition.
proof fn lemma_axis_rewrite_pos(bmin: int, bmax: int, o: int, d: int, t: SRat)
    by (nonlinear_arith)
    requires
        d > 0,
        t.d > 0,
    ensures
        ((bmin - o) * t.d < t.n * d) == (bmin * t.d < o * t.d + t.n * d),
        (t.n * d < (bmax - o) * t.d) == (o * t.d + t.n * d < bmax * t.d),
{
}

/// For `d < 0` the entry/exit rationals swap and take denominator `-d`.
proof fn lemma_axis_rewrite_neg(bmin: int, bmax: int, o: int, d: int, t: SRat)
    by (nonlinear_arith)
    requires
        d < 0,
        t.d > 0,
    ensures
        ((o - bmax) * t.d < t.n * (-d)) == (o * t.d + t.n * d < bmax * t.d),
        (t.n * (-d) < (o - bmin) * t.d) == (bmin * t.d < o * t.d + t.n * d),
{
}

/// For `d == 0` the slab condition does not depend on `t`.
proof fn lemma_axis_rewrite_zero(bmin: int, bmax: int, o: int, t: SRat)
    by (nonlinear_arith)
    requires
        t.d > 0,
    ensures
        axis_adm(bmin, bmax, o, 0, t) == (bmin < o && o < bmax),
{
}

} // verus!
