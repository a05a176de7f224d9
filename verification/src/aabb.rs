use crate::bounds::{
    sbounds_contains, sbounds_union, sbounds_wf, spec_longest_axis, Axis, Bounds, SBounds,
};
use crate::hit_result::{HitResult, SHit};
use crate::interval::{sint_contains, sint_wf, Interval, SInterval};
use crate::rat::{rle, rlt, srat_wf, Rat, SRat};
use crate::ray::{ray_wf, Ray, SRay};
use crate::tri::{spec_tri_hit, tri_t, Tri};
use crate::vec3::{v3_in, Vec3, V3, COORD_BOUND};
use vstd::prelude::*;
use vstd::assert_multisets_equal;
use vstd::seq_lib::lemma_multiset_commutative;

verus! {

broadcast use vstd::seq_lib::group_to_multiset_ensures;

/// Largest number of triangles a leaf may hold before the builder splits.
pub const MIN_CHILDREN: usize = 8;

/// A node of the bounding volume hierarchy: either a leaf owning a small run
/// of triangles, or an interior node owning two subtrees.
pub enum AABBType {
    Recursive(RecursiveAABB),
    Leaf(Vec<Tri>),
}

/// A bounding volume hierarchy node: its kind plus the tight box around
/// every triangle below it.
pub struct AABB {
    pub aabb_type: AABBType,
    pub bounds: Bounds,
}

/// An interior node: exactly two children.
pub struct RecursiveAABB {
    pub left: Box<AABB>,
    pub right: Box<AABB>,
}

/// Every triangle stored in the subtree, left to right.
pub open spec fn tree_tris(a: AABB) -> Seq<Tri>
    decreases a,
{
    match a.aabb_type {
        AABBType::Leaf(ts) => ts@,
        AABBType::Recursive(r) => tree_tris(*r.left) + tree_tris(*r.right),
    }
}

/// The tight componentwise union of a run of triangle boxes.
pub open spec fn tris_box_union(ts: Seq<Tri>) -> SBounds
    decreases ts.len(),
{
    if ts.len() <= 1 {
        ts[0]@.bounds
    } else {
        sbounds_union(tris_box_union(ts.drop_last()), ts.last()@.bounds)
    }
}

/// The object-median split: some ordering of the input, sorted by box
/// centroid along the longest axis of the input's tight union box, feeds its
/// first half (rounded down) to the left subtree and the rest to the right.
pub open spec fn median_split(children: Seq<Tri>, left: Seq<Tri>, right: Seq<Tri>) -> bool {
    exists|s: Seq<Tri>|
        {
            &&& #[trigger] s.to_multiset() == children.to_multiset()
            &&& s.len() == children.len()
            &&& sorted_by_key(s, spec_longest_axis(tris_box_union(children)))
            &&& left.to_multiset() == s.subrange(0, children.len() as int / 2).to_multiset()
            &&& right.to_multiset() == s.subrange(
                children.len() as int / 2,
                s.len() as int,
            ).to_multiset()
        }
}

/// Structural well-formedness: triangles are well-formed, a leaf holds at
/// most `MIN_CHILDREN` of them, and every node's box both contains its
/// content and is its tight union (triangle boxes at leaves, the two child
/// boxes inside).
pub open spec fn aabb_wf(a: AABB) -> bool
    decreases a,
{
    &&& sbounds_wf(a.bounds@)
    &&& match a.aabb_type {
        AABBType::Leaf(ts) => {
            &&& 1 <= ts@.len() <= MIN_CHILDREN
            &&& a.bounds@ == tris_box_union(ts@)
            &&& forall|k: int|
                0 <= k < ts@.len() ==> (#[trigger] ts@[k]).wf() && sbounds_contains(
                    a.bounds@,
                    ts@[k]@.bounds,
                )
        },
        AABBType::Recursive(r) => {
            &&& aabb_wf(*r.left)
            &&& aabb_wf(*r.right)
            &&& a.bounds@ == sbounds_union(r.left.bounds@, r.right.bounds@)
            &&& sbounds_contains(a.bounds@, r.left.bounds@)
            &&& sbounds_contains(a.bounds@, r.right.bounds@)
        },
    }
}

/// In a well-formed tree, every stored triangle is well-formed and its box
/// sits inside the node's box.
pub proof fn lemma_tree_elem(a: AABB, k: int)
    requires
        aabb_wf(a),
        0 <= k < tree_tris(a).len(),
    ensures
        tree_tris(a)[k].wf(),
        sbounds_contains(a.bounds@, tree_tris(a)[k]@.bounds),
    decreases a,
{
    match a.aabb_type {
        AABBType::Leaf(ts) => {},
        AABBType::Recursive(r) => {
            let lt = tree_tris(*r.left);
            let rt = tree_tris(*r.right);
            if k < lt.len() {
                lemma_tree_elem(*r.left, k);
                lemma_contains_trans(a.bounds@, r.left.bounds@, lt[k]@.bounds);
            } else {
                lemma_tree_elem(*r.right, k - lt.len());
                lemma_contains_trans(a.bounds@, r.right.bounds@, rt[k - lt.len()]@.bounds);
            }
        },
    }
}

proof fn lemma_contains_trans(a: SBounds, b: SBounds, c: SBounds)
    requires
        sbounds_contains(a, b),
        sbounds_contains(b, c),
    ensures
        sbounds_contains(a, c),
{
}

/// The centroid coordinate (doubled) of a triangle's box on one axis: the
/// builder's sort key.
fn centroid_key(t: &Tri, axis: &Axis) -> (r: i64)
    requires
        t.wf(),
    ensures
        r as int == spec_centroid_key(*t, *axis),
{
    match axis {
        Axis::X => t.bounds.min.x + t.bounds.max.x,
        Axis::Y => t.bounds.min.y + t.bounds.max.y,
        Axis::Z => t.bounds.min.z + t.bounds.max.z,
    }
}

pub open spec fn spec_centroid_key(t: Tri, axis: Axis) -> int {
    match axis {
        Axis::X => t@.bounds.min.x + t@.bounds.max.x,
        Axis::Y => t@.bounds.min.y + t@.bounds.max.y,
        Axis::Z => t@.bounds.min.z + t@.bounds.max.z,
    }
}

/// The first triangle's centroid on the axis is no further than the second's.
pub open spec fn key_le(a: Tri, b: Tri, axis: Axis) -> bool {
    spec_centroid_key(a, axis) <= spec_centroid_key(b, axis)
}

/// Non-decreasing centroid order along the axis.
pub open spec fn sorted_by_key(s: Seq<Tri>, axis: Axis) -> bool {
    forall|i: int, j: int| 0 <= i < j < s.len() ==> #[trigger] key_le(s[i], s[j], axis)
}

/// Merge two runs that are already in centroid order: the heart of the
/// builder's sort.
fn merge_by_centroid(a: Vec<Tri>, b: Vec<Tri>, axis: &Axis) -> (r: Vec<Tri>)
    requires
        sorted_by_key(a@, *axis),
        sorted_by_key(b@, *axis),
        forall|k: int| 0 <= k < a@.len() ==> (#[trigger] a@[k]).wf(),
        forall|k: int| 0 <= k < b@.len() ==> (#[trigger] b@[k]).wf(),
    ensures
        r@.to_multiset() == a@.to_multiset().add(b@.to_multiset()),
        r@.len() == a@.len() + b@.len(),
        sorted_by_key(r@, *axis),
        forall|k: int| 0 <= k < r@.len() ==> (#[trigger] r@[k]).wf(),
{
    let mut out: Vec<Tri> = Vec::new();
    let mut i: usize = 0;
    let mut j: usize = 0;
    while i < a.len() || j < b.len()
        invariant
            i <= a@.len(),
            j <= b@.len(),
            out@.len() == i + j,
            sorted_by_key(a@, *axis),
            sorted_by_key(b@, *axis),
            forall|k: int| 0 <= k < a@.len() ==> (#[trigger] a@[k]).wf(),
            forall|k: int| 0 <= k < b@.len() ==> (#[trigger] b@[k]).wf(),
            forall|k: int| 0 <= k < out@.len() ==> (#[trigger] out@[k]).wf(),
            sorted_by_key(out@, *axis),
            out@.to_multiset() == a@.subrange(0, i as int).to_multiset().add(
                b@.subrange(0, j as int).to_multiset(),
            ),
            i < a@.len() ==> forall|p: int|
                0 <= p < out@.len() ==> #[trigger] key_le(out@[p], a@[i as int], *axis),
            j < b@.len() ==> forall|p: int|
                0 <= p < out@.len() ==> #[trigger] key_le(out@[p], b@[j as int], *axis),
        decreases a@.len() + b@.len() - i - j,
    {
        let take_a = if i >= a.len() {
            false
        } else if j >= b.len() {
            true
        } else {
            centroid_key(&a[i], axis) <= centroid_key(&b[j], axis)
        };
        let ghost out0 = out@;
        if take_a {
            let t = a[i];
            out.push(t);
            proof {
                lemma_subrange_push(a@, i as int);
                assert(out@ == out0.push(t));
                assert_multisets_equal!(
                    out@.to_multiset(),
                    a@.subrange(0, i as int + 1).to_multiset().add(
                        b@.subrange(0, j as int).to_multiset(),
                    )
                );
                assert forall|p: int, q: int| 0 <= p < q < out@.len() implies #[trigger] key_le(
                    out@[p],
                    out@[q],
                    *axis,
                ) by {
                    if q < out0.len() {
                        assert(key_le(out0[p], out0[q], *axis));
                    } else {
                        assert(key_le(out0[p], a@[i as int], *axis));
                    }
                }
                if i + 1 < a@.len() {
                    assert forall|p: int| 0 <= p < out@.len() implies #[trigger] key_le(
                        out@[p],
                        a@[i as int + 1],
                        *axis,
                    ) by {
                        assert(key_le(a@[i as int], a@[i as int + 1], *axis));
                        if p < out0.len() {
                            assert(key_le(out0[p], a@[i as int], *axis));
                        }
                    }
                }
                if j < b@.len() {
                    assert forall|p: int| 0 <= p < out@.len() implies #[trigger] key_le(
                        out@[p],
                        b@[j as int],
                        *axis,
                    ) by {
                        if p < out0.len() {
                            assert(key_le(out0[p], b@[j as int], *axis));
                        }
                    }
                }
            }
            i += 1;
        } else {
            let t = b[j];
            out.push(t);
            proof {
                lemma_subrange_push(b@, j as int);
                assert(out@ == out0.push(t));
                assert_multisets_equal!(
                    out@.to_multiset(),
                    a@.subrange(0, i as int).to_multiset().add(
                        b@.subrange(0, j as int + 1).to_multiset(),
                    )
                );
                assert forall|p: int, q: int| 0 <= p < q < out@.len() implies #[trigger] key_le(
                    out@[p],
                    out@[q],
                    *axis,
                ) by {
                    if q < out0.len() {
                        assert(key_le(out0[p], out0[q], *axis));
                    } else {
                        assert(key_le(out0[p], b@[j as int], *axis));
                    }
                }
                if j + 1 < b@.len() {
                    assert forall|p: int| 0 <= p < out@.len() implies #[trigger] key_le(
                        out@[p],
                        b@[j as int + 1],
                        *axis,
                    ) by {
                        assert(key_le(b@[j as int], b@[j as int + 1], *axis));
                        if p < out0.len() {
                            assert(key_le(out0[p], b@[j as int], *axis));
                        }
                    }
                }
                if i < a@.len() {
                    assert forall|p: int| 0 <= p < out@.len() implies #[trigger] key_le(
                        out@[p],
                        a@[i as int],
                        *axis,
                    ) by {
                        // The taken element compares no later than a's front.
                        if p < out0.len() {
                            assert(key_le(out0[p], a@[i as int], *axis));
                        }
                    }
                }
            }
            j += 1;
        }
    }
    proof {
        assert(a@.subrange(0, a@.len() as int) =~= a@);
        assert(b@.subrange(0, b@.len() as int) =~= b@);
    }
    out
}

/// One step of a prefix: the next element extends it by a push.
proof fn lemma_subrange_push(s: Seq<Tri>, i: int)
    requires
        0 <= i < s.len(),
    ensures
        s.subrange(0, i + 1) =~= s.subrange(0, i).push(s[i]),
{
}

/// Merge sort by centroid coordinate along an axis: the result holds the
/// same triangles (as a multiset), all still well-formed, in non-decreasing
/// centroid order, at the promised sort cost.
fn sort_by_centroid(v: Vec<Tri>, axis: &Axis) -> (r: Vec<Tri>)
    requires
        forall|k: int| 0 <= k < v@.len() ==> (#[trigger] v@[k]).wf(),
    ensures
        r@.to_multiset() == v@.to_multiset(),
        r@.len() == v@.len(),
        sorted_by_key(r@, *axis),
        forall|k: int| 0 <= k < r@.len() ==> (#[trigger] r@[k]).wf(),
    decreases v@.len(),
{
    if v.len() <= 1 {
        return v;
    }
    let ghost orig = v@;
    let mid = v.len() / 2;
    let mut left = v;
    let right = left.split_off(mid);
    proof {
        assert(orig =~= left@ + right@);
        lemma_multiset_commutative(left@, right@);
        assert forall|k: int| 0 <= k < left@.len() implies (#[trigger] left@[k]).wf() by {
            assert(left@[k] == orig[k]);
        }
        assert forall|k: int| 0 <= k < right@.len() implies (#[trigger] right@[k]).wf() by {
            assert(right@[k] == orig[k + left@.len()]);
        }
    }
    let ls = sort_by_centroid(left, axis);
    let rs = sort_by_centroid(right, axis);
    merge_by_centroid(ls, rs, axis)
}

impl AABB {
    /// Build a hierarchy over the given triangles by object-median split:
    /// few enough triangles make a leaf; otherwise sort by box centroid along
    /// the longest axis of the union box, split at the middle, and recurse.
    /// The tree stores exactly the given triangles.
    pub fn new(children: Vec<Tri>) -> (r: AABB)
        requires
            children@.len() >= 1,
            forall|k: int| 0 <= k < children@.len() ==> (#[trigger] children@[k]).wf(),
        ensures
            aabb_wf(r),
            tree_tris(r).to_multiset() == children@.to_multiset(),
            match r.aabb_type {
                AABBType::Leaf(ts) => children@.len() <= MIN_CHILDREN && ts@ == children@,
                AABBType::Recursive(c) => children@.len() > MIN_CHILDREN && median_split(
                    children@,
                    tree_tris(*c.left),
                    tree_tris(*c.right),
                ),
            },
        decreases children@.len(),
    {
        let ghost orig = children@;
        let bounds = Self::calc_bounds(&children);

        let num_children = children.len();
        if num_children <= MIN_CHILDREN {
            let r = AABB { aabb_type: AABBType::Leaf(children), bounds };
            proof {
                assert(tree_tris(r) == orig);
            }
            return r;
        }

        let longest_axis = bounds.longest_axis();
        let mut sorted_tris = sort_by_centroid(children, &longest_axis);

        let mid = num_children / 2;
        let ghost sorted = sorted_tris@;
        let right_tris = sorted_tris.split_off(mid);
        let left_tris = sorted_tris;
        proof {
            assert(sorted =~= left_tris@ + right_tris@);
            lemma_multiset_commutative(left_tris@, right_tris@);
            assert forall|k: int| 0 <= k < left_tris@.len() implies (#[trigger] left_tris@[k]).wf()
                by {
                assert(left_tris@[k] == sorted[k]);
            }
            assert forall|k: int| 0 <= k < right_tris@.len() implies (
            #[trigger] right_tris@[k]).wf() by {
                assert(right_tris@[k] == sorted[k + left_tris@.len()]);
            }
        }

        let left_aabb = AABB::new(left_tris);
        let right_aabb = AABB::new(right_tris);
        proof {
            lemma_multiset_commutative(tree_tris(left_aabb), tree_tris(right_aabb));
            // The sorted ordering witnesses the object-median split.
            assert(sorted.to_multiset() == orig.to_multiset() && sorted.len() == orig.len()
                && sorted_by_key(sorted, spec_longest_axis(tris_box_union(orig))) && tree_tris(
                left_aabb,
            ).to_multiset() == sorted.subrange(0, orig.len() as int / 2).to_multiset()
                && tree_tris(right_aabb).to_multiset() == sorted.subrange(
                orig.len() as int / 2,
                sorted.len() as int,
            ).to_multiset());
            assert(median_split(orig, tree_tris(left_aabb), tree_tris(right_aabb)));
        }
        let mut node_bounds = Bounds { min: left_aabb.bounds.min, max: left_aabb.bounds.max };
        node_bounds.expand_to_contain(&right_aabb.bounds);
        AABB {
            aabb_type: AABBType::Recursive(
                RecursiveAABB::new(Box::new(left_aabb), Box::new(right_aabb)),
            ),
            bounds: node_bounds,
        }
    }

    /// The tight componentwise union of the triangles' boxes: each component
    /// of the result is attained by some triangle's box.
    fn calc_bounds(tris: &Vec<Tri>) -> (r: Bounds)
        requires
            tris@.len() >= 1,
            forall|k: int| 0 <= k < tris@.len() ==> (#[trigger] tris@[k]).wf(),
        ensures
            sbounds_wf(r@),
            r@ == tris_box_union(tris@),
            forall|k: int|
                0 <= k < tris@.len() ==> sbounds_contains(r@, (#[trigger] tris@[k])@.bounds),
    {
        let first = tris[0].get_bounds();
        let mut bounds = Bounds { min: first.min, max: first.max };
        proof {
            assert(tris@.subrange(0, 1) =~= seq![tris@[0]]);
            assert(bounds@ == tris_box_union(tris@.subrange(0, 1)));
        }
        let mut i: usize = 1;
        while i < tris.len()
            invariant
                1 <= i <= tris@.len(),
                forall|k: int| 0 <= k < tris@.len() ==> (#[trigger] tris@[k]).wf(),
                sbounds_wf(bounds@),
                bounds@ == tris_box_union(tris@.subrange(0, i as int)),
                forall|k: int|
                    0 <= k < i ==> sbounds_contains(bounds@, (#[trigger] tris@[k])@.bounds),
            decreases tris@.len() - i,
        {
            proof {
                lemma_union_extend(tris@, i as int);
            }
            bounds.expand_to_contain(tris[i].get_bounds());
            i += 1;
        }
        proof {
            assert(tris@.subrange(0, tris@.len() as int) =~= tris@);
        }
        bounds
    }
}

/// Extending a prefix by one triangle extends its tight union by that box.
proof fn lemma_union_extend(ts: Seq<Tri>, i: int)
    requires
        1 <= i < ts.len(),
    ensures
        tris_box_union(ts.subrange(0, i + 1)) == sbounds_union(
            tris_box_union(ts.subrange(0, i)),
            ts[i]@.bounds,
        ),
{
    let s = ts.subrange(0, i + 1);
    assert(s.drop_last() =~= ts.subrange(0, i));
    assert(s.last() == ts[i]);
}

/// A box shifted by `dv`.
pub open spec fn sbounds_shifted(b: SBounds, dv: V3) -> SBounds {
    SBounds {
        min: crate::vec3::v3_add(b.min, dv),
        max: crate::vec3::v3_add(b.max, dv),
    }
}

/// Shifting every triangle of a run shifts the run's tight union by the same
/// vector.
proof fn lemma_union_shifted(a: Seq<Tri>, b: Seq<Tri>, dv: V3)
    requires
        a.len() == b.len(),
        a.len() >= 1,
        forall|k: int| 0 <= k < a.len() ==> (#[trigger] a[k]).wf(),
        forall|k: int| 0 <= k < b.len() ==> (#[trigger] b[k]).wf(),
        forall|k: int| 0 <= k < a.len() ==> #[trigger] tri_shifted(a[k], b[k], dv),
    ensures
        tris_box_union(b) == sbounds_shifted(tris_box_union(a), dv),
    decreases a.len(),
{
    assert(tri_shifted(a[0], b[0], dv));
    if a.len() == 1 {
        lemma_tri_box_shifted(a[0], b[0], dv);
    } else {
        let n = a.len() - 1;
        assert(a.drop_last() =~= a.subrange(0, n as int));
        assert(b.drop_last() =~= b.subrange(0, n as int));
        assert forall|k: int| 0 <= k < a.drop_last().len() implies (#[trigger] a.drop_last()[k]).wf()
            by {
            assert(a.drop_last()[k] == a[k]);
        }
        assert forall|k: int| 0 <= k < b.drop_last().len() implies (#[trigger] b.drop_last()[k]).wf()
            by {
            assert(b.drop_last()[k] == b[k]);
        }
        assert forall|k: int| 0 <= k < a.drop_last().len() implies #[trigger] tri_shifted(
            a.drop_last()[k],
            b.drop_last()[k],
            dv,
        ) by {
            assert(a.drop_last()[k] == a[k] && b.drop_last()[k] == b[k]);
            assert(tri_shifted(a[k], b[k], dv));
        }
        lemma_union_shifted(a.drop_last(), b.drop_last(), dv);
        assert(tri_shifted(a.last(), b.last(), dv));
        lemma_tri_box_shifted(a.last(), b.last(), dv);
    }
}

/// A shifted triangle's (padded) box is the original box shifted.
proof fn lemma_tri_box_shifted(a: Tri, b: Tri, dv: V3)
    requires
        a.wf(),
        b.wf(),
        tri_shifted(a, b, dv),
    ensures
        b@.bounds == sbounds_shifted(a@.bounds, dv),
{
}

impl RecursiveAABB {
    pub fn new(left: Box<AABB>, right: Box<AABB>) -> (r: RecursiveAABB)
        ensures
            r.left == left,
            r.right == right,
    {
        RecursiveAABB { left, right }
    }
}

impl AABB {
    /// Nearest-hit query: prune by this node's box, then search below. The
    /// result is exactly what a linear scan over every triangle stored in
    /// the subtree would return: `None` exactly when no triangle reports a
    /// hit within the interval, else a hit of minimal parameter among them.
    pub fn hit(&self, ray: &Ray, interval: &Interval) -> (r: Option<HitResult>)
        requires
            aabb_wf(*self),
            ray.wf(),
            interval.wf(),
        ensures
            match r {
                None => misses_all(tree_tris(*self), ray@, interval@),
                Some(h) => h.wf() && sint_contains(interval@, h@.t) && nearest_hit(
                    tree_tris(*self),
                    ray@,
                    interval@,
                    h@,
                ),
            },
        decreases *self,
    {
        if self.bounds.hit(ray, interval).is_none() {
            proof {
                lemma_prune(*self, ray@, interval@);
            }
            return None;
        }
        match &self.aabb_type {
            AABBType::Recursive(c) => c.hit(ray, interval),
            AABBType::Leaf(children) => {
                let ghost ts = children@;
                let ghost iv = interval@;
                let mut best: Option<HitResult> = None;
                let mut t_max = interval.max;
                let mut idx: usize = 0;
                while idx < children.len()
                    invariant
                        aabb_wf(*self),
                        self.aabb_type == AABBType::Leaf(*children),
                        ray.wf(),
                        interval.wf(),
                        ts == children@,
                        iv == interval@,
                        idx <= ts.len(),
                        t_max.wf(),
                        match best {
                            None => t_max == interval.max && forall|k: int|
                                0 <= k < idx ==> #[trigger] tri_misses(ts[k], ray@, iv),
                            Some(b) => {
                                &&& b.wf()
                                &&& t_max == b.t
                                &&& sint_contains(iv, b@.t)
                                &&& exists|k: int|
                                    0 <= k < idx && #[trigger] tri_gives(ts[k], ray@, iv, b@)
                                &&& forall|k: int|
                                    0 <= k < idx ==> #[trigger] tri_at_least(ts[k], ray@, iv, b@.t)
                            },
                        },
                    decreases ts.len() - idx,
                {
                    let cur = Interval::new(interval.min, t_max);
                    let child_hit = children[idx].hit(ray, &cur);
                    match child_hit {
                        Some(h) => {
                            proof {
                                match best {
                                    None => {
                                        assert(cur@ == iv);
                                        assert(tri_gives(ts[idx as int], ray@, iv, h@));
                                    },
                                    Some(b) => {
                                        crate::rat::lemma_rlt_rle_trans(h@.t, cur@.max, iv.max);
                                        lemma_gives_widen(ts[idx as int], ray@, cur@, iv, h@);
                                    },
                                }
                            }
                            let replace = match &best {
                                None => true,
                                Some(b) => h.t.lt(&b.t),
                            };
                            if replace {
                                proof {
                                    let hv = h@;
                                    assert(tri_gives(ts[idx as int], ray@, iv, hv));
                                    assert forall|k: int| 0 <= k < idx + 1 implies
                                        #[trigger] tri_at_least(ts[k], ray@, iv, hv.t) by {
                                        if k < idx as int {
                                            match best {
                                                None => {
                                                    assert(tri_misses(ts[k], ray@, iv));
                                                },
                                                Some(b) => {
                                                    assert(tri_at_least(ts[k], ray@, iv, b@.t));
                                                    if !(spec_tri_hit(ts[k]@, ray@, iv) is None) {
                                                        let h2 = spec_tri_hit(
                                                            ts[k]@,
                                                            ray@,
                                                            iv,
                                                        ).unwrap();
                                                        crate::rat::lemma_rlt_rle_trans(
                                                            hv.t,
                                                            b@.t,
                                                            h2.t,
                                                        );
                                                    }
                                                },
                                            }
                                        } else {
                                            assert(ts[k] == ts[idx as int]);
                                        }
                                    }
                                }
                                t_max = h.t;
                                best = Some(h);
                            } else {
                                proof {
                                    // A hit from the tightened interval is
                                    // always nearer than the running best.
                                    match best {
                                        None => {},
                                        Some(b) => {
                                            assert(rlt(h@.t, b@.t));
                                            assert(false);
                                        },
                                    }
                                }
                            }
                        },
                        None => {
                            proof {
                                match best {
                                    None => {
                                        assert forall|k: int| 0 <= k < idx + 1 implies
                                            #[trigger] tri_misses(ts[k], ray@, iv) by {
                                            if k == idx as int {
                                                assert(cur@ == iv);
                                            }
                                        }
                                    },
                                    Some(b) => {
                                        assert forall|k: int| 0 <= k < idx + 1 implies
                                            #[trigger] tri_at_least(ts[k], ray@, iv, b@.t) by {
                                            if k == idx as int {
                                                if !(spec_tri_hit(ts[k]@, ray@, iv) is None) {
                                                    let tt = crate::tri::tri_t(ts[k]@, ray@);
                                                    assert(!sint_contains(cur@, tt));
                                                    crate::rat::lemma_rle_total(b@.t, tt);
                                                }
                                            }
                                        }
                                    },
                                }
                            }
                        },
                    }
                    idx += 1;
                }
                proof {
                    assert(tree_tris(*self) == ts);
                    match best {
                        None => {
                            assert(misses_all(ts, ray@, iv));
                        },
                        Some(b) => {
                            assert(nearest_hit(ts, ray@, iv, b@));
                        },
                    }
                }
                best
            },
        }
    }
}

impl RecursiveAABB {
    /// Search both children, nearer box first; skip the farther child when
    /// the near hit provably precedes everything the far box could hold,
    /// else search it with the interval tightened to the near hit.
    pub fn hit(&self, ray: &Ray, interval: &Interval) -> (r: Option<HitResult>)
        requires
            aabb_wf(*self.left),
            aabb_wf(*self.right),
            ray.wf(),
            interval.wf(),
        ensures
            match r {
                None => misses_all(tree_tris(*self.left) + tree_tris(*self.right), ray@, interval@),
                Some(h) => h.wf() && sint_contains(interval@, h@.t) && nearest_hit(
                    tree_tris(*self.left) + tree_tris(*self.right),
                    ray@,
                    interval@,
                    h@,
                ),
            },
        decreases *self,
    {
        let ghost lt = tree_tris(*self.left);
        let ghost rt = tree_tris(*self.right);
        let ghost iv = interval@;
        let left_bounds = self.left.bounds.hit(ray, interval);
        let right_bounds = self.right.bounds.hit(ray, interval);

        match (left_bounds, right_bounds) {
            (Some(lb), Some(rb)) => {
                let near_first = lb.min.lt(&rb.min);
                let first: &AABB = if near_first {
                    &self.left
                } else {
                    &self.right
                };
                let second: &AABB = if near_first {
                    &self.right
                } else {
                    &self.left
                };
                let far_iv = if near_first {
                    rb
                } else {
                    lb
                };
                proof {
                    assert(crate::bounds::slab_exact(far_iv@, iv, second.bounds@, ray@));
                }
                let first_hit = first.hit(ray, interval);
                match first_hit {
                    Some(hit) => {
                        if hit.t.lt(&far_iv.min) {
                            // Early exit: everything in the far subtree lies
                            // beyond the near hit.
                            proof {
                                lemma_far_at_least(*second, ray@, iv, far_iv@, hit@.t);
                                lemma_join(*self, *first, *second, ray@, iv, hit@, near_first);
                            }
                            return Some(hit);
                        }
                        let tightened = Interval::new(interval.min, hit.t);
                        let second_hit = second.hit(ray, &tightened);
                        match second_hit {
                            Some(hit2) => {
                                if hit2.t.lt(&hit.t) {
                                    proof {
                                        lemma_second_wins(
                                            *first,
                                            *second,
                                            ray@,
                                            iv,
                                            tightened@,
                                            hit@,
                                            hit2@,
                                        );
                                        lemma_join(*self, *second, *first, ray@, iv, hit2@, !near_first);
                                    }
                                    Some(hit2)
                                } else {
                                    proof {
                                        // The tightened interval admits only
                                        // parameters nearer than the near
                                        // hit, so this arm cannot be taken.
                                        assert(sint_contains(tightened@, hit2@.t));
                                        assert(rlt(hit2@.t, hit@.t));
                                        assert(false);
                                    }
                                    Some(hit)
                                }
                            },
                            None => {
                                proof {
                                    lemma_second_missed(
                                        *first,
                                        *second,
                                        ray@,
                                        iv,
                                        tightened@,
                                        hit@,
                                    );
                                    lemma_join(*self, *first, *second, ray@, iv, hit@, near_first);
                                }
                                Some(hit)
                            },
                        }
                    },
                    None => {
                        let second_hit = second.hit(ray, interval);
                        proof {
                            match second_hit {
                                None => {
                                    lemma_misses_concat(lt, rt, ray@, iv);
                                },
                                Some(h2) => {
                                    lemma_misses_to_at_least(
                                        tree_tris(*first),
                                        ray@,
                                        iv,
                                        h2@.t,
                                    );
                                    lemma_join(*self, *second, *first, ray@, iv, h2@, !near_first);
                                },
                            }
                        }
                        second_hit
                    },
                }
            },
            (Some(_), None) => {
                let left_hit = self.left.hit(ray, interval);
                proof {
                    lemma_prune(*self.right, ray@, iv);
                    match left_hit {
                        None => {
                            lemma_misses_concat(lt, rt, ray@, iv);
                        },
                        Some(h) => {
                            lemma_misses_to_at_least(rt, ray@, iv, h@.t);
                            lemma_nearest_concat_left(lt, rt, ray@, iv, h@);
                        },
                    }
                }
                left_hit
            },
            (None, Some(_)) => {
                let right_hit = self.right.hit(ray, interval);
                proof {
                    lemma_prune(*self.left, ray@, iv);
                    match right_hit {
                        None => {
                            lemma_misses_concat(lt, rt, ray@, iv);
                        },
                        Some(h) => {
                            lemma_misses_to_at_least(lt, ray@, iv, h@.t);
                            lemma_nearest_concat_right(lt, rt, ray@, iv, h@);
                        },
                    }
                }
                right_hit
            },
            (None, None) => {
                proof {
                    lemma_prune(*self.left, ray@, iv);
                    lemma_prune(*self.right, ray@, iv);
                    lemma_misses_concat(lt, rt, ray@, iv);
                }
                None
            },
        }
    }
}

/// Every triangle of a node whose slab interval starts beyond `tmin` reports
/// nothing nearer than `tmin`.
proof fn lemma_far_at_least(a: AABB, r: SRay, i: SInterval, far_iv: SInterval, tmin: SRat)
    requires
        aabb_wf(a),
        ray_wf(r),
        sint_wf(i),
        crate::bounds::slab_exact(far_iv, i, a.bounds@, r),
        srat_wf(tmin),
        rlt(tmin, far_iv.min),
        far_iv.min.d > 0,
    ensures
        forall|k: int|
            0 <= k < tree_tris(a).len() ==> #[trigger] tri_at_least(tree_tris(a)[k], r, i, tmin),
{
    let ts = tree_tris(a);
    assert forall|k: int| 0 <= k < ts.len() implies #[trigger] tri_at_least(ts[k], r, i, tmin) by {
        lemma_tree_elem(a, k);
        if !(spec_tri_hit(ts[k]@, r, i) is None) {
            let tv = ts[k]@;
            let tt = tri_t(tv, r);
            assert(crate::tri::tri_accepts(tv, r, i));
            crate::tri::lemma_tri_point_in_bounds(tv, r, i);
            crate::bounds::lemma_adm_monotone(tv.bounds, a.bounds@, r, tt);
            crate::bounds::lemma_slab_exact_at(far_iv, i, a.bounds@, r, tt);
            crate::rat::lemma_rlt_trans(tmin, far_iv.min, tt);
        }
    }
}

/// After searching the far child with the interval tightened to the near
/// hit, a miss there means every far triangle is at least as far as the
/// near hit.
proof fn lemma_second_missed(
    first: AABB,
    second: AABB,
    r: SRay,
    i: SInterval,
    i2: SInterval,
    h: SHit,
)
    requires
        aabb_wf(second),
        ray_wf(r),
        sint_wf(i),
        sint_wf(i2),
        i2.min == i.min,
        i2.max == h.t,
        sint_contains(i, h.t),
        misses_all(tree_tris(second), r, i2),
    ensures
        forall|k: int|
            0 <= k < tree_tris(second).len() ==> #[trigger] tri_at_least(
                tree_tris(second)[k],
                r,
                i,
                h.t,
            ),
{
    let ts = tree_tris(second);
    assert forall|k: int| 0 <= k < ts.len() implies #[trigger] tri_at_least(ts[k], r, i, h.t) by {
        lemma_misses_all_at(ts, r, i2, k);
        if !(spec_tri_hit(ts[k]@, r, i) is None) {
            let tv = ts[k]@;
            let tt = tri_t(tv, r);
            assert(crate::tri::tri_accepts(tv, r, i));
            assert(!crate::tri::tri_accepts(tv, r, i2));
            assert(!sint_contains(i2, tt));
            crate::rat::lemma_rle_total(h.t, tt);
        }
    }
}

/// When the far child (searched under the tightened interval) returns a
/// strictly nearer hit, that hit is nearest over both subtrees.
proof fn lemma_second_wins(
    first: AABB,
    second: AABB,
    r: SRay,
    i: SInterval,
    i2: SInterval,
    h: SHit,
    h2: SHit,
)
    requires
        aabb_wf(first),
        aabb_wf(second),
        ray_wf(r),
        sint_wf(i),
        sint_wf(i2),
        i2.min == i.min,
        i2.max == h.t,
        sint_contains(i, h.t),
        srat_wf(h.t),
        nearest_hit(tree_tris(first), r, i, h),
        nearest_hit(tree_tris(second), r, i2, h2),
        rlt(h2.t, h.t),
    ensures
        nearest_hit(tree_tris(second), r, i, h2),
        forall|k: int|
            0 <= k < tree_tris(first).len() ==> #[trigger] tri_at_least(
                tree_tris(first)[k],
                r,
                i,
                h2.t,
            ),
{
    let st = tree_tris(second);
    let ft = tree_tris(first);
    lemma_nearest_in_interval(st, r, i2, h2);
    let k0 = lemma_nearest_witness(st, r, i2, h2);
    lemma_gives_widen(st[k0], r, i2, i, h2);
    assert forall|k: int| 0 <= k < st.len() implies #[trigger] tri_at_least(st[k], r, i, h2.t) by {
        lemma_nearest_at(st, r, i2, h2, k);
        if !(spec_tri_hit(st[k]@, r, i) is None) {
            let tv = st[k]@;
            let tt = tri_t(tv, r);
            assert(crate::tri::tri_accepts(tv, r, i));
            crate::rat::lemma_rle_total(tt, i2.max);
            if rlt(tt, i2.max) {
                assert(crate::tri::tri_accepts(tv, r, i2));
            } else {
                crate::rat::lemma_rlt_rle_trans(h2.t, h.t, tt);
            }
        }
    }
    assert forall|k: int| 0 <= k < ft.len() implies #[trigger] tri_at_least(ft[k], r, i, h2.t) by {
        lemma_nearest_at(ft, r, i, h, k);
        if !(spec_tri_hit(ft[k]@, r, i) is None) {
            let tv = ft[k]@;
            let hk = spec_tri_hit(tv, r, i).unwrap();
            crate::rat::lemma_rlt_rle_trans(h2.t, h.t, hk.t);
        }
    }
}

/// Assemble a nearest hit over an interior node from the winning child's
/// answer and `tri_at_least` facts for the other child; `first_is_left` says
/// which physical child the winner is.
proof fn lemma_join(
    node: RecursiveAABB,
    winner: AABB,
    other: AABB,
    r: SRay,
    i: SInterval,
    h: SHit,
    winner_is_left: bool,
)
    requires
        winner_is_left ==> (winner == *node.left && other == *node.right),
        !winner_is_left ==> (winner == *node.right && other == *node.left),
        nearest_hit(tree_tris(winner), r, i, h),
        forall|k: int|
            0 <= k < tree_tris(other).len() ==> #[trigger] tri_at_least(tree_tris(other)[k], r, i, h.t),
    ensures
        nearest_hit(tree_tris(*node.left) + tree_tris(*node.right), r, i, h),
{
    if winner_is_left {
        lemma_nearest_concat_left(tree_tris(winner), tree_tris(other), r, i, h);
    } else {
        lemma_nearest_concat_right(tree_tris(other), tree_tris(winner), r, i, h);
    }
}

/// The triangle reports no hit within the interval.
pub open spec fn tri_misses(t: Tri, r: SRay, i: SInterval) -> bool {
    spec_tri_hit(t@, r, i) is None
}

/// The triangle reports exactly this hit within the interval.
pub open spec fn tri_gives(t: Tri, r: SRay, i: SInterval, h: SHit) -> bool {
    spec_tri_hit(t@, r, i) == Some(h)
}

/// Whatever the triangle reports within the interval is no nearer than
/// `tmin`.
pub open spec fn tri_at_least(t: Tri, r: SRay, i: SInterval, tmin: SRat) -> bool {
    match spec_tri_hit(t@, r, i) {
        None => true,
        Some(h2) => rle(tmin, h2.t),
    }
}

/// No triangle of the sequence reports a hit within the interval.
pub open spec fn misses_all(ts: Seq<Tri>, r: SRay, i: SInterval) -> bool {
    forall|k: int| 0 <= k < ts.len() ==> #[trigger] tri_misses(ts[k], r, i)
}

/// `h` is a hit of some triangle of the sequence within the interval, and no
/// triangle reports a nearer one: the linear-scan answer.
pub open spec fn nearest_hit(ts: Seq<Tri>, r: SRay, i: SInterval, h: SHit) -> bool {
    &&& exists|k: int| 0 <= k < ts.len() && #[trigger] tri_gives(ts[k], r, i, h)
    &&& forall|k: int| 0 <= k < ts.len() ==> #[trigger] tri_at_least(ts[k], r, i, h.t)
}

pub proof fn lemma_misses_all_at(ts: Seq<Tri>, r: SRay, i: SInterval, k: int)
    requires
        misses_all(ts, r, i),
        0 <= k < ts.len(),
    ensures
        tri_misses(ts[k], r, i),
{
    assert(tri_misses(ts[k], r, i));
}

pub proof fn lemma_nearest_at(ts: Seq<Tri>, r: SRay, i: SInterval, h: SHit, k: int)
    requires
        nearest_hit(ts, r, i, h),
        0 <= k < ts.len(),
    ensures
        tri_at_least(ts[k], r, i, h.t),
{
    assert(tri_at_least(ts[k], r, i, h.t));
}

/// Produce the index of a triangle that reports the nearest hit.
pub proof fn lemma_nearest_witness(ts: Seq<Tri>, r: SRay, i: SInterval, h: SHit) -> (k: int)
    requires
        nearest_hit(ts, r, i, h),
    ensures
        0 <= k < ts.len(),
        tri_gives(ts[k], r, i, h),
{
    choose|k: int| 0 <= k < ts.len() && #[trigger] tri_gives(ts[k], r, i, h)
}

/// A nearest hit sits inside the search interval.
pub proof fn lemma_nearest_in_interval(ts: Seq<Tri>, r: SRay, i: SInterval, h: SHit)
    requires
        nearest_hit(ts, r, i, h),
    ensures
        sint_contains(i, h.t),
        h.t.d > 0,
{
    let k = lemma_nearest_witness(ts, r, i, h);
}

/// A hit found in a tightened interval (same lower end, smaller upper end)
/// is the same hit in the wider interval.
pub proof fn lemma_gives_widen(t: Tri, r: SRay, i2: SInterval, i: SInterval, h: SHit)
    requires
        sint_wf(i2),
        sint_wf(i),
        tri_gives(t, r, i2, h),
        i2.min == i.min,
        rle(i2.max, i.max),
    ensures
        tri_gives(t, r, i, h),
{
    let tt = tri_t(t@, r);
    crate::rat::lemma_rlt_rle_trans(tt, i2.max, i.max);
}

/// A well-formed node whose box turns the slab test empty hides no hit: the
/// pruning step of the traversal is sound.
pub proof fn lemma_prune(a: AABB, r: SRay, i: SInterval)
    requires
        aabb_wf(a),
        ray_wf(r),
        sint_wf(i),
        crate::bounds::slab_empty(i, a.bounds@, r),
    ensures
        misses_all(tree_tris(a), r, i),
{
    let ts = tree_tris(a);
    assert forall|k: int| 0 <= k < ts.len() implies #[trigger] tri_misses(ts[k], r, i) by {
        lemma_tree_elem(a, k);
        if !tri_misses(ts[k], r, i) {
            let tv = ts[k]@;
            assert(crate::tri::tri_accepts(tv, r, i));
            crate::tri::lemma_tri_point_in_bounds(tv, r, i);
            crate::bounds::lemma_adm_monotone(tv.bounds, a.bounds@, r, tri_t(tv, r));
            crate::bounds::lemma_slab_empty_at(i, a.bounds@, r, tri_t(tv, r));
        }
    }
}

/// Combine per-subtree answers over the concatenation of their triangles.
pub proof fn lemma_misses_concat(t1: Seq<Tri>, t2: Seq<Tri>, r: SRay, i: SInterval)
    requires
        misses_all(t1, r, i),
        misses_all(t2, r, i),
    ensures
        misses_all(t1 + t2, r, i),
{
    let ts = t1 + t2;
    assert forall|k: int| 0 <= k < ts.len() implies #[trigger] tri_misses(ts[k], r, i) by {
        if k < t1.len() {
            assert(ts[k] == t1[k]);
            lemma_misses_all_at(t1, r, i, k);
        } else {
            assert(ts[k] == t2[k - t1.len()]);
            lemma_misses_all_at(t2, r, i, k - t1.len());
        }
    }
}

/// The nearest hit of the left part stays nearest over the concatenation
/// when every right-part triangle reports nothing nearer.
pub proof fn lemma_nearest_concat_left(t1: Seq<Tri>, t2: Seq<Tri>, r: SRay, i: SInterval, h: SHit)
    requires
        nearest_hit(t1, r, i, h),
        forall|k: int| 0 <= k < t2.len() ==> #[trigger] tri_at_least(t2[k], r, i, h.t),
    ensures
        nearest_hit(t1 + t2, r, i, h),
{
    let ts = t1 + t2;
    let k0 = lemma_nearest_witness(t1, r, i, h);
    assert(ts[k0] == t1[k0]);
    assert(tri_gives(ts[k0], r, i, h));
    assert forall|k: int| 0 <= k < ts.len() implies #[trigger] tri_at_least(ts[k], r, i, h.t) by {
        if k < t1.len() {
            assert(ts[k] == t1[k]);
            lemma_nearest_at(t1, r, i, h, k);
        } else {
            assert(ts[k] == t2[k - t1.len()]);
            assert(tri_at_least(t2[k - t1.len()], r, i, h.t));
        }
    }
}

/// Symmetric combination: the nearest hit comes from the right part.
pub proof fn lemma_nearest_concat_right(t1: Seq<Tri>, t2: Seq<Tri>, r: SRay, i: SInterval, h: SHit)
    requires
        nearest_hit(t2, r, i, h),
        forall|k: int| 0 <= k < t1.len() ==> #[trigger] tri_at_least(t1[k], r, i, h.t),
    ensures
        nearest_hit(t1 + t2, r, i, h),
{
    let ts = t1 + t2;
    let k0 = lemma_nearest_witness(t2, r, i, h);
    assert(ts[t1.len() + k0] == t2[k0]);
    assert(tri_gives(ts[t1.len() + k0], r, i, h));
    assert forall|k: int| 0 <= k < ts.len() implies #[trigger] tri_at_least(ts[k], r, i, h.t) by {
        if k < t1.len() {
            assert(ts[k] == t1[k]);
            assert(tri_at_least(t1[k], r, i, h.t));
        } else {
            assert(ts[k] == t2[k - t1.len()]);
            lemma_nearest_at(t2, r, i, h, k - t1.len());
        }
    }
}

/// The new triangle is the old one shifted by `dv`: positions move, shading
/// data and material stay.
pub open spec fn tri_shifted(a: Tri, b: Tri, dv: V3) -> bool {
    &&& b@.v0 == crate::vec3::v3_add(a@.v0, dv)
    &&& b@.v1 == crate::vec3::v3_add(a@.v1, dv)
    &&& b@.v2 == crate::vec3::v3_add(a@.v2, dv)
    &&& b@.normals == a@.normals
    &&& b@.uvs == a@.uvs
    &&& b@.face_normal == a@.face_normal
    &&& b@.material_index == a@.material_index
}

/// Shifting by `dv` keeps the triangle on the coordinate grid.
pub open spec fn tri_can_shift(t: Tri, dv: V3) -> bool {
    &&& v3_in(crate::vec3::v3_add(t@.v0, dv), COORD_BOUND as int)
    &&& v3_in(crate::vec3::v3_add(t@.v1, dv), COORD_BOUND as int)
    &&& v3_in(crate::vec3::v3_add(t@.v2, dv), COORD_BOUND as int)
}

impl AABB {
    /// Shift every triangle and every cached box in the subtree by `vec`.
    pub fn translate(&mut self, vec: &Vec3)
        requires
            aabb_wf(*old(self)),
            forall|k: int|
                0 <= k < tree_tris(*old(self)).len() ==> #[trigger] tri_can_shift(
                    tree_tris(*old(self))[k],
                    vec@,
                ),
        ensures
            aabb_wf(*final(self)),
            final(self).bounds@ == sbounds_shifted(old(self).bounds@, vec@),
            tree_tris(*final(self)).len() == tree_tris(*old(self)).len(),
            forall|k: int|
                0 <= k < tree_tris(*old(self)).len() ==> #[trigger] tri_shifted(
                    tree_tris(*old(self))[k],
                    tree_tris(*final(self))[k],
                    vec@,
                ),
        decreases *old(self),
    {
        let ghost ots = tree_tris(*self);
        match &mut self.aabb_type {
            AABBType::Recursive(c) => {
                let ghost lt = tree_tris(*c.left);
                let ghost rt = tree_tris(*c.right);
                proof {
                    assert forall|k: int| 0 <= k < lt.len() implies #[trigger] tri_can_shift(
                        lt[k],
                        vec@,
                    ) by {
                        assert(ots[k] == lt[k]);
                        assert(tri_can_shift(ots[k], vec@));
                    }
                    assert forall|k: int| 0 <= k < rt.len() implies #[trigger] tri_can_shift(
                        rt[k],
                        vec@,
                    ) by {
                        assert(ots[k + lt.len()] == rt[k]);
                        assert(tri_can_shift(ots[k + lt.len()], vec@));
                    }
                }
                c.left.translate(vec);
                c.right.translate(vec);
                let mut nb = Bounds { min: c.left.bounds.min, max: c.left.bounds.max };
                nb.expand_to_contain(&c.right.bounds);
                self.bounds = nb;
                proof {
                    let nts = tree_tris(*self);
                    let nlt = tree_tris(*c.left);
                    assert forall|k: int| 0 <= k < ots.len() implies #[trigger] tri_shifted(
                        ots[k],
                        nts[k],
                        vec@,
                    ) by {
                        if k < lt.len() {
                            assert(ots[k] == lt[k] && nts[k] == nlt[k]);
                            assert(tri_shifted(lt[k], nlt[k], vec@));
                        } else {
                            assert(ots[k] == rt[k - lt.len()]);
                            assert(nts[k] == tree_tris(*c.right)[k - nlt.len()]);
                            assert(tri_shifted(rt[k - lt.len()], tree_tris(*c.right)[k - lt.len()], vec@));
                        }
                    }
                }
            },
            AABBType::Leaf(children) => {
                let n = children.len();
                let mut out: Vec<Tri> = Vec::new();
                let mut i: usize = 0;
                while i < n
                    invariant
                        n == children@.len(),
                        i <= n,
                        out@.len() == i,
                        forall|k: int|
                            0 <= k < children@.len() ==> (#[trigger] children@[k]).wf()
                                && tri_can_shift(children@[k], vec@),
                        forall|k: int| 0 <= k < i ==> (#[trigger] out@[k]).wf(),
                        forall|k: int|
                            0 <= k < i ==> #[trigger] tri_shifted(children@[k], out@[k], vec@),
                    decreases n - i,
                {
                    let mut t = children[i];
                    t.translate(vec);
                    out.push(t);
                    i += 1;
                }
                let nb = Self::calc_bounds(&out);
                proof {
                    lemma_union_shifted(children@, out@, vec@);
                }
                *children = out;
                self.bounds = nb;
            },
        }
    }
}

/// A nearest hit found under a tightened interval (same lower end, upper end
/// no larger) is still the nearest hit of the wider interval.
pub proof fn lemma_nearest_widen(ts: Seq<Tri>, r: SRay, i2: SInterval, i: SInterval, h: SHit)
    requires
        sint_wf(i2),
        sint_wf(i),
        nearest_hit(ts, r, i2, h),
        i2.min == i.min,
        rle(i2.max, i.max),
    ensures
        nearest_hit(ts, r, i, h),
        sint_contains(i, h.t),
{
    lemma_nearest_in_interval(ts, r, i2, h);
    let k0 = lemma_nearest_witness(ts, r, i2, h);
    lemma_gives_widen(ts[k0], r, i2, i, h);
    crate::rat::lemma_rlt_rle_trans(h.t, i2.max, i.max);
    assert forall|k: int| 0 <= k < ts.len() implies #[trigger] tri_at_least(ts[k], r, i, h.t) by {
        lemma_nearest_at(ts, r, i2, h, k);
        if !(spec_tri_hit(ts[k]@, r, i) is None) {
            let tv = ts[k]@;
            let tt = tri_t(tv, r);
            assert(crate::tri::tri_accepts(tv, r, i));
            crate::rat::lemma_rle_total(tt, i2.max);
            if rlt(tt, i2.max) {
                assert(crate::tri::tri_accepts(tv, r, i2));
            } else {
                crate::rat::lemma_rlt_rle_trans(h.t, i2.max, tt);
            }
        }
    }
}

/// Any two nearest hits over the same triangles agree on the distance: the
/// hierarchy's answer has the same parameter as a plain linear scan's,
/// whatever order either visits the triangles in.
pub proof fn lemma_nearest_unique(ts: Seq<Tri>, r: SRay, i: SInterval, h1: SHit, h2: SHit)
    requires
        nearest_hit(ts, r, i, h1),
        nearest_hit(ts, r, i, h2),
    ensures
        crate::rat::req(h1.t, h2.t),
{
    let k1 = lemma_nearest_witness(ts, r, i, h1);
    let k2 = lemma_nearest_witness(ts, r, i, h2);
    lemma_nearest_at(ts, r, i, h1, k2);
    lemma_nearest_at(ts, r, i, h2, k1);
}

/// Misses give `tri_at_least` for free.
pub proof fn lemma_misses_to_at_least(ts: Seq<Tri>, r: SRay, i: SInterval, tmin: SRat)
    requires
        misses_all(ts, r, i),
    ensures
        forall|k: int| 0 <= k < ts.len() ==> #[trigger] tri_at_least(ts[k], r, i, tmin),
{
    assert forall|k: int| 0 <= k < ts.len() implies #[trigger] tri_at_least(ts[k], r, i, tmin) by {
        lemma_misses_all_at(ts, r, i, k);
    }
}

} // verus!
