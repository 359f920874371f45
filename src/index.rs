//! The nearest-neighbour index over the texel space, kept in a k-d tree.
//!
//! Among texels at the same smallest distance from a query, the one that comes
//! first in the texel sequence is chosen, whatever the tree's shape.
use crate::texel::{MAX_COORD, Point, Texel, dist, point_bounded};
use kd_tree::KdMap;
use vstd::prelude::*;

verus! {

/// A k-d tree of `kd_tree`, over points each tagged with the position of its
/// texel. The tree is kept opaque: its type is spelled with `typenum`'s
/// type-level integers, which `kd_tree` does not re-export.
#[verifier::external_body]
pub struct TexelIndex {
    tree: KdMap<[i128; 3], usize>,
}

/// The tagged points that a tree holds.
pub uninterp spec fn index_items(t: TexelIndex) -> Set<(Point, usize)>;

/// Every coordinate of every point held lies in range.
pub open spec fn index_bounded(items: Set<(Point, usize)>) -> bool {
    forall|e: (Point, usize)| items.contains(e) ==> point_bounded(e.0)
}

/// Relies on `kd_tree::KdTree::build`: the tree holds the items it is built from.
#[verifier::external_body]
fn build_tree(items: Vec<(Point, usize)>) -> (t: TexelIndex)
    ensures
        index_items(t) == items@.to_set(),
{
    TexelIndex {
        tree: KdMap::build(items.into_iter().map(|(p, i)| ([p.x, p.y, p.z], i)).collect()),
    }
}

/// Relies on `kd_tree::KdTree::par_build`, the multi-threaded form of `build`:
/// the tree holds the items it is built from.
#[verifier::external_body]
fn par_build_tree(items: Vec<(Point, usize)>) -> (t: TexelIndex)
    ensures
        index_items(t) == items@.to_set(),
{
    TexelIndex {
        tree: KdMap::par_build(items.into_iter().map(|(p, i)| ([p.x, p.y, p.z], i)).collect()),
    }
}

impl TexelIndex {
    /// Relies on `kd_tree::KdSliceN::nearest`: `None` for an empty tree, else an
    /// item held at the smallest squared distance from `q`, with that distance.
    #[verifier::external_body]
    fn nearest(&self, q: Point) -> (r: Option<(Point, usize, i128)>)
        requires
            index_bounded(index_items(*self)),
            point_bounded(q),
        ensures
            r is None <==> index_items(*self).is_empty(),
            r matches Some((p, i, d)) ==> {
                &&& index_items(*self).contains((p, i))
                &&& d == dist(p, q)
                &&& forall|e: (Point, usize)| #[trigger]
                    index_items(*self).contains(e) ==> dist(e.0, q) >= d
            },
    {
        self.tree.nearest(&[q.x, q.y, q.z]).map(
            |found|
                (
                    Point { x: found.item.0[0], y: found.item.0[1], z: found.item.0[2] },
                    found.item.1,
                    found.squared_distance,
                ),
        )
    }

    /// Relies on `kd_tree::KdSliceN::within_radius`: the items held whose squared
    /// distance from `q` is below `radius * radius`.
    #[verifier::external_body]
    fn within_radius(&self, q: Point, radius: i128) -> (r: Vec<(Point, usize)>)
        requires
            index_bounded(index_items(*self)),
            point_bounded(q),
            0 <= radius <= 4 * MAX_COORD,
        ensures
            forall|k: int|
                0 <= k < r@.len() ==> index_items(*self).contains(#[trigger] r@[k]) && dist(
                    r@[k].0,
                    q,
                ) < radius * radius,
            forall|e: (Point, usize)| #[trigger]
                index_items(*self).contains(e) && dist(e.0, q) < radius * radius ==> r@.contains(e),
    {
        self.tree.within_radius(&[q.x, q.y, q.z], radius).into_iter().map(
            |item| (Point { x: item.0[0], y: item.0[1], z: item.0[2] }, item.1),
        ).collect()
    }
}

/// The tagged points of a texel sequence: each texel's point with its position.
pub open spec fn indexed(ts: Seq<Texel>) -> Set<(Point, usize)> {
    Set::new(|e: (Point, usize)| (e.1 as int) < ts.len() && ts[e.1 as int].point == e.0)
}

/// Texel `i` is at the smallest distance from `q`, and comes first among the
/// texels at that distance.
pub open spec fn is_best(ts: Seq<Texel>, q: Point, i: int) -> bool {
    &&& 0 <= i < ts.len()
    &&& forall|j: int| 0 <= j < ts.len() ==> dist(#[trigger] ts[j].point, q) >= dist(ts[i].point, q)
    &&& forall|j: int|
        0 <= j < ts.len() && dist(#[trigger] ts[j].point, q) == dist(ts[i].point, q) ==> i <= j
}

/// The position of the texel nearest to `q`, the first one on ties.
pub open spec fn best_of(ts: Seq<Texel>, q: Point) -> int {
    choose|i: int| is_best(ts, q, i)
}

/// A non-empty texel sequence has a best texel for every query.
pub proof fn lemma_best_exists(ts: Seq<Texel>, q: Point)
    requires
        ts.len() > 0,
    ensures
        is_best(ts, q, best_of(ts, q)),
    decreases ts.len(),
{
    if ts.len() == 1 {
        assert(is_best(ts, q, 0));
    } else {
        let front = ts.drop_last();
        lemma_best_exists(front, q);
        let i = best_of(front, q);
        let last = ts.len() - 1;
        if dist(ts[last].point, q) < dist(ts[i].point, q) {
            assert forall|j: int| 0 <= j < ts.len() implies dist(#[trigger] ts[j].point, q) >= dist(ts[last].point, q) by {
                if j < last {
                    assert(front[j] == ts[j]);
                }
            }
            assert forall|j: int| 0 <= j < ts.len() && dist(#[trigger] ts[j].point, q) == dist(ts[last].point, q) implies last <= j by {
                if j < last {
                    assert(front[j] == ts[j]);
                }
            }
            assert(is_best(ts, q, last));
        } else {
            assert forall|j: int| 0 <= j < ts.len() implies dist(#[trigger] ts[j].point, q) >= dist(ts[i].point, q) by {
                if j < last {
                    assert(front[j] == ts[j]);
                }
            }
            assert forall|j: int| 0 <= j < ts.len() && dist(#[trigger] ts[j].point, q) == dist(ts[i].point, q) implies i <= j by {
                if j < last {
                    assert(front[j] == ts[j]);
                }
            }
            assert(is_best(ts, q, i));
        }
    }
}

/// At most one texel is the best for a query.
pub proof fn lemma_best_unique(ts: Seq<Texel>, q: Point, i: int, j: int)
    requires
        is_best(ts, q, i),
        is_best(ts, q, j),
    ensures
        i == j,
{
    assert(dist(ts[j].point, q) >= dist(ts[i].point, q));
    assert(dist(ts[i].point, q) >= dist(ts[j].point, q));
}

/// A best texel is the one that `best_of` names.
pub proof fn lemma_best_of(ts: Seq<Texel>, q: Point, i: int)
    requires
        is_best(ts, q, i),
    ensures
        best_of(ts, q) == i,
{
    lemma_best_unique(ts, q, best_of(ts, q), i);
}

/// Squared distance between two bounded points.
fn distance(p: Point, q: Point) -> (d: i128)
    requires
        point_bounded(p),
        point_bounded(q),
    ensures
        d == dist(p, q),
        0 <= d <= 3 * MAX_COORD * MAX_COORD,
{
    let dx = p.x - q.x;
    let dy = p.y - q.y;
    let dz = p.z - q.z;
    proof {
        assert(0 <= dx * dx <= MAX_COORD * MAX_COORD) by (nonlinear_arith)
            requires -MAX_COORD <= dx <= MAX_COORD;
        assert(0 <= dy * dy <= MAX_COORD * MAX_COORD) by (nonlinear_arith)
            requires -MAX_COORD <= dy <= MAX_COORD;
        assert(0 <= dz * dz <= MAX_COORD * MAX_COORD) by (nonlinear_arith)
            requires -MAX_COORD <= dz <= MAX_COORD;
    }
    dx * dx + dy * dy + dz * dz
}

/// Builds the index of a texel sequence, on one thread or on several.
pub fn build_index(ts: &Vec<Texel>, parallel: bool) -> (t: TexelIndex)
    requires
        forall|k: int| 0 <= k < ts@.len() ==> point_bounded(#[trigger] ts@[k].point),
    ensures
        index_items(t) == indexed(ts@),
        index_bounded(index_items(t)),
{
    let mut items: Vec<(Point, usize)> = Vec::new();
    let mut k: usize = 0;
    while k < ts.len()
        invariant
            0 <= k <= ts@.len(),
            items@ == Seq::new(k as nat, |j: int| (ts@[j].point, j as usize)),
        decreases ts.len() - k,
    {
        items.push((ts[k].point, k));
        k = k + 1;
    }
    let ghost s = items@;
    let t = if parallel {
        par_build_tree(items)
    } else {
        build_tree(items)
    };
    assert(s.to_set() =~= indexed(ts@)) by {
        assert forall|e: (Point, usize)| s.to_set().contains(e) <==> indexed(ts@).contains(e) by {
            if indexed(ts@).contains(e) {
                assert(s[e.1 as int] == e);
            }
        }
    }
    t
}

/// Finds the texel nearest to `q`, the first one on ties.
pub fn nearest_texel(index: &TexelIndex, ts: &Vec<Texel>, q: Point) -> (i: usize)
    requires
        index_items(*index) == indexed(ts@),
        index_bounded(index_items(*index)),
        ts@.len() > 0,
        point_bounded(q),
    ensures
        is_best(ts@, q, i as int),
{
    let len = ts.len();
    assert(indexed(ts@).contains((ts@[0].point, 0usize)));
    let found = index.nearest(q);
    let (p, first, d) = match found {
        Some(f) => f,
        None => {
            proof {
                assert(index_items(*index).contains((ts@[0].point, 0usize)));
            }
            return 0;
        },
    };
    assert(indexed(ts@).contains((p, first)));
    proof {
        assert(0 <= d <= 3 * MAX_COORD * MAX_COORD) by (nonlinear_arith)
            requires d == dist(p, q), point_bounded(p), point_bounded(q);
    }
    let mut radius: i128 = 1;
    while radius * radius <= d
        invariant
            0 <= d <= 3 * MAX_COORD * MAX_COORD,
            1 <= radius <= 4 * MAX_COORD,
            radius * radius <= 16 * MAX_COORD * MAX_COORD,
        decreases 4 * MAX_COORD - radius,
    {
        proof {
            assert(radius * radius <= d);
            assert(radius < 2 * MAX_COORD) by (nonlinear_arith)
                requires radius * radius <= d, d <= 3 * MAX_COORD * MAX_COORD, radius >= 1, MAX_COORD > 0;
            assert((2 * radius) * (2 * radius) <= 16 * MAX_COORD * MAX_COORD) by (nonlinear_arith)
                requires 1 <= radius < 2 * MAX_COORD;
        }
        radius = radius * 2;
    }
    let near = index.within_radius(q, radius);
    let mut best: usize = first;
    let mut k: usize = 0;
    while k < near.len()
        invariant
            index_items(*index) == indexed(ts@),
            index_bounded(index_items(*index)),
            point_bounded(q),
            0 <= k <= near@.len(),
            (best as int) < ts@.len(),
            dist(ts@[best as int].point, q) == d,
            best <= first,
            forall|m: int|
                0 <= m < k && #[trigger] dist(near@[m].0, q) == d ==> best <= near@[m].1,
            forall|m: int|
                0 <= m < near@.len() ==> index_items(*index).contains(#[trigger] near@[m]) && dist(
                    near@[m].0,
                    q,
                ) < radius * radius,
        decreases near.len() - k,
    {
        let (p2, j) = near[k];
        assert(index_items(*index).contains(near@[k as int]));
        if distance(p2, q) == d && j < best {
            best = j;
        }
        k = k + 1;
    }
    proof {
        assert forall|j: int| 0 <= j < ts@.len() implies dist(#[trigger] ts@[j].point, q) >= d by {
            assert(indexed(ts@).contains((ts@[j].point, j as usize)));
        }
        assert forall|j: int|
            0 <= j < ts@.len() && dist(#[trigger] ts@[j].point, q) == d implies best <= j by {
            let e = (ts@[j].point, j as usize);
            assert(indexed(ts@).contains(e));
            assert(radius * radius > d);
            assert(near@.contains(e));
            let m = choose|m: int| 0 <= m < near@.len() && near@[m] == e;
            assert(dist(near@[m].0, q) == d);
        }
    }
    best
}

} // verus!
