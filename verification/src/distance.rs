//! Nearest-point search over integer tile coordinates. Distances are
//! compared squared, which orders points exactly as their Euclidean
//! distances do.

use vstd::prelude::*;
use crate::components::Point3;
use crate::spatial::{idxmap, spec_idxmap, REGION_TILES_COUNT, lemma_mapidx_idxmap};

verus! {

/// Squared Euclidean distance between two points.
pub open spec fn sq_dist(a: Point3, b: Point3) -> int {
    (a.x - b.x) * (a.x - b.x) + (a.y - b.y) * (a.y - b.y) + (a.z - b.z) * (a.z - b.z)
}

/// `pts[i]` is a nearest point to `origin`, and the first of the nearest.
pub open spec fn is_nearest(origin: Point3, pts: Seq<Point3>, i: int) -> bool {
    &&& 0 <= i < pts.len()
    &&& forall|j: int| 0 <= j < pts.len() ==> sq_dist(origin, pts[i]) <= sq_dist(origin, #[trigger] pts[j])
    &&& forall|j: int| 0 <= j < i ==> sq_dist(origin, pts[i]) < sq_dist(origin, #[trigger] pts[j])
}

/// The index of the first nearest point (meaningful when `pts` is not empty).
pub open spec fn nearest_index(origin: Point3, pts: Seq<Point3>) -> int {
    choose|i: int| is_nearest(origin, pts, i)
}

/// Squared distance between `a` and `b`.
pub fn distance_squared(a: &Point3, b: &Point3) -> (d: i128)
    ensures
        d == sq_dist(*a, *b),
{
    let dx = a.x as i128 - b.x as i128;
    let dy = a.y as i128 - b.y as i128;
    let dz = a.z as i128 - b.z as i128;
    assert(0 <= dx * dx <= 0x4_0000_0000_0000_0000) by (nonlinear_arith)
        requires -0x1_0000_0000 <= dx <= 0x1_0000_0000;
    assert(0 <= dy * dy <= 0x4_0000_0000_0000_0000) by (nonlinear_arith)
        requires -0x1_0000_0000 <= dy <= 0x1_0000_0000;
    assert(0 <= dz * dz <= 0x4_0000_0000_0000_0000) by (nonlinear_arith)
        requires -0x1_0000_0000 <= dz <= 0x1_0000_0000;
    dx * dx + dy * dy + dz * dz
}

/// The index of the first point nearest to `origin`; `None` when there are
/// no points.
pub fn nearest(origin: &Point3, pts: &Vec<Point3>) -> (r: Option<usize>)
    ensures
        r is None <==> pts@.len() == 0,
        r matches Some(i) ==> is_nearest(*origin, pts@, i as int),
{
    let mut best: Option<(usize, i128)> = None;
    let mut i: usize = 0;
    while i < pts.len()
        invariant
            i <= pts@.len(),
            best is None <==> i == 0,
            best matches Some((b, d)) ==> {
                &&& b < i
                &&& d == sq_dist(*origin, pts@[b as int])
                &&& forall|j: int| 0 <= j < i ==> d <= sq_dist(*origin, #[trigger] pts@[j])
                &&& forall|j: int| 0 <= j < b ==> d < sq_dist(*origin, #[trigger] pts@[j])
            },
        decreases pts@.len() - i,
    {
        let d = distance_squared(origin, &pts[i]);
        match best {
            None => {
                best = Some((i, d));
            },
            Some((b, bd)) => {
                if d < bd {
                    best = Some((i, d));
                }
            },
        }
        i = i + 1;
    }
    match best {
        None => None,
        Some((b, _)) => Some(b),
    }
}

/// Every non-empty list of points has a first nearest point to `origin`,
/// and `nearest_index` names a position inside the list.
pub proof fn lemma_nearest_exists(origin: Point3, pts: Seq<Point3>)
    requires
        pts.len() > 0,
    ensures
        exists|i: int| is_nearest(origin, pts, i),
        0 <= nearest_index(origin, pts) < pts.len(),
        is_nearest(origin, pts, nearest_index(origin, pts)),
    decreases pts.len(),
{
    if pts.len() == 1 {
        assert(is_nearest(origin, pts, 0));
    } else {
        let d = pts.drop_last();
        lemma_nearest_exists(origin, d);
        let i0 = nearest_index(origin, d);
        let last = pts.len() - 1;
        if sq_dist(origin, pts[last]) < sq_dist(origin, pts[i0]) {
            assert forall|j: int| 0 <= j < pts.len() implies sq_dist(origin, pts[last]) <= sq_dist(origin, #[trigger] pts[j]) by {
                if j < last {
                    assert(pts[j] == d[j]);
                }
            }
            assert forall|j: int| 0 <= j < last implies sq_dist(origin, pts[last]) < sq_dist(origin, #[trigger] pts[j]) by {
                assert(pts[j] == d[j]);
            }
            assert(is_nearest(origin, pts, last));
        } else {
            assert(pts[i0] == d[i0]);
            assert forall|j: int| 0 <= j < pts.len() implies sq_dist(origin, pts[i0]) <= sq_dist(origin, #[trigger] pts[j]) by {
                if j < last {
                    assert(pts[j] == d[j]);
                }
            }
            assert forall|j: int| 0 <= j < i0 implies sq_dist(origin, pts[i0]) < sq_dist(origin, #[trigger] pts[j]) by {
                assert(pts[j] == d[j]);
            }
            assert(is_nearest(origin, pts, i0));
        }
    }
}

/// There is exactly one first nearest point: any two indices that are both
/// first nearest are equal, and `nearest_index` names it.
pub proof fn lemma_nearest_unique(origin: Point3, pts: Seq<Point3>, i: int, j: int)
    requires
        is_nearest(origin, pts, i),
        is_nearest(origin, pts, j),
    ensures
        i == j,
        nearest_index(origin, pts) == i,
{
    if i < j {
        assert(sq_dist(origin, pts[j]) < sq_dist(origin, pts[i]));
    } else if j < i {
        assert(sq_dist(origin, pts[i]) < sq_dist(origin, pts[j]));
    }
    let k = nearest_index(origin, pts);
    assert(is_nearest(origin, pts, k));
    if k < i {
        assert(sq_dist(origin, pts[i]) < sq_dist(origin, pts[k]));
    } else if i < k {
        assert(sq_dist(origin, pts[k]) < sq_dist(origin, pts[i]));
    }
}

/// The point of tile `idx`.
pub open spec fn tile_point(idx: int) -> Point3 {
    Point3 {
        x: spec_idxmap(idx).0 as i32,
        y: spec_idxmap(idx).1 as i32,
        z: spec_idxmap(idx).2 as i32,
    }
}

/// The points of the tiles `tiles`.
pub open spec fn tile_points(tiles: Seq<usize>) -> Seq<Point3> {
    Seq::new(tiles.len(), |i: int| tile_point(tiles[i] as int))
}

/// The point of region tile `idx`.
pub fn tile_to_point(idx: usize) -> (p: Point3)
    requires
        idx < REGION_TILES_COUNT,
    ensures
        p == tile_point(idx as int),
{
    broadcast use crate::spatial::lemma_region_dims;
    let (x, y, z) = idxmap(idx);
    proof {
        lemma_mapidx_idxmap(idx as int);
        assert(z < 256) by (nonlinear_arith)
            requires z == idx / 65536, idx < 16777216;
    }
    Point3 { x: x as i32, y: y as i32, z: z as i32 }
}

/// The index of the first of `tiles` nearest to tile `origin`; `None` when
/// there are no tiles.
pub fn nearest_tile(origin: usize, tiles: &Vec<usize>) -> (r: Option<usize>)
    requires
        origin < REGION_TILES_COUNT,
        forall|i: int| 0 <= i < tiles@.len() ==> #[trigger] tiles@[i] < REGION_TILES_COUNT,
    ensures
        r is None <==> tiles@.len() == 0,
        r matches Some(i) ==> i == nearest_index(tile_point(origin as int), tile_points(tiles@)),
        r matches Some(i) ==> is_nearest(tile_point(origin as int), tile_points(tiles@), i as int),
{
    let o = tile_to_point(origin);
    let mut pts: Vec<Point3> = Vec::new();
    let mut i: usize = 0;
    while i < tiles.len()
        invariant
            i <= tiles@.len(),
            forall|j: int| 0 <= j < tiles@.len() ==> #[trigger] tiles@[j] < REGION_TILES_COUNT,
            pts@ == tile_points(tiles@).take(i as int),
        decreases tiles@.len() - i,
    {
        let p = tile_to_point(tiles[i]);
        pts.push(p);
        i = i + 1;
        assert(pts@ =~= tile_points(tiles@).take(i as int));
    }
    assert(pts@ =~= tile_points(tiles@));
    let r = nearest(&o, &pts);
    proof {
        if let Some(n) = r {
            let k = nearest_index(o, pts@);
            assert(is_nearest(o, pts@, k));
            lemma_nearest_unique(o, pts@, n as int, k);
        }
    }
    r
}

} // verus!
