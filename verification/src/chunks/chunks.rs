//! The grid of all render chunks of a region.

use vstd::prelude::*;
use crate::spatial::{idxmap, spec_idxmap, spec_mapidx, REGION_TILES_COUNT, lemma_idxmap_mapidx, lemma_mapidx_idxmap};
use super::constants::{
    CHUNK_WIDTH, CHUNK_HEIGHT, CHUNK_DEPTH, CHUNKS_TOTAL, chunk_id_by_world,
    spec_chunk_id_by_world, spec_chunk_idx,
};
use super::chunk::{Chunk, ChunkType, cube_cells, cube_cell, cell_offset};
use crate::components::Point3;
use crate::distance::{sq_dist, distance_squared};

verus! {

broadcast use {crate::spatial::lemma_region_dims, super::constants::lemma_chunk_grid_dims};

/// Base tile of the `k`-th chunk of the grid (x fastest, then y, then z).
pub open spec fn grid_base(k: int) -> (usize, usize, usize) {
    (((k % 16) * 16) as usize, (((k / 16) % 16) * 16) as usize, ((k / 256) * 16) as usize)
}

/// The chunk that holds tile `t`.
pub open spec fn tile_chunk(t: int) -> int {
    spec_chunk_id_by_world(spec_idxmap(t).0, spec_idxmap(t).1, spec_idxmap(t).2)
}

/// `c` is the `k`-th chunk of a grid that was never built: it covers its
/// cube, is empty, must be rebuilt and has no mesh elements.
pub open spec fn fresh_grid_chunk(c: Chunk, k: int) -> bool {
    &&& c.wf()
    &&& c.idx == k
    &&& c.base == grid_base(k)
    &&& c.t == ChunkType::Empty
    &&& c.dirty
    &&& c.element_count@ == Seq::new(16, |i: int| 0u32)
    &&& c.floor_element_count@ == Seq::new(16, |i: int| 0u32)
    &&& c.design_element_count@ == Seq::new(16, |i: int| 0u32)
}

/// `b` is `a` with its dirty mark set to `dirty`.
pub open spec fn same_but_dirty(a: Chunk, b: Chunk, dirty: bool) -> bool {
    &&& b.t == a.t
    &&& b.idx == a.idx
    &&& b.base == a.base
    &&& b.cells@ == a.cells@
    &&& b.dirty == dirty
    &&& b.element_count@ == a.element_count@
    &&& b.floor_element_count@ == a.floor_element_count@
    &&& b.design_element_count@ == a.design_element_count@
}

/// All render chunks of a region, in grid order.
pub struct Chunks {
    pub chunks: Vec<Chunk>,
}

impl Chunks {
    /// One chunk per grid cell, each at its place in the grid.
    pub open spec fn wf(&self) -> bool {
        &&& self.chunks@.len() == CHUNKS_TOTAL
        &&& forall|k: int| 0 <= k < CHUNKS_TOTAL ==> {
            &&& (#[trigger] self.chunks@[k]).wf()
            &&& self.chunks@[k].base == grid_base(k)
        }
    }

    /// The full grid of fresh chunks, in grid order.
    pub fn empty() -> (r: Self)
        ensures
            r.wf(),
            forall|k: int| 0 <= k < CHUNKS_TOTAL ==> fresh_grid_chunk(#[trigger] r.chunks@[k], k),
    {
        let mut chunks: Vec<Chunk> = Vec::new();
        let mut z: usize = 0;
        while z < CHUNK_DEPTH
            invariant
                z <= 16,
                chunks@.len() == z * 256,
                forall|k: int| 0 <= k < chunks@.len() ==> fresh_grid_chunk(#[trigger] chunks@[k], k),
            decreases 16 - z,
        {
            let mut y: usize = 0;
            while y < CHUNK_HEIGHT
                invariant
                    z < 16,
                    y <= 16,
                    chunks@.len() == z * 256 + y * 16,
                    forall|k: int| 0 <= k < chunks@.len() ==> fresh_grid_chunk(#[trigger] chunks@[k], k),
                decreases 16 - y,
            {
                let mut x: usize = 0;
                while x < CHUNK_WIDTH
                    invariant
                        z < 16,
                        y < 16,
                        x <= 16,
                        chunks@.len() == z * 256 + y * 16 + x,
                        forall|k: int| 0 <= k < chunks@.len() ==> fresh_grid_chunk(#[trigger] chunks@[k], k),
                    decreases 16 - x,
                {
                    let c = Chunk::new(x, y, z);
                    proof {
                        let k = z * 256 + y * 16 + x;
                        assert(k % 16 == x && (k / 16) % 16 == y && k / 256 == z) by (nonlinear_arith)
                            requires
                                k == z * 256 + y * 16 + x,
                                x < 16,
                                y < 16,
                                z < 16,
                        ;
                        assert(fresh_grid_chunk(c, k as int));
                    }
                    chunks.push(c);
                    x = x + 1;
                }
                y = y + 1;
            }
            z = z + 1;
        }
        assert(CHUNKS_TOTAL == 4096);
        assert(chunks@.len() == 4096);
        let r = Chunks { chunks };
        assert(r.wf());
        r
    }

    /// Marks dirty the chunk that holds each of `tiles`; nothing else changes.
    pub fn mark_dirty(&mut self, tiles: &Vec<usize>)
        requires
            old(self).wf(),
            forall|i: int| 0 <= i < tiles@.len() ==> tiles@[i] < REGION_TILES_COUNT,
        ensures
            final(self).wf(),
            forall|j: int| 0 <= j < CHUNKS_TOTAL ==> same_but_dirty(
                old(self).chunks@[j],
                #[trigger] final(self).chunks@[j],
                old(self).chunks@[j].dirty || exists|i: int| 0 <= i < tiles@.len() && tile_chunk(tiles@[i] as int) == j,
            ),
    {
        let mut i: usize = 0;
        while i < tiles.len()
            invariant
                i <= tiles@.len(),
                self.wf(),
                forall|t: int| 0 <= t < tiles@.len() ==> tiles@[t] < REGION_TILES_COUNT,
                forall|j: int| 0 <= j < CHUNKS_TOTAL ==> same_but_dirty(
                    old(self).chunks@[j],
                    #[trigger] self.chunks@[j],
                    old(self).chunks@[j].dirty || exists|t: int| 0 <= t < i && tile_chunk(tiles@[t] as int) == j,
                ),
            decreases tiles@.len() - i,
        {
            let (x, y, z) = idxmap(tiles[i]);
            proof {
                lemma_mapidx_idxmap(tiles@[i as int] as int);
                let t = tiles@[i as int] as int;
                assert(t / 65536 < 256) by (nonlinear_arith)
                    requires 0 <= t < 16777216;
                assert(spec_chunk_id_by_world(x as int, y as int, z as int) < 4096) by (nonlinear_arith)
                    requires x < 256, y < 256, z < 256;
            }
            let chunk_id = chunk_id_by_world(x, y, z);
            self.chunks[chunk_id].dirty = true;
            proof {
                assert forall|j: int| 0 <= j < CHUNKS_TOTAL implies same_but_dirty(
                    old(self).chunks@[j],
                    #[trigger] self.chunks@[j],
                    old(self).chunks@[j].dirty || exists|t: int| 0 <= t < i + 1 && tile_chunk(tiles@[t] as int) == j,
                ) by {
                    if j == chunk_id {
                        assert(tile_chunk(tiles@[i as int] as int) == j);
                    }
                }
            }
            i = i + 1;
        }
    }
}

/// Every tile that a chunk of the grid covers is one that `tile_chunk` maps
/// to that chunk: marking a tile dirty marks the chunk that draws it.
pub proof fn lemma_cells_belong_to_their_chunk(k: int, m: int)
    requires
        0 <= k < CHUNKS_TOTAL,
        0 <= m < 4096,
    ensures
        tile_chunk(cube_cells(grid_base(k))[m] as int) == k,
        0 <= cube_cells(grid_base(k))[m] < REGION_TILES_COUNT,
{
    let base = grid_base(k);
    let o = cell_offset(m);
    let (cx, cy, cz) = (k % 16, (k / 16) % 16, k / 256);
    assert(0 <= cx < 16 && 0 <= cy < 16 && 0 <= cz < 16) by (nonlinear_arith)
        requires
            0 <= k < 4096,
            cx == k % 16,
            cy == (k / 16) % 16,
            cz == k / 256,
    ;
    let (tx, ty, tz) = (base.0 + o.0, base.1 + o.1, base.2 + o.2);
    assert(tx == cx * 16 + o.0 && ty == cy * 16 + o.1 && tz == cz * 16 + o.2);
    assert(0 <= tx < 256 && 0 <= ty < 256 && 0 <= tz < 256);
    lemma_idxmap_mapidx(tx, ty, tz);
    assert(cube_cell(base, m) == spec_mapidx(tx, ty, tz));
    assert(spec_mapidx(tx, ty, tz) < REGION_TILES_COUNT) by (nonlinear_arith)
        requires
            0 <= tx < 256,
            0 <= ty < 256,
            0 <= tz < 256,
    ;
    assert(tx / 16 == cx && ty / 16 == cy && tz / 16 == cz);
    assert(spec_chunk_idx(cx, cy, cz) == k) by {
        assert(CHUNKS_TOTAL == 4096);
        vstd::arithmetic::div_mod::lemma_fundamental_div_mod(k, 16);
        vstd::arithmetic::div_mod::lemma_fundamental_div_mod(k / 16, 16);
        vstd::arithmetic::div_mod::lemma_div_denominator(k, 16, 16);
        assert(k / 256 == (k / 16) / 16);
        assert(spec_chunk_idx(cx, cy, cz) == cz * 256 + cy * 16 + cx);
    }
}

/// The centre of the chunk with base tile `b`, as a point.
pub open spec fn chunk_centre(b: (usize, usize, usize)) -> Point3 {
    Point3 { x: (b.0 + 8) as i32, y: (b.1 + 8) as i32, z: (b.2 + 8) as i32 }
}

/// `a` is drawn before `b`: it is nearer, or as near with a lower index.
pub open spec fn drawn_before(a: (i128, usize), b: (i128, usize)) -> bool {
    a.0 < b.0 || (a.0 == b.0 && a.1 < b.1)
}

/// Each entry of `s` is drawn before every later one.
pub open spec fn in_draw_order(s: Seq<(i128, usize)>) -> bool {
    forall|i: int, j: int| 0 <= i < j < s.len() ==> drawn_before(#[trigger] s[i], #[trigger] s[j])
}

/// `p` is the squared distance from `camera` to the centre of a chunk in
/// view, with that chunk's index.
pub open spec fn visible_entry(chunks: Seq<Chunk>, camera: Point3, in_view: Seq<bool>, p: (i128, usize)) -> bool {
    &&& p.1 < chunks.len()
    &&& in_view[p.1 as int]
    &&& p.0 == sq_dist(camera, chunk_centre(chunks[p.1 as int].base))
}

impl Chunks {
    /// The chunks in view (`in_view`, one flag per chunk, from the view
    /// test), each with its squared distance from `camera`, nearest first,
    /// equally near ones by index, so that the depth buffer discards more.
    pub fn order_visible(&self, camera: &Point3, in_view: &Vec<bool>) -> (order: Vec<(i128, usize)>)
        requires
            self.wf(),
            in_view@.len() == self.chunks@.len(),
        ensures
            in_draw_order(order@),
            forall|p: (i128, usize)| order@.contains(p) <==> visible_entry(self.chunks@, *camera, in_view@, p),
    {
        let mut order: Vec<(i128, usize)> = Vec::new();
        let mut i: usize = 0;
        while i < self.chunks.len()
            invariant
                self.wf(),
                in_view@.len() == self.chunks@.len(),
                i <= self.chunks@.len(),
                in_draw_order(order@),
                forall|k: int| 0 <= k < order@.len() ==> (#[trigger] order@[k]).1 < i,
                forall|p: (i128, usize)| order@.contains(p) <==> (p.1 < i && visible_entry(self.chunks@, *camera, in_view@, p)),
            decreases self.chunks@.len() - i,
        {
            if in_view[i] {
                let b = self.chunks[i].base;
                assert(self.chunks@[i as int].base == grid_base(i as int));
                let centre = Point3 { x: (b.0 + 8) as i32, y: (b.1 + 8) as i32, z: (b.2 + 8) as i32 };
                let d = distance_squared(camera, &centre);
                let mut pos: usize = 0;
                while pos < order.len() && order[pos].0 <= d
                    invariant
                        pos <= order@.len(),
                        forall|k: int| 0 <= k < pos ==> (#[trigger] order@[k]).0 <= d,
                    decreases order@.len() - pos,
                {
                    pos = pos + 1;
                }
                let ghost old_order = order@;
                let e = (d, i);
                order.insert(pos, e);
                proof {
                    assert(order@ == old_order.insert(pos as int, e));
                    assert(pos < old_order.len() ==> old_order[pos as int].0 > d);
                    assert forall|a: int, c: int| 0 <= a < c < order@.len() implies drawn_before(#[trigger] order@[a], #[trigger] order@[c]) by {
                        if c < pos {
                            assert(order@[a] == old_order[a] && order@[c] == old_order[c]);
                        } else if c == pos {
                            assert(order@[a] == old_order[a]);
                        } else if a < pos {
                            assert(order@[a] == old_order[a] && order@[c] == old_order[c - 1]);
                            assert(old_order[pos as int].0 > d);
                            if c - 1 > pos {
                                assert(drawn_before(old_order[pos as int], old_order[c - 1]));
                            }
                        } else if a == pos {
                            assert(order@[c] == old_order[c - 1]);
                            if c - 1 > pos {
                                assert(drawn_before(old_order[pos as int], old_order[c - 1]));
                            }
                        } else {
                            assert(order@[a] == old_order[a - 1] && order@[c] == old_order[c - 1]);
                        }
                    }
                    assert forall|k: int| 0 <= k < order@.len() implies (#[trigger] order@[k]).1 < i + 1 by {
                        if k < pos {
                            assert(order@[k] == old_order[k]);
                        } else if k > pos {
                            assert(order@[k] == old_order[k - 1]);
                        }
                    }
                    assert forall|p: (i128, usize)| order@.contains(p) <==> (p.1 < i + 1 && visible_entry(self.chunks@, *camera, in_view@, p)) by {
                        if order@.contains(p) {
                            let k = choose|k: int| 0 <= k < order@.len() && order@[k] == p;
                            if k < pos {
                                assert(order@[k] == old_order[k]);
                                assert(old_order.contains(p));
                            } else if k > pos {
                                assert(order@[k] == old_order[k - 1]);
                                assert(old_order.contains(p));
                            }
                        }
                        if p.1 < i + 1 && visible_entry(self.chunks@, *camera, in_view@, p) {
                            if p.1 < i {
                                assert(old_order.contains(p));
                                let k = choose|k: int| 0 <= k < old_order.len() && old_order[k] == p;
                                if k < pos {
                                    assert(order@[k] == p);
                                } else {
                                    assert(order@[k + 1] == p);
                                }
                            } else {
                                assert(order@[pos as int] == e);
                            }
                        }
                    }
                }
            } else {
                proof {
                    assert forall|p: (i128, usize)| order@.contains(p) <==> (p.1 < i + 1 && visible_entry(self.chunks@, *camera, in_view@, p)) by {
                        if order@.contains(p) {
                            let k = choose|k: int| 0 <= k < order@.len() && order@[k] == p;
                            assert(order@[k].1 < i);
                        }
                    }
                }
            }
            i = i + 1;
        }
        order
    }
}

} // verus!
