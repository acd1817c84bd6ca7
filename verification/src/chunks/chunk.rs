//! One render chunk: the cube of tiles that it covers, whether it must be
//! rebuilt, and how many mesh elements each of its layers holds.

use vstd::prelude::*;
use crate::spatial::{mapidx, spec_mapidx, lemma_mapidx_monotone};
use crate::region::{Region, TileType, RampDirection};
use super::constants::{CHUNK_SIZE, chunk_idx, spec_chunk_idx};

verus! {

/// Whether a chunk holds anything to draw.
#[derive(Clone, Copy, Debug, PartialEq, Eq, Structural)]
pub enum ChunkType {
    Empty,
    Partial,
}

/// What the mesher draws for one tile of a chunk layer: the material that
/// the tile contributes to each of the four maps (terrain cubes, terrain
/// floors, design cubes, design floors), and a ramp if it holds one.
#[derive(Clone, Copy, Debug)]
pub struct CellPlan {
    pub idx: usize,
    pub pos: (usize, usize, usize),
    pub cube: Option<(usize, bool)>,
    pub floor: Option<(usize, bool)>,
    pub design_cube: Option<(usize, bool)>,
    pub design_floor: Option<(usize, bool)>,
    pub ramp: Option<(RampDirection, (usize, bool))>,
}

/// The plan for tile `idx` at world position `pos`. Hidden tiles show the
/// hidden material as a floor; visible solid tiles are cubes, floors are
/// floors, ramps are ramps; any other visible tile shows the hidden material
/// in design view; water replaces the floor in both views.
pub open spec fn spec_cell_plan(
    region: &Region,
    idx: int,
    pos: (usize, usize, usize),
    water: (usize, bool),
    hidden: (usize, bool),
) -> CellPlan {
    let m = region.spec_material(idx);
    let tile = region.tile_types@[idx];
    if !region.revealed@[idx] {
        CellPlan {
            idx: idx as usize,
            pos,
            cube: None,
            floor: Some(hidden),
            design_cube: None,
            design_floor: Some(hidden),
            ramp: None,
        }
    } else {
        let wet = region.water_level@[idx] > 0;
        CellPlan {
            idx: idx as usize,
            pos,
            cube: if tile is Solid { Some(m) } else { None },
            design_cube: if tile is Solid { Some(m) } else { None },
            floor: if wet { Some(water) } else if tile is Floor { Some(m) } else { None },
            design_floor: if wet {
                Some(water)
            } else {
                match tile {
                    TileType::Solid => None,
                    TileType::Floor => Some(m),
                    TileType::Ramp { .. } => None,
                    _ => Some(hidden),
                }
            },
            ramp: match tile {
                TileType::Ramp { direction } => Some((direction, m)),
                _ => None,
            },
        }
    }
}

/// A tile not yet revealed shows nothing of itself: in the terrain view and
/// in the design view it is a floor of the hidden material, with no cube and
/// no ramp, whatever its type and material.
pub proof fn lemma_unrevealed_tile_is_hidden(
    region: &Region,
    idx: int,
    pos: (usize, usize, usize),
    water: (usize, bool),
    hidden: (usize, bool),
)
    requires
        0 <= idx < region.revealed@.len(),
        !region.revealed@[idx],
    ensures
        spec_cell_plan(region, idx, pos, water, hidden).floor == Some(hidden),
        spec_cell_plan(region, idx, pos, water, hidden).design_floor == Some(hidden),
        spec_cell_plan(region, idx, pos, water, hidden).cube is None,
        spec_cell_plan(region, idx, pos, water, hidden).design_cube is None,
        spec_cell_plan(region, idx, pos, water, hidden).ramp is None,
{
}

/// In a rebuilt chunk, every tile not yet revealed is planned as a floor of
/// the hidden material in both views, with no cube and no ramp.
pub proof fn lemma_rebuilt_unrevealed_hidden(
    plans: Seq<Vec<CellPlan>>,
    base: (usize, usize, usize),
    region: &Region,
    water: (usize, bool),
    hidden: (usize, bool),
    z: int,
    k: int,
)
    requires
        layer_plans_ok(plans, base, region, water, hidden),
        0 <= z < 16,
        0 <= k < 256,
        base.0 + 16 <= usize::MAX,
        base.1 + 16 <= usize::MAX,
        base.2 + 16 <= usize::MAX,
        !region.revealed@[spec_mapidx(base.0 + k % 16, base.1 + k / 16, base.2 + z)],
    ensures
        plans[z]@[k].floor == Some(hidden),
        plans[z]@[k].design_floor == Some(hidden),
        plans[z]@[k].cube is None,
        plans[z]@[k].design_cube is None,
        plans[z]@[k].ramp is None,
{
    assert(layer_plan_ok(plans[z]@, base, z, region, water, hidden));
    assert(plans[z]@[k] == planned(base, z, k, region, water, hidden));
}

/// Offset of the `k`-th cell of a chunk from the chunk's base, x fastest.
pub open spec fn cell_offset(k: int) -> (int, int, int) {
    (k % 16, (k / 16) % 16, k / 256)
}

/// Flat index of the `k`-th cell of the chunk based at `base`.
pub open spec fn cube_cell(base: (usize, usize, usize), k: int) -> int {
    spec_mapidx(
        base.0 + cell_offset(k).0,
        base.1 + cell_offset(k).1,
        base.2 + cell_offset(k).2,
    )
}

/// The tiles of the chunk based at `base`, x fastest, then y, then z.
pub open spec fn cube_cells(base: (usize, usize, usize)) -> Seq<usize> {
    Seq::new(4096, |k: int| cube_cell(base, k) as usize)
}

/// The largest tile index in the chunk based at `base`.
pub open spec fn last_cell(base: (usize, usize, usize)) -> int {
    spec_mapidx(base.0 + 15, base.1 + 15, base.2 + 15)
}

/// Sum of `counts[z]` over the layers `z < n` whose world height `base_z + z`
/// is below `camera` (`strict`) or at most `camera` (otherwise).
pub open spec fn layers_sum(counts: Seq<u32>, base_z: int, camera: int, strict: bool, n: int) -> int
    decreases n,
{
    if n <= 0 {
        0
    } else {
        let z = n - 1;
        let shown = if strict { base_z + z < camera } else { base_z + z <= camera };
        layers_sum(counts, base_z, camera, strict, n - 1) + if shown { counts[z] as int } else { 0 }
    }
}

proof fn lemma_layers_sum_mono(counts: Seq<u32>, base_z: int, camera: int, strict: bool, n: int, m: int)
    requires
        0 <= n <= m,
    ensures
        layers_sum(counts, base_z, camera, strict, n) <= layers_sum(counts, base_z, camera, strict, m),
    decreases m - n,
{
    if n < m {
        lemma_layers_sum_mono(counts, base_z, camera, strict, n, m - 1);
    }
}

proof fn lemma_cube_cell_bounds(base: (usize, usize, usize), k: int)
    requires
        0 <= k < 4096,
    ensures
        0 <= cube_cell(base, k) <= last_cell(base),
        0 <= cell_offset(k).0 < 16,
        0 <= cell_offset(k).1 < 16,
        0 <= cell_offset(k).2 < 16,
{
    let o = cell_offset(k);
    lemma_mapidx_monotone(base.0 + o.0, base.1 + o.1, base.2 + o.2, base.0 + 15, base.1 + 15, base.2 + 15);
}


/// Every tile of `cells` is empty.
pub open spec fn all_empty(region: &Region, cells: Seq<usize>) -> bool {
    forall|j: int| 0 <= j < cells.len() ==> region.tile_types@[cells[j] as int] is Empty
}

/// The plan of the `k`-th tile (row order, x fastest) of layer `z` of the
/// chunk based at `base`.
pub open spec fn planned(
    base: (usize, usize, usize),
    z: int,
    k: int,
    region: &Region,
    water: (usize, bool),
    hidden: (usize, bool),
) -> CellPlan {
    let pos = ((base.0 + k % 16) as usize, (base.1 + k / 16) as usize, (base.2 + z) as usize);
    spec_cell_plan(region, spec_mapidx(pos.0 as int, pos.1 as int, pos.2 as int), pos, water, hidden)
}

/// `layer` holds the plans of the 256 tiles of layer `z`, in row order.
pub open spec fn layer_plan_ok(
    layer: Seq<CellPlan>,
    base: (usize, usize, usize),
    z: int,
    region: &Region,
    water: (usize, bool),
    hidden: (usize, bool),
) -> bool {
    &&& layer.len() == 256
    &&& forall|k: int| 0 <= k < 256 ==> #[trigger] layer[k] == planned(base, z, k, region, water, hidden)
}

/// `plans` holds the plans of the 16 layers of the chunk based at `base`.
pub open spec fn layer_plans_ok(
    plans: Seq<Vec<CellPlan>>,
    base: (usize, usize, usize),
    region: &Region,
    water: (usize, bool),
    hidden: (usize, bool),
) -> bool {
    &&& plans.len() == 16
    &&& forall|z: int| 0 <= z < 16 ==> #[trigger] layer_plan_ok(plans[z]@, base, z, region, water, hidden)
}


/// What `maybe_render_chunk` returns for a chunk of type `t` with per-layer
/// counts `counts` based at height `base_z`, seen from height `camera`.
pub open spec fn shown_elements(t: ChunkType, counts: Seq<u32>, base_z: int, camera: int) -> Option<u32> {
    let n = layers_sum(counts, base_z, camera, false, 16);
    if t == ChunkType::Empty {
        None
    } else if n > 0 {
        Some((n * 3) as u32)
    } else {
        None
    }
}

/// What `maybe_render_chunk_design` returns.
pub open spec fn design_range(t: ChunkType, counts: Seq<u32>, base_z: int, camera: int) -> Option<(u32, u32)> {
    let start = layers_sum(counts, base_z, camera, true, 16);
    let end = layers_sum(counts, base_z, camera, false, 16);
    if t == ChunkType::Empty {
        None
    } else if end > 0 {
        Some(((start * 3) as u32, (end * 3) as u32))
    } else {
        None
    }
}

proof fn lemma_layers_sum_strict_le(counts: Seq<u32>, base_z: int, camera: int, n: int)
    ensures
        layers_sum(counts, base_z, camera, true, n) <= layers_sum(counts, base_z, camera, false, n),
    decreases n,
{
    if n > 0 {
        lemma_layers_sum_strict_le(counts, base_z, camera, n - 1);
    }
}

/// A render chunk.
pub struct Chunk {
    pub t: ChunkType,
    pub idx: usize,
    pub base: (usize, usize, usize),
    pub cells: Vec<usize>,
    pub dirty: bool,
    pub element_count: Vec<u32>,
    pub floor_element_count: Vec<u32>,
    pub design_element_count: Vec<u32>,
}

impl Chunk {
    /// The chunk covers the cube at its base, and keeps one count per layer.
    pub open spec fn wf(&self) -> bool {
        &&& self.cells@ == cube_cells(self.base)
        &&& last_cell(self.base) <= usize::MAX
        &&& self.element_count@.len() == CHUNK_SIZE
        &&& self.floor_element_count@.len() == CHUNK_SIZE
        &&& self.design_element_count@.len() == CHUNK_SIZE
    }

    fn zero_counts() -> (v: Vec<u32>)
        ensures
            v@ == Seq::new(16, |i: int| 0u32),
    {
        let mut v: Vec<u32> = Vec::new();
        let mut i: usize = 0;
        while i < CHUNK_SIZE
            invariant
                i <= 16,
                v@ == Seq::new(i as nat, |j: int| 0u32),
            decreases 16 - i,
        {
            v.push(0);
            i = i + 1;
        }
        v
    }

    /// The chunk at chunk coordinates `(x, y, z)`: empty, in need of a
    /// rebuild, with no mesh elements.
    pub fn new(x: usize, y: usize, z: usize) -> (c: Self)
        requires
            last_cell(((x * 16) as usize, (y * 16) as usize, (z * 16) as usize)) <= usize::MAX,
            x * 16 <= usize::MAX,
            y * 16 <= usize::MAX,
            z * 16 <= usize::MAX,
        ensures
            c.wf(),
            c.t == ChunkType::Empty,
            c.idx == spec_chunk_idx(x as int, y as int, z as int),
            c.base == ((x * 16) as usize, (y * 16) as usize, (z * 16) as usize),
            c.cells@ == cube_cells(c.base),
            c.dirty,
            c.element_count@ == Seq::new(16, |i: int| 0u32),
            c.floor_element_count@ == Seq::new(16, |i: int| 0u32),
            c.design_element_count@ == Seq::new(16, |i: int| 0u32),
    {
        let bx = x * CHUNK_SIZE;
        let by = y * CHUNK_SIZE;
        let bz = z * CHUNK_SIZE;
        let ghost base = (bx, by, bz);
        let mut cells: Vec<usize> = Vec::with_capacity(CHUNK_SIZE * CHUNK_SIZE * CHUNK_SIZE);
        let mut k: usize = 0;
        while k < 4096
            invariant
                k <= 4096,
                base == (bx, by, bz),
                last_cell(base) <= usize::MAX,
                cells@.len() == k,
                forall|j: int| 0 <= j < k ==> cells@[j] == cube_cell(base, j),
            decreases 4096 - k,
        {
            proof {
                lemma_cube_cell_bounds(base, k as int);
            }
            let cx = bx + k % 16;
            let cy = by + (k / 16) % 16;
            let cz = bz + k / 256;
            cells.push(mapidx(cx, cy, cz));
            k = k + 1;
        }
        assert(cells@ =~= cube_cells(base));
        assert(spec_chunk_idx(x as int, y as int, z as int) <= usize::MAX) by (nonlinear_arith)
            requires
                last_cell(base) <= usize::MAX,
                base == ((x * 16) as usize, (y * 16) as usize, (z * 16) as usize),
                x * 16 <= usize::MAX,
                y * 16 <= usize::MAX,
                z * 16 <= usize::MAX,
        ;
        Chunk {
            t: ChunkType::Empty,
            idx: chunk_idx(x, y, z),
            base: (bx, by, bz),
            cells,
            dirty: true,
            element_count: Self::zero_counts(),
            floor_element_count: Self::zero_counts(),
            design_element_count: Self::zero_counts(),
        }
    }

    /// Material and construction mark of tile `idx`, as a cube.
    pub fn calc_material(&self, idx: usize, region: &Region) -> (m: (usize, bool))
        requires
            region.wf(),
            idx < region.tile_count(),
        ensures
            m == region.spec_material(idx as int),
    {
        (region.material_idx[idx], region.constructed[idx])
    }

    /// Material and construction mark of tile `idx`, as a floor.
    pub fn calc_floor_material(&self, idx: usize, region: &Region) -> (m: (usize, bool))
        requires
            region.wf(),
            idx < region.tile_count(),
        ensures
            m == region.spec_material(idx as int),
    {
        (region.material_idx[idx], region.constructed[idx])
    }

    fn plan_tile(
        &self,
        region: &Region,
        idx: usize,
        pos: (usize, usize, usize),
        water: (usize, bool),
        hidden: (usize, bool),
    ) -> (p: CellPlan)
        requires
            region.wf(),
            idx < region.tile_count(),
        ensures
            p == spec_cell_plan(region, idx as int, pos, water, hidden),
    {
        let mut p = CellPlan {
            idx,
            pos,
            cube: None,
            floor: None,
            design_cube: None,
            design_floor: None,
            ramp: None,
        };
        if region.revealed[idx] {
            match region.tile_types[idx] {
                TileType::Solid => {
                    p.cube = Some(self.calc_material(idx, region));
                    p.design_cube = Some(self.calc_material(idx, region));
                },
                TileType::Floor => {
                    p.floor = Some(self.calc_floor_material(idx, region));
                    p.design_floor = Some(self.calc_floor_material(idx, region));
                },
                TileType::Ramp { direction } => {
                    let mat = self.calc_floor_material(idx, region);
                    p.ramp = Some((direction, mat));
                },
                _ => {
                    p.design_floor = Some(hidden);
                },
            }
            if region.water_level[idx] > 0 {
                p.floor = Some(water);
                p.design_floor = Some(water);
            }
        } else {
            p.floor = Some(hidden);
            p.design_floor = Some(hidden);
        }
        p
    }

    /// Rebuilds a dirty chunk: it is marked clean, its mesh counts are reset,
    /// its type says whether any of its tiles is other than empty, and the
    /// result gives, for each of its 16 layers, the plan of its 256 tiles in
    /// row order (x fastest). A clean chunk is left as it is.
    pub fn rebuild(&mut self, region: &Region, water: (usize, bool), hidden: (usize, bool)) -> (plans: Option<Vec<Vec<CellPlan>>>)
        requires
            old(self).wf(),
            region.wf(),
            old(self).dirty ==> last_cell(old(self).base) < region.tile_count(),
        ensures
            !old(self).dirty ==> plans is None && *final(self) == *old(self),
            old(self).dirty ==> {
                &&& plans is Some
                &&& final(self).wf()
                &&& !final(self).dirty
                &&& final(self).base == old(self).base
                &&& final(self).idx == old(self).idx
                &&& final(self).cells@ == old(self).cells@
                &&& (final(self).t == ChunkType::Empty) == all_empty(region, old(self).cells@)
                &&& final(self).element_count@ == Seq::new(16, |i: int| 0u32)
                &&& final(self).floor_element_count@ == Seq::new(16, |i: int| 0u32)
                &&& final(self).design_element_count@ == Seq::new(16, |i: int| 0u32)
                &&& layer_plans_ok(plans.unwrap()@, old(self).base, region, water, hidden)
            },
    {
        if !self.dirty {
            return None;
        }
        self.dirty = false;
        self.element_count = Self::zero_counts();
        self.floor_element_count = Self::zero_counts();
        self.design_element_count = Self::zero_counts();

        let mut count_empty: usize = 0;
        let len = self.cells.len();
        let mut i: usize = 0;
        while i < len
            invariant
                self.wf(),
                region.wf(),
                last_cell(self.base) < region.tile_count(),
                last_cell(self.base) <= usize::MAX,
                len == self.cells@.len(),
                i <= len,
                count_empty <= i,
                (count_empty == i) == (forall|j: int| 0 <= j < i ==> region.tile_types@[self.cells@[j] as int] is Empty),
            decreases len - i,
        {
            proof {
                lemma_cube_cell_bounds(self.base, i as int);
            }
            let idx = self.cells[i];
            match region.tile_types[idx] {
                TileType::Empty => count_empty = count_empty + 1,
                _ => {},
            }
            i = i + 1;
        }
        if count_empty == len {
            self.t = ChunkType::Empty;
        } else {
            self.t = ChunkType::Partial;
        }

        let (bx, by, bz) = self.base;
        proof {
            lemma_mapidx_monotone(bx as int + 15, by as int + 15, bz as int + 15, bx as int + 15, by as int + 15, bz as int + 15);
        }
        let mut layers: Vec<Vec<CellPlan>> = Vec::new();
        let mut z: usize = 0;
        while z < CHUNK_SIZE
            invariant
                z <= 16,
                region.wf(),
                self.base == (bx, by, bz),
                bx + 15 <= usize::MAX && by + 15 <= usize::MAX && bz + 15 <= usize::MAX,
                last_cell(self.base) < region.tile_count(),
                last_cell(self.base) <= usize::MAX,
                layers@.len() == z,
                forall|lz: int| 0 <= lz < z ==> #[trigger] layer_plan_ok(layers@[lz]@, self.base, lz, region, water, hidden),
            decreases 16 - z,
        {
            let mut layer: Vec<CellPlan> = Vec::new();
            let mut y: usize = 0;
            while y < CHUNK_SIZE
                invariant
                    z < 16,
                    y <= 16,
                    region.wf(),
                    self.base == (bx, by, bz),
                    bx + 15 <= usize::MAX && by + 15 <= usize::MAX && bz + 15 <= usize::MAX,
                    last_cell(self.base) < region.tile_count(),
                    last_cell(self.base) <= usize::MAX,
                    layer@.len() == y * 16,
                    forall|k: int| 0 <= k < y * 16 ==> #[trigger] layer@[k] == planned(self.base, z as int, k, region, water, hidden),
                decreases 16 - y,
            {
                let mut x: usize = 0;
                while x < CHUNK_SIZE
                    invariant
                        z < 16,
                        y < 16,
                        x <= 16,
                        region.wf(),
                        self.base == (bx, by, bz),
                        bx + 15 <= usize::MAX && by + 15 <= usize::MAX && bz + 15 <= usize::MAX,
                        last_cell(self.base) < region.tile_count(),
                        last_cell(self.base) <= usize::MAX,
                        layer@.len() == y * 16 + x,
                        forall|k: int| 0 <= k < y * 16 + x ==> #[trigger] layer@[k] == planned(self.base, z as int, k, region, water, hidden),
                    decreases 16 - x,
                {
                    proof {
                        lemma_mapidx_monotone(x + bx, y + by, z + bz, bx as int + 15, by as int + 15, bz as int + 15);
                    }
                    let idx = mapidx(x + bx, y + by, z + bz);
                    let p = self.plan_tile(region, idx, (x + bx, y + by, z + bz), water, hidden);
                    proof {
                        let k = y * 16 + x;
                        assert(k % 16 == x && k / 16 == y) by (nonlinear_arith)
                            requires k == y * 16 + x, x < 16, y < 16;
                        assert(p == planned(self.base, z as int, k as int, region, water, hidden));
                    }
                    layer.push(p);
                    x = x + 1;
                }
                y = y + 1;
            }
            layers.push(layer);
            z = z + 1;
        }
        assert(layer_plans_ok(layers@, self.base, region, water, hidden));
        Some(layers)
    }

    /// Adds the mesh elements that the mesher produced for layer `z`: terrain
    /// cubes, terrain floors, and the design view.
    pub fn add_layer_elements(&mut self, z: usize, cubes: u32, floors: u32, design: u32)
        requires
            old(self).wf(),
            z < CHUNK_SIZE,
            old(self).element_count@[z as int] + cubes <= u32::MAX,
            old(self).floor_element_count@[z as int] + floors <= u32::MAX,
            old(self).design_element_count@[z as int] + design <= u32::MAX,
        ensures
            final(self).wf(),
            final(self).t == old(self).t,
            final(self).idx == old(self).idx,
            final(self).base == old(self).base,
            final(self).cells@ == old(self).cells@,
            final(self).dirty == old(self).dirty,
            final(self).element_count@ == old(self).element_count@.update(z as int, (old(self).element_count@[z as int] + cubes) as u32),
            final(self).floor_element_count@ == old(self).floor_element_count@.update(z as int, (old(self).floor_element_count@[z as int] + floors) as u32),
            final(self).design_element_count@ == old(self).design_element_count@.update(z as int, (old(self).design_element_count@[z as int] + design) as u32),
    {
        let c = self.element_count[z] + cubes;
        self.element_count.set(z, c);
        let f = self.floor_element_count[z] + floors;
        self.floor_element_count.set(z, f);
        let d = self.design_element_count[z] + design;
        self.design_element_count.set(z, d);
    }

    fn sum_layers(&self, counts: &Vec<u32>, camera: usize, strict: bool) -> (n: u32)
        requires
            self.wf(),
            counts@.len() == 16,
            layers_sum(counts@, self.base.2 as int, camera as int, strict, 16) <= u32::MAX,
        ensures
            n == layers_sum(counts@, self.base.2 as int, camera as int, strict, 16),
    {
        proof {
            lemma_mapidx_monotone(self.base.0 + 15, self.base.1 + 15, self.base.2 + 15, self.base.0 + 15, self.base.1 + 15, self.base.2 + 15);
        }
        let mut n: u32 = 0;
        let mut z: usize = 0;
        while z < CHUNK_SIZE
            invariant
                z <= 16,
                counts@.len() == 16,
                self.base.2 + 15 <= usize::MAX,
                layers_sum(counts@, self.base.2 as int, camera as int, strict, 16) <= u32::MAX,
                n == layers_sum(counts@, self.base.2 as int, camera as int, strict, z as int),
            decreases 16 - z,
        {
            proof {
                lemma_layers_sum_mono(counts@, self.base.2 as int, camera as int, strict, z + 1, 16);
            }
            let layer_z = z + self.base.2;
            let shown = if strict { layer_z < camera } else { layer_z <= camera };
            if shown {
                n = n + counts[z];
            }
            z = z + 1;
        }
        n
    }

    /// The terrain cubes to draw when the camera is at height `camera_z`:
    /// three vertices for each element of the layers at or below the camera,
    /// or nothing if the chunk is empty or no such element exists.
    pub fn maybe_render_chunk(&self, camera_z: i32) -> (r: Option<u32>)
        requires
            self.wf(),
            self.t != ChunkType::Empty ==> layers_sum(self.element_count@, self.base.2 as int, (camera_z as usize) as int, false, 16) * 3 <= u32::MAX,
        ensures
            r == shown_elements(self.t, self.element_count@, self.base.2 as int, (camera_z as usize) as int),
    {
        if self.t == ChunkType::Empty {
            return None;
        }
        let n = self.sum_layers(&self.element_count, camera_z as usize, false);
        if n > 0 {
            Some(n * 3)
        } else {
            None
        }
    }

    /// The terrain floors to draw when the camera is at height `camera_z`,
    /// counted as `maybe_render_chunk` counts cubes.
    pub fn maybe_render_chunk_floors(&self, camera_z: i32) -> (r: Option<u32>)
        requires
            self.wf(),
            self.t != ChunkType::Empty ==> layers_sum(self.floor_element_count@, self.base.2 as int, (camera_z as usize) as int, false, 16) * 3 <= u32::MAX,
        ensures
            r == shown_elements(self.t, self.floor_element_count@, self.base.2 as int, (camera_z as usize) as int),
    {
        if self.t == ChunkType::Empty {
            return None;
        }
        let n = self.sum_layers(&self.floor_element_count, camera_z as usize, false);
        if n > 0 {
            Some(n * 3)
        } else {
            None
        }
    }

    /// The design view to draw when the camera is at height `camera_z`: the
    /// vertex range that starts after the layers below the camera and ends
    /// after the camera's layer; nothing if the chunk is empty or the range
    /// ends at zero.
    pub fn maybe_render_chunk_design(&self, camera_z: i32) -> (r: Option<(u32, u32)>)
        requires
            self.wf(),
            self.t != ChunkType::Empty ==> layers_sum(self.design_element_count@, self.base.2 as int, (camera_z as usize) as int, false, 16) * 3 <= u32::MAX,
        ensures
            r == design_range(self.t, self.design_element_count@, self.base.2 as int, (camera_z as usize) as int),
            r matches Some((start, end)) ==> start <= end,
    {
        if self.t == ChunkType::Empty {
            return None;
        }
        proof {
            lemma_layers_sum_strict_le(self.design_element_count@, self.base.2 as int, (camera_z as usize) as int, 16);
        }
        let start = self.sum_layers(&self.design_element_count, camera_z as usize, true);
        let end = self.sum_layers(&self.design_element_count, camera_z as usize, false);
        if end > 0 {
            Some((start * 3, end * 3))
        } else {
            None
        }
    }
}

} // verus!
