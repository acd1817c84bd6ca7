//! The part of a region's state that the verified logic reads and writes:
//! tile kinds, visibility, water, materials and construction marks, one entry
//! per tile, indexed as in `spatial`.

use vstd::prelude::*;

verus! {

/// The direction in which a ramp rises.
#[derive(Clone, Copy, Debug, PartialEq, Eq, Structural)]
pub enum RampDirection {
    NorthSouth,
    SouthNorth,
    EastWest,
    WestEast,
}

/// The kind of a staircase tile.
#[derive(Clone, Copy, Debug, PartialEq, Eq, Structural)]
pub enum StairsType {
    Up,
    Down,
    UpDown,
}

/// What occupies a tile.
#[derive(Clone, Copy, Debug, PartialEq, Eq, Structural)]
pub enum TileType {
    Empty,
    Solid,
    Floor,
    Ramp { direction: RampDirection },
    Stairs { direction: StairsType },
    TreeTrunk { tree_id: usize },
    TreeFoliage { tree_id: usize },
}

/// Per-tile state of a region.
pub struct Region {
    pub tile_types: Vec<TileType>,
    pub revealed: Vec<bool>,
    pub water_level: Vec<u8>,
    pub material_idx: Vec<usize>,
    pub constructed: Vec<bool>,
}

impl Region {
    /// Number of tiles that the region holds.
    pub open spec fn tile_count(&self) -> nat {
        self.tile_types@.len()
    }

    /// All per-tile vectors describe the same tiles.
    pub open spec fn wf(&self) -> bool {
        &&& self.revealed@.len() == self.tile_count()
        &&& self.water_level@.len() == self.tile_count()
        &&& self.material_idx@.len() == self.tile_count()
        &&& self.constructed@.len() == self.tile_count()
    }

    /// The material of tile `idx`, with whether it was constructed.
    pub open spec fn spec_material(&self, idx: int) -> (usize, bool) {
        (self.material_idx@[idx], self.constructed@[idx])
    }
}

} // verus!
