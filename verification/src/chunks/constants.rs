//! Chunk grid dimensions and chunk indexing.

use vstd::prelude::*;
use crate::spatial::{REGION_WIDTH, REGION_HEIGHT, REGION_DEPTH, in_region};

verus! {

/// Number of tiles along each side of a chunk.
pub const CHUNK_SIZE: usize = 16;

/// Number of chunks along x.
pub const CHUNK_WIDTH: usize = REGION_WIDTH / CHUNK_SIZE;

/// Number of chunks along y.
pub const CHUNK_HEIGHT: usize = REGION_HEIGHT / CHUNK_SIZE;

/// Number of chunks along z.
pub const CHUNK_DEPTH: usize = REGION_DEPTH / CHUNK_SIZE;

/// Number of chunks in a region.
pub const CHUNKS_TOTAL: usize = CHUNK_WIDTH * CHUNK_HEIGHT * CHUNK_DEPTH;

/// The chunk grid is 16 chunks along each axis.
pub broadcast proof fn lemma_chunk_grid_dims()
    ensures
        #[trigger] CHUNKS_TOTAL == 4096,
        CHUNK_SIZE == 16,
        CHUNK_WIDTH == 16,
        CHUNK_HEIGHT == 16,
        CHUNK_DEPTH == 16,
        CHUNK_HEIGHT * CHUNK_WIDTH == 256,
{
}

/// The index of chunk `(x, y, z)` in the chunk grid.
pub open spec fn spec_chunk_idx(x: int, y: int, z: int) -> int {
    z * (CHUNK_HEIGHT * CHUNK_WIDTH) + y * CHUNK_WIDTH + x
}

/// The index of the chunk that holds tile `(x, y, z)`.
pub open spec fn spec_chunk_id_by_world(x: int, y: int, z: int) -> int {
    spec_chunk_idx(x / (CHUNK_SIZE as int), y / (CHUNK_SIZE as int), z / (CHUNK_SIZE as int))
}

/// Index of chunk `(x, y, z)`.
pub fn chunk_idx(x: usize, y: usize, z: usize) -> (idx: usize)
    requires
        spec_chunk_idx(x as int, y as int, z as int) <= usize::MAX,
    ensures
        idx == spec_chunk_idx(x as int, y as int, z as int),
{
    (z * CHUNK_HEIGHT * CHUNK_WIDTH) + (y * CHUNK_WIDTH) + x
}

/// Index of the chunk that holds the tile at world position `(x, y, z)`.
pub fn chunk_id_by_world(x: usize, y: usize, z: usize) -> (idx: usize)
    requires
        spec_chunk_id_by_world(x as int, y as int, z as int) <= usize::MAX,
    ensures
        idx == spec_chunk_id_by_world(x as int, y as int, z as int),
{
    chunk_idx(x / CHUNK_SIZE, y / CHUNK_SIZE, z / CHUNK_SIZE)
}

/// Every tile of the region lies in a chunk of the grid, and the chunk index
/// of a tile is that of the chunk whose cube holds it.
pub proof fn lemma_chunk_of_tile(x: int, y: int, z: int)
    requires
        in_region(x, y, z),
    ensures
        0 <= spec_chunk_id_by_world(x, y, z) < CHUNKS_TOTAL,
        spec_chunk_id_by_world(x, y, z) == spec_chunk_idx(x / 16, y / 16, z / 16),
        16 * (x / 16) <= x < 16 * (x / 16) + 16,
        16 * (y / 16) <= y < 16 * (y / 16) + 16,
        16 * (z / 16) <= z < 16 * (z / 16) + 16,
{
}

/// Distinct chunk coordinates inside the grid have distinct indices.
pub proof fn lemma_chunk_idx_injective(x1: int, y1: int, z1: int, x2: int, y2: int, z2: int)
    requires
        0 <= x1 < CHUNK_WIDTH, 0 <= y1 < CHUNK_HEIGHT, 0 <= z1 < CHUNK_DEPTH,
        0 <= x2 < CHUNK_WIDTH, 0 <= y2 < CHUNK_HEIGHT, 0 <= z2 < CHUNK_DEPTH,
        spec_chunk_idx(x1, y1, z1) == spec_chunk_idx(x2, y2, z2),
    ensures
        x1 == x2 && y1 == y2 && z1 == z2,
{
}

} // verus!
