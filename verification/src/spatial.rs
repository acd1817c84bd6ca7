//! Tile indexing inside a region: a region is a box of
//! `REGION_WIDTH x REGION_HEIGHT x REGION_DEPTH` tiles stored in one flat
//! vector, x fastest, then y, then z.

use vstd::prelude::*;

verus! {

/// Number of tiles along x in a region.
pub const REGION_WIDTH: usize = 256;

/// Number of tiles along y in a region.
pub const REGION_HEIGHT: usize = 256;

/// Number of tiles along z in a region.
pub const REGION_DEPTH: usize = 256;

/// Number of tiles in a region.
pub const REGION_TILES_COUNT: usize = REGION_WIDTH * REGION_HEIGHT * REGION_DEPTH;

/// A region is 256 tiles along each axis.
pub broadcast proof fn lemma_region_dims()
    ensures
        #[trigger] REGION_TILES_COUNT == 16777216,
        REGION_WIDTH == 256,
        REGION_HEIGHT == 256,
        REGION_DEPTH == 256,
        REGION_WIDTH * REGION_HEIGHT == 65536,
{
}

/// The flat index of tile `(x, y, z)`.
pub open spec fn spec_mapidx(x: int, y: int, z: int) -> int {
    z * (REGION_WIDTH * REGION_HEIGHT) + y * REGION_WIDTH + x
}

/// The coordinates of flat index `idx`.
pub open spec fn spec_idxmap(idx: int) -> (int, int, int) {
    (
        idx % (REGION_WIDTH as int),
        (idx / (REGION_WIDTH as int)) % (REGION_HEIGHT as int),
        idx / ((REGION_WIDTH * REGION_HEIGHT) as int),
    )
}

/// A tile lies inside the region.
pub open spec fn in_region(x: int, y: int, z: int) -> bool {
    0 <= x < REGION_WIDTH && 0 <= y < REGION_HEIGHT && 0 <= z < REGION_DEPTH
}

/// Flat index of tile `(x, y, z)`.
pub fn mapidx(x: usize, y: usize, z: usize) -> (idx: usize)
    requires
        spec_mapidx(x as int, y as int, z as int) <= usize::MAX,
    ensures
        idx == spec_mapidx(x as int, y as int, z as int),
{
    z * (REGION_WIDTH * REGION_HEIGHT) + y * REGION_WIDTH + x
}

/// Coordinates `(x, y, z)` of flat index `idx`.
pub fn idxmap(idx: usize) -> (xyz: (usize, usize, usize))
    ensures
        xyz.0 == spec_idxmap(idx as int).0,
        xyz.1 == spec_idxmap(idx as int).1,
        xyz.2 == spec_idxmap(idx as int).2,
{
    let z = idx / (REGION_WIDTH * REGION_HEIGHT);
    let rest = idx % (REGION_WIDTH * REGION_HEIGHT);
    let y = rest / REGION_WIDTH;
    let x = rest % REGION_WIDTH;
    assert(rest / 256 == (idx / 256) % 256 && rest % 256 == idx % 256) by (nonlinear_arith)
        requires
            rest == idx % 65536,
    {
        vstd::arithmetic::div_mod::lemma_fundamental_div_mod(idx as int, 65536);
        vstd::arithmetic::div_mod::lemma_fundamental_div_mod(idx as int, 256);
        vstd::arithmetic::div_mod::lemma_fundamental_div_mod(rest as int, 256);
        vstd::arithmetic::div_mod::lemma_fundamental_div_mod(idx as int / 256, 256);
    }
    (x, y, z)
}

/// The flat index grows with each coordinate.
pub proof fn lemma_mapidx_monotone(a: int, b: int, c: int, x: int, y: int, z: int)
    requires
        0 <= a <= x,
        0 <= b <= y,
        0 <= c <= z,
    ensures
        0 <= spec_mapidx(a, b, c) <= spec_mapidx(x, y, z),
        a <= spec_mapidx(x, y, z),
        b <= spec_mapidx(x, y, z),
        c <= spec_mapidx(x, y, z),
{
    assert(0 <= spec_mapidx(a, b, c) <= spec_mapidx(x, y, z)) by (nonlinear_arith)
        requires
            0 <= a <= x,
            0 <= b <= y,
            0 <= c <= z,
    {
    }
    assert(c <= z * 65536 && b <= y * 256) by (nonlinear_arith)
        requires
            0 <= b <= y,
            0 <= c <= z,
    {
    }
}

/// Reading back the coordinates of a tile's index gives the tile.
pub proof fn lemma_idxmap_mapidx(x: int, y: int, z: int)
    requires
        0 <= x < REGION_WIDTH,
        0 <= y < REGION_HEIGHT,
        0 <= z,
    ensures
        spec_idxmap(spec_mapidx(x, y, z)) == (x, y, z),
{
    let i = spec_mapidx(x, y, z);
    vstd::arithmetic::div_mod::lemma_fundamental_div_mod_converse(i, 65536, z, y * 256 + x);
    vstd::arithmetic::div_mod::lemma_fundamental_div_mod_converse(i, 256, z * 256 + y, x);
    vstd::arithmetic::div_mod::lemma_fundamental_div_mod_converse(z * 256 + y, 256, z, y);
}

/// Every index is the index of the tile that it reads back as.
pub proof fn lemma_mapidx_idxmap(idx: int)
    requires
        0 <= idx,
    ensures
        spec_mapidx(spec_idxmap(idx).0, spec_idxmap(idx).1, spec_idxmap(idx).2) == idx,
        0 <= spec_idxmap(idx).0 < REGION_WIDTH,
        0 <= spec_idxmap(idx).1 < REGION_HEIGHT,
        0 <= spec_idxmap(idx).2,
{
    vstd::arithmetic::div_mod::lemma_fundamental_div_mod(idx, 256);
    vstd::arithmetic::div_mod::lemma_fundamental_div_mod(idx / 256, 256);
    vstd::arithmetic::div_mod::lemma_fundamental_div_mod(idx, 65536);
    assert(idx / 65536 == (idx / 256) / 256) by {
        vstd::arithmetic::div_mod::lemma_div_denominator(idx, 256, 256);
    }
}

} // verus!
