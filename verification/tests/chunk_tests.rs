use nox_futura::components::Point3;
use nox_futura::chunks::chunk::{Chunk, ChunkType};
use nox_futura::chunks::chunks::Chunks;
use nox_futura::chunks::constants::{chunk_id_by_world, CHUNKS_TOTAL};
use nox_futura::region::{RampDirection, Region, TileType};
use nox_futura::spatial::mapidx;

fn small_region(n: usize) -> Region {
    Region {
        tile_types: vec![TileType::Empty; n],
        revealed: vec![true; n],
        water_level: vec![0; n],
        material_idx: vec![7; n],
        constructed: vec![false; n],
    }
}

const FIRST_CHUNK_TILES: usize = 15 * 65536 + 15 * 256 + 15 + 1;
const WATER: (usize, bool) = (100, false);
const HIDDEN: (usize, bool) = (200, false);

#[test]
fn new_chunk_covers_its_cube() {
    let c = Chunk::new(1, 2, 3);
    assert_eq!(c.base, (16, 32, 48));
    assert_eq!(c.idx, 3 * 256 + 2 * 16 + 1);
    assert!(c.dirty);
    assert_eq!(c.t, ChunkType::Empty);
    assert_eq!(c.cells.len(), 4096);
    assert_eq!(c.cells[0], mapidx(16, 32, 48));
    assert_eq!(c.cells[1], mapidx(17, 32, 48));
    assert_eq!(c.cells[16], mapidx(16, 33, 48));
    assert_eq!(c.cells[256], mapidx(16, 32, 49));
    assert_eq!(c.cells[4095], mapidx(31, 47, 63));
    assert_eq!(c.element_count, vec![0u32; 16]);
}

#[test]
fn every_cell_of_a_chunk_maps_back_to_it() {
    let c = Chunk::new(5, 9, 2);
    for &cell in c.cells.iter() {
        let (x, y, z) = nox_futura::spatial::idxmap(cell);
        assert_eq!(chunk_id_by_world(x, y, z), c.idx);
    }
}

#[test]
fn rebuild_of_an_all_empty_chunk() {
    let region = small_region(FIRST_CHUNK_TILES);
    let mut c = Chunk::new(0, 0, 0);
    let plans = c.rebuild(&region, WATER, HIDDEN).expect("a dirty chunk is rebuilt");
    assert!(!c.dirty);
    assert_eq!(c.t, ChunkType::Empty);
    assert_eq!(plans.len(), 16);
    assert!(plans.iter().all(|layer| layer.len() == 256));
    let p = plans[3][17];
    assert_eq!(p.idx, mapidx(1, 1, 3));
    assert_eq!(p.pos, (1, 1, 3));
    assert_eq!(p.cube, None);
    assert_eq!(p.floor, None);
    assert_eq!(p.design_floor, Some(HIDDEN));
    assert!(c.rebuild(&region, WATER, HIDDEN).is_none());
}

#[test]
fn rebuild_classifies_tiles() {
    let mut region = small_region(FIRST_CHUNK_TILES);
    let solid = mapidx(2, 0, 0);
    let floor = mapidx(3, 0, 0);
    let ramp = mapidx(4, 0, 0);
    let hidden = mapidx(5, 0, 0);
    let wet = mapidx(6, 0, 0);
    region.tile_types[solid] = TileType::Solid;
    region.constructed[solid] = true;
    region.tile_types[floor] = TileType::Floor;
    region.tile_types[ramp] = TileType::Ramp { direction: RampDirection::EastWest };
    region.tile_types[hidden] = TileType::Solid;
    region.revealed[hidden] = false;
    region.tile_types[wet] = TileType::Floor;
    region.water_level[wet] = 3;
    let mut c = Chunk::new(0, 0, 0);
    let plans = c.rebuild(&region, WATER, HIDDEN).unwrap();
    assert_eq!(c.t, ChunkType::Partial);
    let layer = &plans[0];
    assert_eq!(layer[2].cube, Some((7, true)));
    assert_eq!(layer[2].design_cube, Some((7, true)));
    assert_eq!(layer[2].design_floor, None);
    assert_eq!(layer[3].floor, Some((7, false)));
    assert_eq!(layer[3].design_floor, Some((7, false)));
    assert_eq!(layer[4].ramp, Some((RampDirection::EastWest, (7, false))));
    assert_eq!(layer[4].floor, None);
    assert_eq!(layer[5].cube, None);
    assert_eq!(layer[5].floor, Some(HIDDEN));
    assert_eq!(layer[6].floor, Some(WATER));
    assert_eq!(layer[6].design_floor, Some(WATER));
}

#[test]
fn render_counts_layers_up_to_the_camera() {
    let mut region = small_region(FIRST_CHUNK_TILES);
    region.tile_types[0] = TileType::Solid;
    let mut c = Chunk::new(0, 0, 0);
    c.rebuild(&region, WATER, HIDDEN).unwrap();
    c.add_layer_elements(0, 2, 1, 4);
    c.add_layer_elements(1, 3, 0, 5);
    c.add_layer_elements(5, 10, 0, 0);
    assert_eq!(c.maybe_render_chunk(0), Some(6));
    assert_eq!(c.maybe_render_chunk(1), Some(15));
    assert_eq!(c.maybe_render_chunk(5), Some(45));
    assert_eq!(c.maybe_render_chunk_floors(3), Some(3));
    assert_eq!(c.maybe_render_chunk_design(1), Some((12, 27)));
    assert_eq!(c.maybe_render_chunk_design(0), Some((0, 12)));
    // A negative camera height wraps around and shows every layer.
    assert_eq!(c.maybe_render_chunk(-1), Some(45));
}

#[test]
fn empty_chunk_renders_nothing() {
    let c = Chunk::new(0, 0, 0);
    assert_eq!(c.maybe_render_chunk(100), None);
    assert_eq!(c.maybe_render_chunk_floors(100), None);
    assert_eq!(c.maybe_render_chunk_design(100), None);
}

#[test]
fn chunk_grid_and_mark_dirty() {
    let mut chunks = Chunks::empty();
    assert_eq!(chunks.chunks.len(), CHUNKS_TOTAL);
    for (k, c) in chunks.chunks.iter().enumerate() {
        assert_eq!(c.idx, k);
    }
    for c in chunks.chunks.iter_mut() {
        c.dirty = false;
    }
    let tile = mapidx(40, 3, 200);
    chunks.mark_dirty(&vec![tile]);
    let hit = chunk_id_by_world(40, 3, 200);
    for (k, c) in chunks.chunks.iter().enumerate() {
        assert_eq!(c.dirty, k == hit);
    }
    assert!(chunks.chunks[hit].cells.contains(&tile));
}

#[test]
fn visible_chunks_come_nearest_first_then_by_index() {
    let chunks = Chunks::empty();
    let mut in_view = vec![false; chunks.chunks.len()];
    in_view[16] = true;
    in_view[1] = true;
    in_view[0] = true;
    in_view[300] = true;
    let order = chunks.order_visible(&Point3::new(8, 8, 8), &in_view);
    assert_eq!(order, vec![(0, 0), (256, 1), (256, 16), (38144, 300)]);
}
