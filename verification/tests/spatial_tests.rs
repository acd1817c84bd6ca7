use nox_futura::spatial::{idxmap, mapidx, REGION_TILES_COUNT};
use nox_futura::chunks::constants::{chunk_id_by_world, chunk_idx};

#[test]
fn mapidx_then_idxmap_round_trips() {
    let idx = mapidx(3, 5, 7);
    assert_eq!(idx, 7 * 65536 + 5 * 256 + 3);
    assert_eq!(idxmap(idx), (3, 5, 7));
}

#[test]
fn idxmap_last_tile() {
    assert_eq!(idxmap(REGION_TILES_COUNT - 1), (255, 255, 255));
}

#[test]
fn chunk_index_of_world_tile() {
    assert_eq!(chunk_idx(1, 2, 3), 3 * 256 + 2 * 16 + 1);
    assert_eq!(chunk_id_by_world(17, 33, 49), chunk_idx(1, 2, 3));
    assert_eq!(chunk_id_by_world(15, 15, 15), 0);
}
