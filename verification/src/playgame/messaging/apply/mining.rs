//! Digging: which mining designation a miner works on, and what working it
//! does to the map.

use vstd::prelude::*;
use crate::components::MiningMode;
use crate::distance::{nearest_tile, nearest_index, sq_dist, tile_point, tile_points, tile_to_point, distance_squared, lemma_nearest_exists};
use crate::region::{Region, TileType, StairsType};
use crate::spatial::{REGION_TILES_COUNT, REGION_WIDTH, REGION_HEIGHT};
use crate::playgame::messaging::{MessageQueues, posted, tile_dirty, dirty_block, dirty_block_fits};
use crate::playgame::messaging::job_step::JobStep;

verus! {

broadcast use crate::spatial::lemma_region_dims;

/// The tiles of the designations.
pub open spec fn designation_tiles(designations: Seq<(usize, MiningMode)>) -> Seq<usize> {
    Seq::new(designations.len(), |i: int| designations[i].0)
}

/// The designation that a miner standing on `pos` works: the first of those
/// nearest to it, provided it is the miner's own tile or one of the six
/// tiles sharing a face with it (distance below 1.2); none otherwise.
pub open spec fn dig_target(designations: Seq<(usize, MiningMode)>, pos: usize) -> Option<(usize, MiningMode)> {
    let pts = tile_points(designation_tiles(designations));
    let origin = tile_point(pos as int);
    let i = nearest_index(origin, pts);
    if pts.len() > 0 && sq_dist(origin, pts[i]) <= 1 {
        Some(designations[i])
    } else {
        None
    }
}

/// The designation that a miner on tile `pos` works, if any is close enough.
pub fn pick_dig_target(designations: &Vec<(usize, MiningMode)>, pos: usize) -> (r: Option<(usize, MiningMode)>)
    requires
        pos < REGION_TILES_COUNT,
        forall|i: int| 0 <= i < designations@.len() ==> (#[trigger] designations@[i]).0 < REGION_TILES_COUNT,
    ensures
        r == dig_target(designations@, pos),
{
    let mut tiles: Vec<usize> = Vec::new();
    let mut i: usize = 0;
    while i < designations.len()
        invariant
            i <= designations@.len(),
            tiles@ == designation_tiles(designations@).take(i as int),
        decreases designations@.len() - i,
    {
        tiles.push(designations[i].0);
        i = i + 1;
        assert(tiles@ =~= designation_tiles(designations@).take(i as int));
    }
    assert(tiles@ =~= designation_tiles(designations@));
    match nearest_tile(pos, &tiles) {
        None => None,
        Some(n) => {
            let o = tile_to_point(pos);
            let p = tile_to_point(tiles[n]);
            let d = distance_squared(&o, &p);
            if d <= 1 {
                Some(designations[n])
            } else {
                None
            }
        },
    }
}

/// What working a designation of kind `mode` on tile `mine_id` leaves in
/// the tile types.
pub open spec fn dug_tiles(tiles: Seq<TileType>, mine_id: int, mode: MiningMode) -> Seq<TileType> {
    match mode {
        MiningMode::Dig => tiles.update(mine_id, TileType::Floor),
        MiningMode::Channel => tiles.update(mine_id, TileType::Empty).update(mine_id - 65536, TileType::Floor),
        MiningMode::Up => tiles.update(mine_id, TileType::Stairs { direction: StairsType::Up }),
        MiningMode::Down => tiles.update(mine_id, TileType::Stairs { direction: StairsType::Down }),
        MiningMode::UpDown => tiles.update(mine_id, TileType::Stairs { direction: StairsType::UpDown }),
        MiningMode::Ramp => tiles,
    }
}

/// The redraw messages that working `mode` on `mine_id` posts.
pub open spec fn dug_dirty(mine_id: int, mode: MiningMode) -> Seq<JobStep> {
    match mode {
        MiningMode::Channel => dirty_block(mine_id) + dirty_block(mine_id - 65536),
        MiningMode::Ramp => Seq::empty(),
        _ => dirty_block(mine_id),
    }
}

/// Works the designation `mode` on tile `mine_id`: digging leaves a floor,
/// channelling empties the tile and puts a floor on the tile below, the
/// stair kinds leave stairs; each changed tile and its surroundings are
/// posted for redrawing. Nothing else in the region changes.
pub fn apply_dig(queues: &mut MessageQueues, region: &mut Region, mine_id: usize, mode: MiningMode)
    requires
        old(region).wf(),
        mode != MiningMode::Ramp ==> mine_id < old(region).tile_count() && dirty_block_fits(mine_id as int),
        mode == MiningMode::Channel ==> mine_id >= 65536 && dirty_block_fits(mine_id - 65536),
    ensures
        final(region).wf(),
        final(region).tile_types@ == dug_tiles(old(region).tile_types@, mine_id as int, mode),
        final(region).revealed@ == old(region).revealed@,
        final(region).water_level@ == old(region).water_level@,
        final(region).material_idx@ == old(region).material_idx@,
        final(region).constructed@ == old(region).constructed@,
        posted(*old(queues), *final(queues), dug_dirty(mine_id as int, mode)),
{
    match mode {
        MiningMode::Dig => {
            region.tile_types.set(mine_id, TileType::Floor);
            tile_dirty(queues, mine_id);
        },
        MiningMode::Channel => {
            region.tile_types.set(mine_id, TileType::Empty);
            region.tile_types.set(mine_id - (REGION_WIDTH * REGION_HEIGHT), TileType::Floor);
            let ghost start = queues.jobs@;
            tile_dirty(queues, mine_id);
            tile_dirty(queues, mine_id - (REGION_WIDTH * REGION_HEIGHT));
            assert(queues.jobs@ =~= start + (dirty_block(mine_id as int) + dirty_block(mine_id - 65536)));
        },
        MiningMode::Up => {
            region.tile_types.set(mine_id, TileType::Stairs { direction: StairsType::Up });
            tile_dirty(queues, mine_id);
        },
        MiningMode::Down => {
            region.tile_types.set(mine_id, TileType::Stairs { direction: StairsType::Down });
            tile_dirty(queues, mine_id);
        },
        MiningMode::UpDown => {
            region.tile_types.set(mine_id, TileType::Stairs { direction: StairsType::UpDown });
            tile_dirty(queues, mine_id);
        },
        MiningMode::Ramp => {
            assert(queues.jobs@ =~= old(queues).jobs@ + Seq::<JobStep>::empty());
        },
    }
}

/// Working a designation leaves on its tile what the designation asks for:
/// a floor for a dig, an empty tile (over a new floor below) for a channel,
/// and stairs of the designated kind for the stair designations (up, down,
/// up and down); a ramp designation changes nothing. No other tile of the
/// region changes.
pub proof fn lemma_dig_leaves_designated_tile(tiles: Seq<TileType>, m: int, mode: MiningMode)
    requires
        65536 <= m < tiles.len(),
    ensures
        dug_tiles(tiles, m, mode).len() == tiles.len(),
        mode == MiningMode::Dig ==> dug_tiles(tiles, m, mode)[m] == TileType::Floor,
        mode == MiningMode::Channel ==> dug_tiles(tiles, m, mode)[m] == TileType::Empty
            && dug_tiles(tiles, m, mode)[m - 65536] == TileType::Floor,
        mode == MiningMode::Up ==> dug_tiles(tiles, m, mode)[m] == (TileType::Stairs { direction: StairsType::Up }),
        mode == MiningMode::Down ==> dug_tiles(tiles, m, mode)[m] == (TileType::Stairs { direction: StairsType::Down }),
        mode == MiningMode::UpDown ==> dug_tiles(tiles, m, mode)[m] == (TileType::Stairs { direction: StairsType::UpDown }),
        mode == MiningMode::Ramp ==> dug_tiles(tiles, m, mode) == tiles,
        forall|k: int| 0 <= k < tiles.len() && k != m && !(mode == MiningMode::Channel && k == m - 65536)
            ==> #[trigger] dug_tiles(tiles, m, mode)[k] == tiles[k],
{
}

/// A miner works a designation on its own tile or on one of the six tiles
/// sharing a face with it (squared distance at most 1), the nearest of all
/// designations; when no designation is that close, none is worked.
pub proof fn lemma_dig_target_is_nearest_adjacent(designations: Seq<(usize, MiningMode)>, pos: usize)
    ensures
        dig_target(designations, pos) matches Some(d) ==> exists|i: int| {
            &&& 0 <= i < designations.len()
            &&& #[trigger] designations[i] == d
            &&& sq_dist(tile_point(pos as int), tile_point(d.0 as int)) <= 1
            &&& forall|j: int| 0 <= j < designations.len() ==>
                sq_dist(tile_point(pos as int), tile_point(d.0 as int)) <= sq_dist(tile_point(pos as int), tile_point((#[trigger] designations[j]).0 as int))
        },
        dig_target(designations, pos) is None ==> forall|j: int| 0 <= j < designations.len() ==>
            sq_dist(tile_point(pos as int), tile_point((#[trigger] designations[j]).0 as int)) > 1,
{
    let pts = tile_points(designation_tiles(designations));
    let origin = tile_point(pos as int);
    if designations.len() > 0 {
        lemma_nearest_exists(origin, pts);
        let i = nearest_index(origin, pts);
        assert(pts[i] == tile_point(designations[i].0 as int));
        assert forall|j: int| 0 <= j < designations.len() implies
            sq_dist(origin, tile_point(designations[i].0 as int)) <= sq_dist(origin, tile_point((#[trigger] designations[j]).0 as int)) by {
            assert(pts[j] == tile_point(designations[j].0 as int));
        }
    }
}

} // verus!
