//! Cutting trees: which tree a lumberjack works on and what a blow does.

use vstd::prelude::*;
use crate::distance::{nearest_tile, nearest_index, tile_point, tile_points};
use crate::spatial::REGION_TILES_COUNT;
use crate::playgame::messaging::{MessageQueues, posted, models_moved, vox_moved};
use crate::playgame::messaging::job_step::JobStep;

verus! {

/// The tree that a lumberjack next to tile `chop_pos` works on, among the
/// trees marked for cutting (given by their tiles): the index of the first
/// of those nearest to it; `None` if no tree is marked.
pub fn locate_target(chop_pos: usize, trees: &Vec<usize>) -> (r: Option<usize>)
    requires
        chop_pos < REGION_TILES_COUNT,
        forall|i: int| 0 <= i < trees@.len() ==> #[trigger] trees@[i] < REGION_TILES_COUNT,
    ensures
        r is None <==> trees@.len() == 0,
        r matches Some(i) ==> i == nearest_index(tile_point(chop_pos as int), tile_points(trees@)),
        r matches Some(i) ==> i < trees@.len(),
{
    nearest_tile(chop_pos, trees)
}

/// A blow of strength `skill_check_result` on a tree with `health` left: a
/// failed check (not above zero) does nothing; otherwise the health drops by
/// the result, and a tree left below 1 falls, which moves models and voxel
/// models. Returns whether the tree fell.
pub fn damage_tree(queues: &mut MessageQueues, health: &mut i32, skill_check_result: i32) -> (felled: bool)
    requires
        skill_check_result > 0 ==> *old(health) - skill_check_result >= i32::MIN,
    ensures
        skill_check_result > 0 ==> *final(health) == *old(health) - skill_check_result,
        skill_check_result <= 0 ==> *final(health) == *old(health),
        felled == (skill_check_result > 0 && *final(health) < 1),
        felled ==> posted(*old(queues), *final(queues), seq![JobStep::ModelsMoved, JobStep::VoxMoved]),
        !felled ==> posted(*old(queues), *final(queues), Seq::<JobStep>::empty()),
{
    let mut felled = false;
    if skill_check_result > 0 {
        *health = *health - skill_check_result;
        if *health < 1 {
            felled = true;
        }
    }
    if felled {
        models_moved(queues);
        vox_moved(queues);
        assert(queues.jobs@ =~= old(queues).jobs@ + seq![JobStep::ModelsMoved, JobStep::VoxMoved]);
    } else {
        assert(queues.jobs@ =~= old(queues).jobs@ + Seq::<JobStep>::empty());
    }
    felled
}

} // verus!
