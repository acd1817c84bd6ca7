//! The message queues that game systems post to, and the functions that
//! post each kind of message. Each posting function appends exactly one
//! message (or, for `tile_dirty`, a fixed block of them) at the back of the
//! jobs queue and touches nothing else.

pub mod job_step;
pub mod apply;

use vstd::prelude::*;
use std::collections::{HashMap, VecDeque};
use crate::components::{JobType, Point3};
use crate::spatial::{idxmap, mapidx, spec_idxmap, spec_mapidx, lemma_mapidx_idxmap};
use job_step::JobStep;

verus! {

/// The queues of one game: pending messages, and where each entity that
/// moved this tick ends up.
pub struct MessageQueues {
    pub jobs: VecDeque<JobStep>,
    pub movers: HashMap<usize, (usize, usize, usize)>,
}

impl MessageQueues {
    /// Empty queues.
    pub fn new() -> (q: Self)
        ensures
            q.jobs@ == Seq::<JobStep>::empty(),
            q.movers@ == Map::<usize, (usize, usize, usize)>::empty(),
    {
        MessageQueues { jobs: VecDeque::new(), movers: HashMap::new() }
    }
}

/// `after` is `before` with `steps` appended to its jobs queue.
pub open spec fn posted(before: MessageQueues, after: MessageQueues, steps: Seq<JobStep>) -> bool {
    &&& after.jobs@ == before.jobs@ + steps
    &&& after.movers@ == before.movers@
}

/// Posts that entity `id` moved to `end`.
pub fn entity_moved(queues: &mut MessageQueues, id: usize, end: &Point3)
    ensures
        posted(*old(queues), *final(queues), seq![JobStep::EntityMoved { id, end: *end }]),
{
    queues.jobs.push_back(JobStep::EntityMoved { id, end: *end });
    assert(queues.jobs@ =~= old(queues).jobs@ + seq![JobStep::EntityMoved { id, end: *end }]);
}

/// Posts that entity `id` now has the job `new_job`.
pub fn job_changed(queues: &mut MessageQueues, id: usize, new_job: JobType)
    ensures
        posted(*old(queues), *final(queues), seq![JobStep::JobChanged { id, new_job }]),
{
    queues.jobs.push_back(JobStep::JobChanged { id, new_job });
    assert(queues.jobs@ =~= old(queues).jobs@ + seq![JobStep::JobChanged { id, new_job }]);
}

/// Posts that the job of entity `id` was cancelled.
pub fn cancel_job(queues: &mut MessageQueues, id: usize)
    ensures
        posted(*old(queues), *final(queues), seq![JobStep::JobCancelled { id }]),
{
    queues.jobs.push_back(JobStep::JobCancelled { id });
    assert(queues.jobs@ =~= old(queues).jobs@ + seq![JobStep::JobCancelled { id }]);
}

/// Posts that the claim on tool `tool_id` at `tool_pos` is given up.
pub fn relinquish_claim(queues: &mut MessageQueues, tool_id: usize, tool_pos: usize)
    ensures
        posted(*old(queues), *final(queues), seq![JobStep::RelinquishClaim { tool_id, tool_pos }]),
{
    queues.jobs.push_back(JobStep::RelinquishClaim { tool_id, tool_pos });
    assert(queues.jobs@ =~= old(queues).jobs@ + seq![JobStep::RelinquishClaim { tool_id, tool_pos }]);
}

/// Posts that entity `id` takes the next step of its job's path.
pub fn follow_job_path(queues: &mut MessageQueues, id: usize)
    ensures
        posted(*old(queues), *final(queues), seq![JobStep::FollowJobPath { id }]),
{
    queues.jobs.push_back(JobStep::FollowJobPath { id });
    assert(queues.jobs@ =~= old(queues).jobs@ + seq![JobStep::FollowJobPath { id }]);
}

/// Posts that entity `id` picks up tool `tool_id`.
pub fn equip_tool(queues: &mut MessageQueues, id: usize, tool_id: usize)
    ensures
        posted(*old(queues), *final(queues), seq![JobStep::EquipItem { id, tool_id }]),
{
    queues.jobs.push_back(JobStep::EquipItem { id, tool_id });
    assert(queues.jobs@ =~= old(queues).jobs@ + seq![JobStep::EquipItem { id, tool_id }]);
}

/// Posts that entity `id` picks up item `item_id`.
pub fn get_item(queues: &mut MessageQueues, id: usize, item_id: usize)
    ensures
        posted(*old(queues), *final(queues), seq![JobStep::GetItem { id, item_id }]),
{
    queues.jobs.push_back(JobStep::GetItem { id, item_id });
    assert(queues.jobs@ =~= old(queues).jobs@ + seq![JobStep::GetItem { id, item_id }]);
}

/// Posts that item `id` is put on the ground at tile `location`.
pub fn drop_item(queues: &mut MessageQueues, id: usize, location: usize)
    ensures
        posted(*old(queues), *final(queues), seq![JobStep::DropItem { id, location }]),
{
    queues.jobs.push_back(JobStep::DropItem { id, location });
    assert(queues.jobs@ =~= old(queues).jobs@ + seq![JobStep::DropItem { id, location }]);
}

/// Posts that entity `id` chops at the tree next to tile `tree_pos`.
pub fn chop_tree(queues: &mut MessageQueues, id: usize, tree_pos: usize)
    ensures
        posted(*old(queues), *final(queues), seq![JobStep::TreeChop { id, tree_pos }]),
{
    queues.jobs.push_back(JobStep::TreeChop { id, tree_pos });
    assert(queues.jobs@ =~= old(queues).jobs@ + seq![JobStep::TreeChop { id, tree_pos }]);
}

/// Posts that the job of entity `id` is finished.
pub fn conclude_job(queues: &mut MessageQueues, id: usize)
    ensures
        posted(*old(queues), *final(queues), seq![JobStep::JobConcluded { id }]),
{
    queues.jobs.push_back(JobStep::JobConcluded { id });
    assert(queues.jobs@ =~= old(queues).jobs@ + seq![JobStep::JobConcluded { id }]);
}

/// Posts that voxel models moved.
pub fn vox_moved(queues: &mut MessageQueues)
    ensures
        posted(*old(queues), *final(queues), seq![JobStep::VoxMoved]),
{
    queues.jobs.push_back(JobStep::VoxMoved);
    assert(queues.jobs@ =~= old(queues).jobs@ + seq![JobStep::VoxMoved]);
}

/// Posts that models moved.
pub fn models_moved(queues: &mut MessageQueues)
    ensures
        posted(*old(queues), *final(queues), seq![JobStep::ModelsMoved]),
{
    queues.jobs.push_back(JobStep::ModelsMoved);
    assert(queues.jobs@ =~= old(queues).jobs@ + seq![JobStep::ModelsMoved]);
}

/// Posts that lights changed.
pub fn lights_changed(queues: &mut MessageQueues)
    ensures
        posted(*old(queues), *final(queues), seq![JobStep::LightsChanged]),
{
    queues.jobs.push_back(JobStep::LightsChanged);
    assert(queues.jobs@ =~= old(queues).jobs@ + seq![JobStep::LightsChanged]);
}

/// Posts that item `id` is removed from the world.
pub fn delete_item(queues: &mut MessageQueues, id: usize)
    ensures
        posted(*old(queues), *final(queues), seq![JobStep::DeleteItem { id }]),
{
    queues.jobs.push_back(JobStep::DeleteItem { id });
    assert(queues.jobs@ =~= old(queues).jobs@ + seq![JobStep::DeleteItem { id }]);
}

/// Posts that building `building_id` is removed.
pub fn delete_building(queues: &mut MessageQueues, building_id: usize)
    ensures
        posted(*old(queues), *final(queues), seq![JobStep::DeleteBuilding { building_id }]),
{
    queues.jobs.push_back(JobStep::DeleteBuilding { building_id });
    assert(queues.jobs@ =~= old(queues).jobs@ + seq![JobStep::DeleteBuilding { building_id }]);
}

/// Posts that building `building_id` is complete.
pub fn finish_building(queues: &mut MessageQueues, building_id: usize)
    ensures
        posted(*old(queues), *final(queues), seq![JobStep::FinishBuilding { building_id }]),
{
    queues.jobs.push_back(JobStep::FinishBuilding { building_id });
    assert(queues.jobs@ =~= old(queues).jobs@ + seq![JobStep::FinishBuilding { building_id }]);
}

/// Posts that the construction of `building_id` is complete.
pub fn finish_construction(queues: &mut MessageQueues, building_id: usize)
    ensures
        posted(*old(queues), *final(queues), seq![JobStep::FinishConstruction { building_id }]),
{
    queues.jobs.push_back(JobStep::FinishConstruction { building_id });
    assert(queues.jobs@ =~= old(queues).jobs@ + seq![JobStep::FinishConstruction { building_id }]);
}

/// Posts that entity `id` digs next to tile `pos`.
pub fn dig_at(queues: &mut MessageQueues, id: usize, pos: usize)
    ensures
        posted(*old(queues), *final(queues), seq![JobStep::DigAt { id, pos }]),
{
    queues.jobs.push_back(JobStep::DigAt { id, pos });
    assert(queues.jobs@ =~= old(queues).jobs@ + seq![JobStep::DigAt { id, pos }]);
}

/// Posts that settler `id` is to become a miner.
pub fn become_miner(queues: &mut MessageQueues, id: usize)
    ensures
        posted(*old(queues), *final(queues), seq![JobStep::BecomeMiner { id }]),
{
    queues.jobs.push_back(JobStep::BecomeMiner { id });
    assert(queues.jobs@ =~= old(queues).jobs@ + seq![JobStep::BecomeMiner { id }]);
}

/// Posts that settler `id` is to become a lumberjack.
pub fn become_lumberjack(queues: &mut MessageQueues, id: usize)
    ensures
        posted(*old(queues), *final(queues), seq![JobStep::BecomeLumberjack { id }]),
{
    queues.jobs.push_back(JobStep::BecomeLumberjack { id });
    assert(queues.jobs@ =~= old(queues).jobs@ + seq![JobStep::BecomeLumberjack { id }]);
}

/// Posts that settler `id` stops mining.
pub fn fire_miner(queues: &mut MessageQueues, id: usize)
    ensures
        posted(*old(queues), *final(queues), seq![JobStep::FireMiner { id }]),
{
    queues.jobs.push_back(JobStep::FireMiner { id });
    assert(queues.jobs@ =~= old(queues).jobs@ + seq![JobStep::FireMiner { id }]);
}

/// Posts that settler `id` stops cutting trees.
pub fn fire_lumberjack(queues: &mut MessageQueues, id: usize)
    ensures
        posted(*old(queues), *final(queues), seq![JobStep::FireLumberjack { id }]),
{
    queues.jobs.push_back(JobStep::FireLumberjack { id });
    assert(queues.jobs@ =~= old(queues).jobs@ + seq![JobStep::FireLumberjack { id }]);
}

/// Posts that the haul request `id` is taken by `by`.
pub fn haul_in_progress(queues: &mut MessageQueues, id: usize, by: usize)
    ensures
        posted(*old(queues), *final(queues), seq![JobStep::HaulInProgress { id, by }]),
{
    queues.jobs.push_back(JobStep::HaulInProgress { id, by });
    assert(queues.jobs@ =~= old(queues).jobs@ + seq![JobStep::HaulInProgress { id, by }]);
}

/// Posts that the reaction job `id` is taken by `by`.
pub fn reaction_in_progress(queues: &mut MessageQueues, id: usize, by: usize)
    ensures
        posted(*old(queues), *final(queues), seq![JobStep::ReactionInProgress { id, by }]),
{
    queues.jobs.push_back(JobStep::ReactionInProgress { id, by });
    assert(queues.jobs@ =~= old(queues).jobs@ + seq![JobStep::ReactionInProgress { id, by }]);
}

/// Posts that the construction of `id` is taken by `by`.
pub fn construction_in_progress(queues: &mut MessageQueues, id: usize, by: usize)
    ensures
        posted(*old(queues), *final(queues), seq![JobStep::ConstructionInProgress { building_id: id, by }]),
{
    queues.jobs.push_back(JobStep::ConstructionInProgress { building_id: id, by });
    assert(queues.jobs@ =~= old(queues).jobs@ + seq![JobStep::ConstructionInProgress { building_id: id, by }]);
}

/// Posts that item `id` no longer asks to be hauled.
pub fn remove_haul_tag(queues: &mut MessageQueues, id: usize)
    ensures
        posted(*old(queues), *final(queues), seq![JobStep::RemoveHaulTag { id }]),
{
    queues.jobs.push_back(JobStep::RemoveHaulTag { id });
    assert(queues.jobs@ =~= old(queues).jobs@ + seq![JobStep::RemoveHaulTag { id }]);
}

/// Posts that item `item_id` arrived at the blueprint that claimed it.
pub fn update_blueprint(queues: &mut MessageQueues, item_id: usize)
    ensures
        posted(*old(queues), *final(queues), seq![JobStep::UpdateBlueprint { item_id }]),
{
    queues.jobs.push_back(JobStep::UpdateBlueprint { item_id });
    assert(queues.jobs@ =~= old(queues).jobs@ + seq![JobStep::UpdateBlueprint { item_id }]);
}

/// Posts that reaction job `reaction_id` is carried out.
pub fn perform_reaction(queues: &mut MessageQueues, reaction_id: usize)
    ensures
        posted(*old(queues), *final(queues), seq![JobStep::PerformReaction { reaction_id }]),
{
    queues.jobs.push_back(JobStep::PerformReaction { reaction_id });
    assert(queues.jobs@ =~= old(queues).jobs@ + seq![JobStep::PerformReaction { reaction_id }]);
}

/// Posts that `qty` items `tag` of material `material` are to appear on tile
/// `position`.
pub fn spawn_item(queues: &mut MessageQueues, position: &usize, tag: &String, qty: &i32, material: usize)
    ensures
        final(queues).movers@ == old(queues).movers@,
        final(queues).jobs@.len() == old(queues).jobs@.len() + 1,
        final(queues).jobs@.take(old(queues).jobs@.len() as int) == old(queues).jobs@,
        final(queues).jobs@.last() == (JobStep::SpawnItem { pos: *position, tag: *tag, qty: *qty, material }),
{
    queues.jobs.push_back(JobStep::SpawnItem { pos: *position, tag: tag.clone(), qty: *qty, material });
    assert(queues.jobs@.take(old(queues).jobs@.len() as int) =~= old(queues).jobs@);
}

/// Posts that workshop `workshop_id` is to run the reaction `reaction_tag`
/// on the items `components`.
pub fn create_reaction_job(queues: &mut MessageQueues, workshop_id: usize, reaction_tag: &str, components: &Vec<usize>)
    ensures
        final(queues).movers@ == old(queues).movers@,
        final(queues).jobs@.len() == old(queues).jobs@.len() + 1,
        final(queues).jobs@.take(old(queues).jobs@.len() as int) == old(queues).jobs@,
        match final(queues).jobs@.last() {
            JobStep::CreateReactionJob { workshop_id: w, components: c, reaction_tag: t } =>
                w == workshop_id && c@ == components@ && t@ == reaction_tag@,
            _ => false,
        },
{
    let mut comps: Vec<usize> = Vec::new();
    let mut i: usize = 0;
    while i < components.len()
        invariant
            i <= components@.len(),
            comps@ == components@.take(i as int),
        decreases components@.len() - i,
    {
        comps.push(components[i]);
        i = i + 1;
        assert(comps@ =~= components@.take(i as int));
    }
    assert(comps@ =~= components@);
    queues.jobs.push_back(JobStep::CreateReactionJob {
        workshop_id,
        components: comps,
        reaction_tag: reaction_tag.to_owned(),
    });
    assert(queues.jobs@.take(old(queues).jobs@.len() as int) =~= old(queues).jobs@);
}

/// The tile `pos` lies off the low faces of the map, its height fits an
/// `i32`, and its upper neighbours have indices: the block of 27 tiles
/// around it can be indexed.
pub open spec fn dirty_block_fits(pos: int) -> bool {
    let (x, y, z) = spec_idxmap(pos);
    &&& x >= 1
    &&& y >= 1
    &&& z >= 1
    &&& z < i32::MAX
    &&& spec_mapidx(x + 1, y + 1, z + 1) <= usize::MAX
}

/// The `k`-th tile of the 3x3x3 block around `pos`, x fastest, then y, then z.
pub open spec fn block_neighbour(pos: int, k: int) -> int {
    let (x, y, z) = spec_idxmap(pos);
    spec_mapidx(x + k % 3 - 1, y + (k / 3) % 3 - 1, z + k / 9 - 1)
}

/// The messages that `tile_dirty(pos)` posts: each tile of the block around
/// `pos`, then `pos` itself.
pub open spec fn dirty_block(pos: int) -> Seq<JobStep> {
    Seq::new(27, |k: int| JobStep::TileDirty { pos: block_neighbour(pos, k) as usize })
        .push(JobStep::TileDirty { pos: pos as usize })
}

/// Posts that the tiles around `pos` (and `pos` itself, once more) must be
/// redrawn.
pub fn tile_dirty(queues: &mut MessageQueues, pos: usize)
    requires
        dirty_block_fits(pos as int),
    ensures
        posted(*old(queues), *final(queues), dirty_block(pos as int)),
{
    let (x, y, z) = idxmap(pos);
    proof {
        lemma_mapidx_idxmap(pos as int);
    }
    let ghost start = queues.jobs@;
    let ghost block = dirty_block(pos as int);
    let mut tz: i32 = -1;
    while tz <= 1
        invariant
            -1 <= tz <= 2,
            x == spec_idxmap(pos as int).0,
            y == spec_idxmap(pos as int).1,
            z == spec_idxmap(pos as int).2,
            1 <= x < 256,
            1 <= y < 256,
            1 <= z < i32::MAX,
            spec_mapidx(x + 1, y + 1, z + 1) <= usize::MAX,
            block == dirty_block(pos as int),
            queues.movers@ == old(queues).movers@,
            queues.jobs@ == start + block.take((tz + 1) * 9),
        decreases 2 - tz,
    {
        let mut ty: i32 = -1;
        while ty <= 1
            invariant
                -1 <= tz <= 1,
                -1 <= ty <= 2,
                x == spec_idxmap(pos as int).0,
                y == spec_idxmap(pos as int).1,
                z == spec_idxmap(pos as int).2,
                1 <= x < 256,
                1 <= y < 256,
                1 <= z < i32::MAX,
                spec_mapidx(x + 1, y + 1, z + 1) <= usize::MAX,
                block == dirty_block(pos as int),
                queues.movers@ == old(queues).movers@,
                queues.jobs@ == start + block.take((tz + 1) * 9 + (ty + 1) * 3),
            decreases 2 - ty,
        {
            let mut tx: i32 = -1;
            while tx <= 1
                invariant
                    -1 <= tz <= 1,
                    -1 <= ty <= 1,
                    -1 <= tx <= 2,
                    x == spec_idxmap(pos as int).0,
                    y == spec_idxmap(pos as int).1,
                    z == spec_idxmap(pos as int).2,
                    1 <= x < 256,
                    1 <= y < 256,
                    1 <= z < i32::MAX,
                    spec_mapidx(x + 1, y + 1, z + 1) <= usize::MAX,
                    block == dirty_block(pos as int),
                    queues.movers@ == old(queues).movers@,
                    queues.jobs@ == start + block.take((tz + 1) * 9 + (ty + 1) * 3 + (tx + 1)),
                decreases 2 - tx,
            {
                let cx = (x as i32 + tx) as usize;
                let cy = (y as i32 + ty) as usize;
                let cz = (z as i32 + tz) as usize;
                proof {
                    crate::spatial::lemma_mapidx_monotone(cx as int, cy as int, cz as int, x + 1, y + 1, z + 1);
                }
                let idx = mapidx(cx, cy, cz);
                proof {
                    let k = (tz + 1) * 9 + (ty + 1) * 3 + (tx + 1);
                    assert(k % 3 == tx + 1 && (k / 3) % 3 == ty + 1 && k / 9 == tz + 1) by (nonlinear_arith)
                        requires
                            k == (tz + 1) * 9 + (ty + 1) * 3 + (tx + 1),
                            -1 <= tx <= 1,
                            -1 <= ty <= 1,
                            -1 <= tz <= 1,
                    ;
                    assert(block[k] == JobStep::TileDirty { pos: idx });
                }
                queues.jobs.push_back(JobStep::TileDirty { pos: idx });
                proof {
                    let k = (tz + 1) * 9 + (ty + 1) * 3 + (tx + 1);
                    assert(block.take(k + 1) =~= block.take(k).push(block[k]));
                    assert(queues.jobs@ =~= start + block.take(k + 1));
                }
                tx = tx + 1;
            }
            ty = ty + 1;
        }
        tz = tz + 1;
    }
    queues.jobs.push_back(JobStep::TileDirty { pos });
    assert(block.take(27).push(JobStep::TileDirty { pos }) =~= block);
    assert(queues.jobs@ =~= start + block);
}

} // verus!
