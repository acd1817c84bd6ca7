//! The first messaging layer: render flags that game code raises, and a
//! queue of world changes. Raising a flag touches only the render flags;
//! posting a change appends one message to the jobs queue and touches
//! nothing else.

pub mod renderflags;
pub mod jobstep;

use vstd::prelude::*;
use std::collections::{HashMap, VecDeque};
use crate::components::{JobType, Point3};
use crate::region::{Region, TileType};
use renderflags::RenderFlags;
use jobstep::JobStep;

verus! {

broadcast use vstd::std_specs::hash::group_hash_axioms;

/// The shared message state: render flags, pending world changes, and where
/// each entity that moved this tick ends up.
pub struct Backends {
    pub render_flags: RenderFlags,
    pub jobs: VecDeque<JobStep>,
    pub movers: HashMap<usize, (usize, usize, usize)>,
}

impl Backends {
    /// No render work, no messages, no movers.
    pub fn new() -> (b: Self)
        ensures
            b.render_flags.is_clear(),
            b.jobs@ == Seq::<JobStep>::empty(),
            b.movers@ == Map::<usize, (usize, usize, usize)>::empty(),
    {
        Backends { render_flags: RenderFlags::new(), jobs: VecDeque::new(), movers: HashMap::new() }
    }
}

/// `after` is `before` with only the render flags changed.
pub open spec fn flags_only(before: Backends, after: Backends) -> bool {
    &&& after.jobs@ == before.jobs@
    &&& after.movers@ == before.movers@
}

/// `after` is `before` with `step` appended to its jobs queue.
pub open spec fn posted_one(before: Backends, after: Backends, step: JobStep) -> bool {
    &&& after.jobs@ == before.jobs@.push(step)
    &&& after.movers@ == before.movers@
    &&& after.render_flags.lights_changed == before.render_flags.lights_changed
    &&& after.render_flags.models_changed == before.render_flags.models_changed
    &&& after.render_flags.terrain_changed == before.render_flags.terrain_changed
    &&& after.render_flags.dirty_tiles@ == before.render_flags.dirty_tiles@
}

/// Forgets all pending render work.
pub fn reset(b: &mut Backends)
    ensures
        final(b).render_flags.is_clear(),
        flags_only(*old(b), *final(b)),
{
    b.render_flags.reset();
}

/// Voxel models moved: models must be redrawn.
pub fn vox_moved(b: &mut Backends)
    ensures
        final(b).render_flags.models_changed,
        final(b).render_flags.lights_changed == old(b).render_flags.lights_changed,
        final(b).render_flags.terrain_changed == old(b).render_flags.terrain_changed,
        final(b).render_flags.dirty_tiles@ == old(b).render_flags.dirty_tiles@,
        flags_only(*old(b), *final(b)),
{
    b.render_flags.models_changed = true;
}

/// Tile `idx` changed shape: the terrain must be rebuilt there.
pub fn geometry_changed(b: &mut Backends, idx: usize)
    ensures
        final(b).render_flags.terrain_changed,
        final(b).render_flags.lights_changed == old(b).render_flags.lights_changed,
        final(b).render_flags.models_changed == old(b).render_flags.models_changed,
        final(b).render_flags.dirty_tiles@ == old(b).render_flags.dirty_tiles@.push(idx),
        flags_only(*old(b), *final(b)),
{
    b.render_flags.terrain_changed = true;
    b.render_flags.dirty_tiles.push(idx);
}

/// A copy of the pending render work.
pub fn get_render_flags(b: &Backends) -> (f: RenderFlags)
    ensures
        f.lights_changed == b.render_flags.lights_changed,
        f.models_changed == b.render_flags.models_changed,
        f.terrain_changed == b.render_flags.terrain_changed,
        f.dirty_tiles@ == b.render_flags.dirty_tiles@,
{
    b.render_flags.copy()
}

/// Posts that entity `id` moved to `end`.
pub fn entity_moved(b: &mut Backends, id: usize, end: &Point3)
    ensures
        posted_one(*old(b), *final(b), JobStep::EntityMoved { id, end: *end }),
{
    b.jobs.push_back(JobStep::EntityMoved { id, end: *end });
}

/// Posts that entity `id` now has the job `new_job`.
pub fn job_changed(b: &mut Backends, id: usize, new_job: JobType)
    ensures
        posted_one(*old(b), *final(b), JobStep::JobChanged { id, new_job }),
{
    b.jobs.push_back(JobStep::JobChanged { id, new_job });
}

/// Posts that the job of entity `id` was cancelled.
pub fn cancel_job(b: &mut Backends, id: usize)
    ensures
        posted_one(*old(b), *final(b), JobStep::JobCancelled { id }),
{
    b.jobs.push_back(JobStep::JobCancelled { id });
}

/// Posts that the job of entity `id` is finished.
pub fn conclude_job(b: &mut Backends, id: usize)
    ensures
        posted_one(*old(b), *final(b), JobStep::JobConcluded { id }),
{
    b.jobs.push_back(JobStep::JobConcluded { id });
}

/// Posts that entity `id` takes the next step of its job's path.
pub fn follow_job_path(b: &mut Backends, id: usize)
    ensures
        posted_one(*old(b), *final(b), JobStep::FollowJobPath { id }),
{
    b.jobs.push_back(JobStep::FollowJobPath { id });
}

/// Posts that item `id` is put on the ground at tile `location`.
pub fn drop_item(b: &mut Backends, id: usize, location: usize)
    ensures
        posted_one(*old(b), *final(b), JobStep::DropItem { id, location }),
{
    b.jobs.push_back(JobStep::DropItem { id, location });
}

/// Posts that the claim on tool `tool_id` is given up.
pub fn relinquish_claim(b: &mut Backends, tool_id: usize)
    ensures
        posted_one(*old(b), *final(b), JobStep::RelinquishClaim { tool_id }),
{
    b.jobs.push_back(JobStep::RelinquishClaim { tool_id });
}

/// Posts that entity `id` picks up tool `tool_id`.
pub fn equip_tool(b: &mut Backends, id: usize, tool_id: usize)
    ensures
        posted_one(*old(b), *final(b), JobStep::EquipItem { id, tool_id }),
{
    b.jobs.push_back(JobStep::EquipItem { id, tool_id });
}

/// Posts that entity `id` chops tree `tree_id`.
pub fn chop_tree(b: &mut Backends, id: usize, tree_id: usize)
    ensures
        posted_one(*old(b), *final(b), JobStep::TreeChop { id, tree_id }),
{
    b.jobs.push_back(JobStep::TreeChop { id, tree_id });
}

/// Takes the next message that must be applied to the world, first
/// recording any moves at the front of the queue in the movers map;
/// `None` once the queue is empty.
pub fn next_job(b: &mut Backends) -> (r: Option<JobStep>)
    ensures
        ({
            let steps = old(b).jobs@;
            let n = moves_prefix(steps);
            &&& 0 <= n <= steps.len()
            &&& final(b).movers@ == record_moves(old(b).movers@, steps.take(n))
            &&& final(b).render_flags == old(b).render_flags
            &&& if n < steps.len() {
                &&& !(steps[n] is EntityMoved)
                &&& r == Some(steps[n])
                &&& final(b).jobs@ == steps.skip(n + 1)
            } else {
                &&& r is None
                &&& final(b).jobs@ == Seq::<JobStep>::empty()
            }
        }),
{
    let ghost steps = b.jobs@;
    let ghost mut i: int = 0;
    loop
        invariant
            0 <= i <= steps.len(),
            steps == old(b).jobs@,
            b.jobs@ == steps.skip(i),
            b.render_flags == old(b).render_flags,
            forall|j: int| 0 <= j < i ==> #[trigger] steps[j] is EntityMoved,
            b.movers@ == record_moves(old(b).movers@, steps.take(i)),
        decreases steps.len() - i,
    {
        match b.jobs.pop_front() {
            None => {
                proof {
                    lemma_moves_prefix(steps, i);
                }
                return None;
            },
            Some(js) => {
                assert(js == steps[i]);
                assert(steps.take(i + 1).drop_last() =~= steps.take(i));
                assert(steps.skip(i + 1) =~= steps.skip(i).drop_first());
                match js {
                    JobStep::EntityMoved { id, end } => {
                        b.movers.insert(id, (end.x as usize, end.y as usize, end.z as usize));
                        proof {
                            i = i + 1;
                        }
                    },
                    other => {
                        proof {
                            lemma_moves_prefix(steps, i);
                        }
                        return Some(other);
                    },
                }
            },
        }
    }
}

/// The movers map after recording each move among `steps`, in order.
pub open spec fn record_moves(m: Map<usize, (usize, usize, usize)>, steps: Seq<JobStep>) -> Map<usize, (usize, usize, usize)>
    decreases steps.len(),
{
    if steps.len() == 0 {
        m
    } else {
        let before = record_moves(m, steps.drop_last());
        match steps.last() {
            JobStep::EntityMoved { id, end } => before.insert(id, (end.x as usize, end.y as usize, end.z as usize)),
            _ => before,
        }
    }
}

/// How many moves lead the queue.
pub open spec fn moves_prefix(steps: Seq<JobStep>) -> int
    decreases steps.len(),
{
    if steps.len() == 0 {
        0
    } else if steps[0] is EntityMoved {
        1 + moves_prefix(steps.drop_first())
    } else {
        0
    }
}

proof fn lemma_moves_prefix(steps: Seq<JobStep>, i: int)
    requires
        0 <= i <= steps.len(),
        forall|j: int| 0 <= j < i ==> #[trigger] steps[j] is EntityMoved,
        i == steps.len() || !(steps[i] is EntityMoved),
    ensures
        moves_prefix(steps) == i,
    decreases steps.len(),
{
    if steps.len() > 0 && i > 0 {
        let rest = steps.drop_first();
        assert forall|j: int| 0 <= j < i - 1 implies #[trigger] rest[j] is EntityMoved by {
            assert(rest[j] == steps[j + 1]);
        }
        if i < steps.len() {
            assert(rest[i - 1] == steps[i]);
        }
        lemma_moves_prefix(rest, i - 1);
    }
}

/// Starts draining: the movers of the previous tick are forgotten.
pub fn start_drain(b: &mut Backends)
    ensures
        final(b).jobs@ == old(b).jobs@,
        final(b).render_flags == old(b).render_flags,
        final(b).movers@ == Map::<usize, (usize, usize, usize)>::empty(),
{
    b.movers.clear();
}

/// Tile `t` is part of tree `tree_id`.
pub open spec fn is_tree_tile(t: TileType, tree_id: usize) -> bool {
    match t {
        TileType::TreeTrunk { tree_id: id } => id == tree_id,
        TileType::TreeFoliage { tree_id: id } => id == tree_id,
        _ => false,
    }
}

/// The indices among the first `n` tiles that belong to tree `tree_id`, in
/// increasing order.
pub open spec fn tree_tiles(tiles: Seq<TileType>, tree_id: usize, n: int) -> Seq<usize>
    decreases n,
{
    if n <= 0 {
        Seq::empty()
    } else {
        tree_tiles(tiles, tree_id, n - 1) + if is_tree_tile(tiles[n - 1], tree_id) {
            seq![(n - 1) as usize]
        } else {
            Seq::empty()
        }
    }
}

/// A tree is felled: every tile of it becomes empty and is reported as
/// changed geometry, in increasing index order, and voxel models moved.
/// Returns the lowest index of the tree's tiles (where its logs fall), or
/// `usize::MAX` if no tile belongs to it.
pub fn fell_tree_tiles(b: &mut Backends, region: &mut Region, tree_id: usize) -> (tree_idx: usize)
    requires
        old(region).wf(),
    ensures
        final(region).wf(),
        final(region).tile_types@.len() == old(region).tile_types@.len(),
        forall|i: int| 0 <= i < old(region).tile_types@.len() ==> #[trigger] final(region).tile_types@[i] == if is_tree_tile(old(region).tile_types@[i], tree_id) {
            TileType::Empty
        } else {
            old(region).tile_types@[i]
        },
        final(region).revealed@ == old(region).revealed@,
        final(region).water_level@ == old(region).water_level@,
        final(region).material_idx@ == old(region).material_idx@,
        final(region).constructed@ == old(region).constructed@,
        ({
            let felled = tree_tiles(old(region).tile_types@, tree_id, old(region).tile_types@.len() as int);
            &&& final(b).render_flags.dirty_tiles@ == old(b).render_flags.dirty_tiles@ + felled
            &&& final(b).render_flags.terrain_changed == (old(b).render_flags.terrain_changed || felled.len() > 0)
            &&& tree_idx == if felled.len() > 0 { felled[0] } else { usize::MAX }
        }),
        final(b).render_flags.models_changed,
        final(b).render_flags.lights_changed == old(b).render_flags.lights_changed,
        flags_only(*old(b), *final(b)),
{
    let mut tree_idx: usize = usize::MAX;
    let n = region.tile_types.len();
    let ghost tiles0 = region.tile_types@;
    let mut i: usize = 0;
    while i < n
        invariant
            i <= n,
            n == tiles0.len(),
            region.wf(),
            region.tile_types@.len() == n,
            region.revealed@ == old(region).revealed@,
            region.water_level@ == old(region).water_level@,
            region.material_idx@ == old(region).material_idx@,
            region.constructed@ == old(region).constructed@,
            tiles0 == old(region).tile_types@,
            forall|j: int| 0 <= j < i ==> #[trigger] region.tile_types@[j] == if is_tree_tile(tiles0[j], tree_id) { TileType::Empty } else { tiles0[j] },
            forall|j: int| i <= j < n ==> #[trigger] region.tile_types@[j] == tiles0[j],
            b.render_flags.dirty_tiles@ == old(b).render_flags.dirty_tiles@ + tree_tiles(tiles0, tree_id, i as int),
            b.render_flags.terrain_changed == (old(b).render_flags.terrain_changed || tree_tiles(tiles0, tree_id, i as int).len() > 0),
            b.render_flags.models_changed == old(b).render_flags.models_changed,
            b.render_flags.lights_changed == old(b).render_flags.lights_changed,
            flags_only(*old(b), *b),
            tree_idx == if tree_tiles(tiles0, tree_id, i as int).len() > 0 { tree_tiles(tiles0, tree_id, i as int)[0] } else { usize::MAX },
        decreases n - i,
    {
        let hit = match region.tile_types[i] {
            TileType::TreeTrunk { tree_id: id } => id == tree_id,
            TileType::TreeFoliage { tree_id: id } => id == tree_id,
            _ => false,
        };
        proof {
            assert(tree_tiles(tiles0, tree_id, i + 1) == tree_tiles(tiles0, tree_id, i as int) + if is_tree_tile(tiles0[i as int], tree_id) {
                seq![i]
            } else {
                Seq::<usize>::empty()
            });
        }
        if hit {
            if i < tree_idx {
                tree_idx = i;
            }
            region.tile_types.set(i, TileType::Empty);
            geometry_changed(b, i);
            proof {
                lemma_tree_tiles_below(tiles0, tree_id, i as int);
            }
        }
        proof {
            assert(b.render_flags.dirty_tiles@ =~= old(b).render_flags.dirty_tiles@ + tree_tiles(tiles0, tree_id, i + 1));
        }
        i = i + 1;
    }
    vox_moved(b);
    tree_idx
}

proof fn lemma_tree_tiles_below(tiles: Seq<TileType>, tree_id: usize, n: int)
    ensures
        forall|k: int| 0 <= k < tree_tiles(tiles, tree_id, n).len() ==> #[trigger] tree_tiles(tiles, tree_id, n)[k] < n,
        tree_tiles(tiles, tree_id, n).len() <= (if n > 0 { n } else { 0 }),
    decreases n,
{
    if n > 0 {
        lemma_tree_tiles_below(tiles, tree_id, n - 1);
        let prev = tree_tiles(tiles, tree_id, n - 1);
        let cur = tree_tiles(tiles, tree_id, n);
        assert forall|k: int| 0 <= k < cur.len() implies #[trigger] cur[k] < n by {
            if k < prev.len() {
                assert(cur[k] == prev[k]);
            }
        }
    }
}

} // verus!
