//! Draining the jobs queue at the end of a tick. Render notifications and
//! moves are absorbed here; every other message is handed out, one at a
//! time, to be applied to the world, which may post further messages that
//! the same drain then sees.

pub mod pathing;
pub mod mining;
pub mod lumber;
pub mod job_designations;
pub mod world;
pub mod drain;

use vstd::prelude::*;
use std::collections::HashMap;
use super::{MessageQueues, posted, dirty_block, block_neighbour, remove_haul_tag, lights_changed, delete_item, spawn_item, vox_moved};
use crate::components::{JobType, Point3};
use crate::distance::{sq_dist, distance_squared};
use super::job_step::JobStep;
use crate::playgame::GameStateResource;

verus! {

broadcast use vstd::std_specs::hash::group_hash_axioms;

/// What a drain has gathered so far: the three render notifications, the
/// tiles to redraw, and where moved entities end up.
pub struct QueueDrain {
    pub vox_moved: bool,
    pub models_moved: bool,
    pub lights_changed: bool,
    pub tiles_dirty: Vec<usize>,
}

/// The drain state in mathematical form.
pub type DrainState = (bool, bool, bool, Seq<usize>, Map<usize, (usize, usize, usize)>);

/// The drain state of `d` together with the movers of `q`.
pub open spec fn drain_state(d: QueueDrain, movers: Map<usize, (usize, usize, usize)>) -> DrainState {
    (d.vox_moved, d.models_moved, d.lights_changed, d.tiles_dirty@, movers)
}

/// Messages that the drain itself takes care of.
pub open spec fn absorbed(js: JobStep) -> bool {
    match js {
        JobStep::VoxMoved => true,
        JobStep::ModelsMoved => true,
        JobStep::LightsChanged => true,
        JobStep::TileDirty { .. } => true,
        JobStep::EntityMoved { .. } => true,
        _ => false,
    }
}

/// The tile that a move to `end` lands on.
pub open spec fn move_target(end: crate::components::Point3) -> (usize, usize, usize) {
    (end.x as usize, end.y as usize, end.z as usize)
}

/// The drain state after taking `js` into account.
pub open spec fn absorb(s: DrainState, js: JobStep) -> DrainState {
    match js {
        JobStep::VoxMoved => (true, s.1, s.2, s.3, s.4),
        JobStep::ModelsMoved => (s.0, true, s.2, s.3, s.4),
        JobStep::LightsChanged => (s.0, s.1, true, s.3, s.4),
        JobStep::TileDirty { pos } => (true, s.1, true, s.3.push(pos), s.4),
        JobStep::EntityMoved { id, end } => (s.0, s.1, s.2, s.3, s.4.insert(id, move_target(end))),
        _ => s,
    }
}

/// The drain state after taking each of `steps` into account, in order.
pub open spec fn absorb_all(s: DrainState, steps: Seq<JobStep>) -> DrainState
    decreases steps.len(),
{
    if steps.len() == 0 {
        s
    } else {
        absorb(absorb_all(s, steps.drop_last()), steps.last())
    }
}

/// How many messages at the front of `steps` the drain absorbs before it
/// meets one to hand out.
pub open spec fn absorbed_prefix(steps: Seq<JobStep>) -> int
    decreases steps.len(),
{
    if steps.len() == 0 {
        0
    } else if absorbed(steps[0]) {
        1 + absorbed_prefix(steps.drop_first())
    } else {
        0
    }
}

proof fn lemma_absorbed_prefix(steps: Seq<JobStep>, i: int)
    requires
        0 <= i <= steps.len(),
        forall|j: int| 0 <= j < i ==> absorbed(#[trigger] steps[j]),
        i == steps.len() || !absorbed(steps[i]),
    ensures
        absorbed_prefix(steps) == i,
    decreases steps.len(),
{
    if steps.len() > 0 && i > 0 {
        let rest = steps.drop_first();
        assert forall|j: int| 0 <= j < i - 1 implies absorbed(#[trigger] rest[j]) by {
            assert(rest[j] == steps[j + 1]);
        }
        if i < steps.len() {
            assert(rest[i - 1] == steps[i]);
        }
        lemma_absorbed_prefix(rest, i - 1);
    }
}

/// Starts draining: the movers of the previous tick are forgotten and no
/// notification is pending.
pub fn start_drain(queues: &mut MessageQueues) -> (d: QueueDrain)
    ensures
        final(queues).jobs@ == old(queues).jobs@,
        final(queues).movers@ == Map::<usize, (usize, usize, usize)>::empty(),
        drain_state(d, final(queues).movers@) == (false, false, false, Seq::<usize>::empty(), Map::<usize, (usize, usize, usize)>::empty()),
{
    queues.movers.clear();
    QueueDrain { vox_moved: false, models_moved: false, lights_changed: false, tiles_dirty: Vec::new() }
}

/// Takes messages from the front of the jobs queue, absorbing
/// notifications, dirty tiles and moves, until it meets one that must be
/// applied to the world, which it returns; `None` once the queue is empty.
pub fn next_job(queues: &mut MessageQueues, drain: &mut QueueDrain) -> (r: Option<JobStep>)
    ensures
        ({
            let steps = old(queues).jobs@;
            let n = absorbed_prefix(steps);
            &&& 0 <= n <= steps.len()
            &&& forall|j: int| 0 <= j < n ==> absorbed(#[trigger] steps[j])
            &&& drain_state(*final(drain), final(queues).movers@)
                == absorb_all(drain_state(*old(drain), old(queues).movers@), steps.take(n))
            &&& if n < steps.len() {
                &&& !absorbed(steps[n])
                &&& r == Some(steps[n])
                &&& final(queues).jobs@ == steps.skip(n + 1)
            } else {
                &&& r is None
                &&& final(queues).jobs@ == Seq::<JobStep>::empty()
            }
        }),
{
    let ghost steps = queues.jobs@;
    let ghost init = drain_state(*drain, queues.movers@);
    let ghost mut i: int = 0;
    loop
        invariant
            0 <= i <= steps.len(),
            queues.jobs@ == steps.skip(i),
            forall|j: int| 0 <= j < i ==> absorbed(#[trigger] steps[j]),
            drain_state(*drain, queues.movers@) == absorb_all(init, steps.take(i)),
            steps == old(queues).jobs@,
            init == drain_state(*old(drain), old(queues).movers@),
        decreases steps.len() - i,
    {
        let js = queues.jobs.pop_front();
        match js {
            None => {
                assert(steps.skip(i).len() == 0);
                proof {
                    lemma_absorbed_prefix(steps, i);
                }
                return None;
            },
            Some(js) => {
                assert(js == steps[i]);
                assert(steps.take(i + 1).drop_last() =~= steps.take(i));
                assert(steps.skip(i + 1) =~= steps.skip(i).drop_first());
                match js {
                    JobStep::VoxMoved => {
                        drain.vox_moved = true;
                    },
                    JobStep::ModelsMoved => {
                        drain.models_moved = true;
                    },
                    JobStep::LightsChanged => {
                        drain.lights_changed = true;
                    },
                    JobStep::TileDirty { pos } => {
                        drain.tiles_dirty.push(pos);
                        drain.vox_moved = true;
                        drain.lights_changed = true;
                    },
                    JobStep::EntityMoved { id, end } => {
                        queues.movers.insert(id, (end.x as usize, end.y as usize, end.z as usize));
                    },
                    other => {
                        proof {
                            lemma_absorbed_prefix(steps, i);
                        }
                        return Some(other);
                    },
                }
                proof {
                    i = i + 1;
                }
            },
        }
    }
}

/// An entity that can be moved: its id, the tile it stands on, and whether
/// its field of view must be recomputed.
#[derive(Clone, Copy, Debug, PartialEq, Eq)]
pub struct MovingEntity {
    pub id: usize,
    pub tile: (usize, usize, usize),
    pub fov_dirty: bool,
}

/// Moves the entities recorded in the movers map: if any entity moved, the
/// voxel models are flagged as moved; each entity whose id is in the map
/// stands on its recorded tile and must recompute its field of view; the
/// others are unchanged.
pub fn movers(queues: &MessageQueues, entities: &mut Vec<MovingEntity>, gs: &mut GameStateResource)
    ensures
        final(gs).vox_moved == (old(gs).vox_moved || !queues.movers@.is_empty()),
        final(gs).models_moved == old(gs).models_moved,
        final(gs).lights_changed == old(gs).lights_changed,
        final(gs).camera_changed == old(gs).camera_changed,
        final(gs).keycode == old(gs).keycode,
        final(gs).dirty_tiles@ == old(gs).dirty_tiles@,
        final(entities)@.len() == old(entities)@.len(),
        forall|i: int| 0 <= i < old(entities)@.len() ==> #[trigger] final(entities)@[i] == if queues.movers@.contains_key(old(entities)@[i].id) {
            MovingEntity { id: old(entities)@[i].id, tile: queues.movers@[old(entities)@[i].id], fov_dirty: true }
        } else {
            old(entities)@[i]
        },
{
    if !queues.movers.is_empty() {
        gs.vox_moved = true;
        let mut i: usize = 0;
        while i < entities.len()
            invariant
                !queues.movers@.is_empty(),
                i <= entities@.len(),
                entities@.len() == old(entities)@.len(),
                forall|j: int| 0 <= j < i ==> #[trigger] entities@[j] == if queues.movers@.contains_key(old(entities)@[j].id) {
                    MovingEntity { id: old(entities)@[j].id, tile: queues.movers@[old(entities)@[j].id], fov_dirty: true }
                } else {
                    old(entities)@[j]
                },
                forall|j: int| i <= j < entities@.len() ==> #[trigger] entities@[j] == old(entities)@[j],
            decreases entities@.len() - i,
        {
            let e = entities[i];
            match queues.movers.get(&e.id) {
                Some(destination) => {
                    entities.set(i, MovingEntity { id: e.id, tile: *destination, fov_dirty: true });
                },
                None => {},
            }
            i = i + 1;
        }
    } else {
        assert forall|i: int| 0 <= i < old(entities)@.len() implies !queues.movers@.contains_key(#[trigger] old(entities)@[i].id) by {
            assert(queues.movers@.dom() =~= Set::<usize>::empty());
        }
    }
}

/// Ends a drain: the notifications gathered are raised on `gs`, and, when
/// any was gathered, the dirty tiles are appended to those already pending.
pub fn finish_drain(drain: QueueDrain, gs: &mut GameStateResource)
    ensures
        final(gs).vox_moved == (old(gs).vox_moved || drain.vox_moved),
        final(gs).models_moved == (old(gs).models_moved || drain.models_moved),
        final(gs).lights_changed == (old(gs).lights_changed || drain.lights_changed),
        final(gs).dirty_tiles@ == if drain.vox_moved || drain.models_moved || drain.lights_changed {
            old(gs).dirty_tiles@ + drain.tiles_dirty@
        } else {
            old(gs).dirty_tiles@
        },
        final(gs).camera_changed == old(gs).camera_changed,
        final(gs).keycode == old(gs).keycode,
{
    if drain.vox_moved || drain.models_moved || drain.lights_changed {
        if drain.vox_moved {
            gs.vox_moved = true;
        }
        if drain.models_moved {
            gs.models_moved = true;
        }
        if drain.lights_changed {
            gs.lights_changed = true;
        }
        if drain.tiles_dirty.len() > 0 {
            let ghost before = gs.dirty_tiles@;
            let ghost flags = (gs.keycode, gs.camera_changed, gs.vox_moved, gs.models_moved, gs.lights_changed);
            let mut i: usize = 0;
            while i < drain.tiles_dirty.len()
                invariant
                    i <= drain.tiles_dirty@.len(),
                    flags == (gs.keycode, gs.camera_changed, gs.vox_moved, gs.models_moved, gs.lights_changed),
                    gs.dirty_tiles@ == before + drain.tiles_dirty@.take(i as int),
                decreases drain.tiles_dirty@.len() - i,
            {
                gs.dirty_tiles.push(drain.tiles_dirty[i]);
                i = i + 1;
                assert(gs.dirty_tiles@ =~= before + drain.tiles_dirty@.take(i as int));
            }
            assert(drain.tiles_dirty@.take(i as int) =~= drain.tiles_dirty@);
        } else {
            assert(gs.dirty_tiles@ =~= gs.dirty_tiles@ + drain.tiles_dirty@);
        }
    }
}

/// A settler's job ends: a hauled item stops asking to be hauled, and the
/// settler is left without a job.
pub fn job_concluded(queues: &mut MessageQueues, job: &mut JobType)
    ensures
        *final(job) == JobType::NoJob,
        match *old(job) {
            JobType::Haul { item_id, .. } => posted(*old(queues), *final(queues), seq![JobStep::RemoveHaulTag { id: item_id }]),
            _ => posted(*old(queues), *final(queues), Seq::<JobStep>::empty()),
        },
{
    match job {
        JobType::Haul { item_id, .. } => {
            remove_haul_tag(queues, *item_id);
        },
        _ => {
            assert(queues.jobs@ =~= old(queues).jobs@ + Seq::<JobStep>::empty());
        },
    }
    *job = JobType::NoJob;
}

/// A settler's job is cancelled: the settler is left without a job.
pub fn job_cancelled(job: &mut JobType)
    ensures
        *final(job) == JobType::NoJob,
{
    *job = JobType::NoJob;
}

/// The messages that deleting each of `items` posts, in order.
pub open spec fn delete_all(items: Seq<usize>) -> Seq<JobStep> {
    Seq::new(items.len(), |i: int| JobStep::DeleteItem { id: items[i] })
}

fn post_deletes(queues: &mut MessageQueues, items: &Vec<usize>)
    ensures
        posted(*old(queues), *final(queues), delete_all(items@)),
{
    let mut i: usize = 0;
    while i < items.len()
        invariant
            i <= items@.len(),
            posted(*old(queues), *queues, delete_all(items@.take(i as int))),
        decreases items@.len() - i,
    {
        delete_item(queues, items[i]);
        i = i + 1;
        assert(delete_all(items@.take(i as int)) =~= delete_all(items@.take(i - 1)).push(JobStep::DeleteItem { id: items@[i - 1] }));
        assert(queues.jobs@ =~= old(queues).jobs@ + delete_all(items@.take(i as int)));
    }
    assert(items@.take(i as int) =~= items@);
}

/// A building is finished: if it carries a light, lights changed; the items
/// its blueprint consumed are deleted.
pub fn building_finished(queues: &mut MessageQueues, has_light: bool, blueprint_items: Option<&Vec<usize>>)
    ensures
        posted(*old(queues), *final(queues),
            (if has_light { seq![JobStep::LightsChanged] } else { Seq::<JobStep>::empty() })
            + match blueprint_items { Some(items) => delete_all(items@), None => Seq::<JobStep>::empty() }),
{
    let ghost start = queues.jobs@;
    if has_light {
        lights_changed(queues);
    }
    let ghost mid = queues.jobs@;
    match blueprint_items {
        Some(items) => {
            post_deletes(queues, items);
        },
        None => {},
    }
    assert(queues.jobs@ =~= start
        + ((if has_light { seq![JobStep::LightsChanged] } else { Seq::<JobStep>::empty() })
        + match blueprint_items { Some(items) => delete_all(items@), None => Seq::<JobStep>::empty() }));
}

/// The material of a reaction's products: that of its first component, or
/// material 0 when it has none or the first component has no material.
pub fn reaction_material(required_items: &Vec<usize>, first_material: Option<usize>) -> (m: usize)
    ensures
        m == (if required_items@.len() == 0 {
            0
        } else {
            match first_material { Some(f) => f, None => 0 }
        }),
{
    if required_items.len() == 0 {
        0
    } else {
        match first_material {
            Some(f) => f,
            None => 0,
        }
    }
}

/// The messages that spawning each of `outputs` on tile `pos` posts.
pub open spec fn spawn_all(outputs: Seq<(String, i32)>, pos: usize, material: usize) -> Seq<JobStep> {
    Seq::new(outputs.len(), |i: int| JobStep::SpawnItem { pos, tag: outputs[i].0, qty: outputs[i].1, material })
}

/// A reaction is carried out at tile `pos`: its components are deleted, each
/// of its outputs (when the reaction is known) is spawned there in
/// `material`, and voxel models moved.
pub fn reaction_performed(
    queues: &mut MessageQueues,
    required_items: &Vec<usize>,
    material: usize,
    pos: usize,
    outputs: Option<&Vec<(String, i32)>>,
)
    ensures
        posted(*old(queues), *final(queues),
            delete_all(required_items@)
            + match outputs { Some(o) => spawn_all(o@, pos, material), None => Seq::<JobStep>::empty() }
            + seq![JobStep::VoxMoved]),
{
    let ghost start = queues.jobs@;
    post_deletes(queues, required_items);
    let ghost mid = queues.jobs@;
    match outputs {
        Some(o) => {
            let mut i: usize = 0;
            while i < o.len()
                invariant
                    i <= o@.len(),
                    queues.movers@ == old(queues).movers@,
                    queues.jobs@ == mid + spawn_all(o@.take(i as int), pos, material),
                decreases o@.len() - i,
            {
                let (tag, qty) = (&o[i].0, &o[i].1);
                spawn_item(queues, &pos, tag, qty, material);
                i = i + 1;
                assert(spawn_all(o@.take(i as int), pos, material) =~= spawn_all(o@.take(i - 1), pos, material).push(
                    JobStep::SpawnItem { pos, tag: o@[i - 1].0, qty: o@[i - 1].1, material }));
                assert(queues.jobs@ =~= queues.jobs@.take(queues.jobs@.len() - 1).push(queues.jobs@.last()));
                assert(queues.jobs@ =~= mid + spawn_all(o@.take(i as int), pos, material));
            }
            assert(o@.take(i as int) =~= o@);
        },
        None => {},
    }
    vox_moved(queues);
    assert(queues.jobs@ =~= start
        + (delete_all(required_items@)
        + match outputs { Some(o) => spawn_all(o@, pos, material), None => Seq::<JobStep>::empty() }
        + seq![JobStep::VoxMoved]));
}

/// A blueprint is ready when every component lies within one tile step
/// (distance at most 1.4, so no diagonal) of it.
pub fn blueprint_ready(blueprint_pos: &Point3, component_positions: &Vec<Point3>) -> (ready: bool)
    ensures
        ready == forall|i: int| 0 <= i < component_positions@.len()
            ==> sq_dist(*blueprint_pos, #[trigger] component_positions@[i]) <= 1,
{
    let mut is_ready = true;
    let mut i: usize = 0;
    while i < component_positions.len()
        invariant
            i <= component_positions@.len(),
            is_ready == forall|j: int| 0 <= j < i ==> sq_dist(*blueprint_pos, #[trigger] component_positions@[j]) <= 1,
        decreases component_positions@.len() - i,
    {
        let d = distance_squared(blueprint_pos, &component_positions[i]);
        if d > 1 {
            is_ready = false;
        }
        i = i + 1;
    }
    is_ready
}

/// Draining the messages `a` and then the messages `b` leaves the same
/// drain state as draining `a` followed by `b` at once: successive calls of
/// `next_job` over a queue add up to the drain of the whole queue.
pub proof fn lemma_absorb_all_concat(s: DrainState, a: Seq<JobStep>, b: Seq<JobStep>)
    ensures
        absorb_all(s, a + b) == absorb_all(absorb_all(s, a), b),
    decreases b.len(),
{
    if b.len() == 0 {
        assert(a + b =~= a);
    } else {
        lemma_absorb_all_concat(s, a, b.drop_last());
        assert((a + b).drop_last() =~= a + b.drop_last());
        assert((a + b).last() == b.last());
    }
}

/// The tiles named by a sequence of redraw messages.
pub open spec fn dirty_positions(steps: Seq<JobStep>) -> Seq<usize> {
    Seq::new(steps.len(), |i: int| match steps[i] { JobStep::TileDirty { pos } => pos, _ => 0 })
}

/// Draining a run of redraw messages raises the voxel and light
/// notifications (if the run is not empty), leaves the model notification
/// and the movers alone, and queues the run's tiles, in order, for redrawing.
pub proof fn lemma_drain_dirty_tiles(s: DrainState, steps: Seq<JobStep>)
    requires
        forall|i: int| 0 <= i < steps.len() ==> #[trigger] steps[i] is TileDirty,
    ensures
        absorb_all(s, steps) == (
            if steps.len() > 0 { true } else { s.0 },
            s.1,
            if steps.len() > 0 { true } else { s.2 },
            s.3 + dirty_positions(steps),
            s.4,
        ),
    decreases steps.len(),
{
    if steps.len() > 0 {
        let front = steps.drop_last();
        assert forall|i: int| 0 <= i < front.len() implies #[trigger] front[i] is TileDirty by {
            assert(front[i] == steps[i]);
        }
        lemma_drain_dirty_tiles(s, front);
        assert(steps.last() is TileDirty);
        assert(dirty_positions(steps) =~= dirty_positions(front).push(dirty_positions(steps).last()));
    } else {
        assert(s.3 + dirty_positions(steps) =~= s.3);
    }
}

/// What `tile_dirty(pos)` posts is, once drained, the block around `pos`
/// followed by `pos` itself in the dirty tiles, with voxels and lights
/// flagged.
pub proof fn lemma_tile_dirty_drains_to_block(s: DrainState, pos: int)
    ensures
        absorb_all(s, dirty_block(pos)) == (
            true,
            s.1,
            true,
            s.3 + Seq::new(27, |k: int| block_neighbour(pos, k) as usize).push(pos as usize),
            s.4,
        ),
{
    let b = dirty_block(pos);
    assert forall|i: int| 0 <= i < b.len() implies #[trigger] b[i] is TileDirty by {}
    lemma_drain_dirty_tiles(s, b);
    assert(dirty_positions(b) =~= Seq::new(27, |k: int| block_neighbour(pos, k) as usize).push(pos as usize));
}

/// Messages come out of the queue in the order they were posted: behind a
/// run of absorbed messages, the first world change posted is the one the
/// drain hands out, and the rest stay queued behind it.
pub proof fn lemma_first_change_handed_out(absorbed_run: Seq<JobStep>, change: JobStep, rest: Seq<JobStep>)
    requires
        forall|i: int| 0 <= i < absorbed_run.len() ==> absorbed(#[trigger] absorbed_run[i]),
        !absorbed(change),
    ensures
        absorbed_prefix(absorbed_run.push(change) + rest) == absorbed_run.len(),
        (absorbed_run.push(change) + rest)[absorbed_run.len() as int] == change,
        (absorbed_run.push(change) + rest).skip(absorbed_run.len() as int + 1) == rest,
{
    let all = absorbed_run.push(change) + rest;
    assert forall|j: int| 0 <= j < absorbed_run.len() implies absorbed(#[trigger] all[j]) by {
        assert(all[j] == absorbed_run[j]);
    }
    assert(all[absorbed_run.len() as int] == change);
    lemma_absorbed_prefix(all, absorbed_run.len() as int);
    assert(all.skip(absorbed_run.len() as int + 1) =~= rest);
}

} // verus!
