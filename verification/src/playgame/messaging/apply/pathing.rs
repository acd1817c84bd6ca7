//! Walking a job's travel path one tile at a time.

use vstd::prelude::*;
use crate::components::{JobType, CollectToolSteps, BuildingSteps, HaulSteps, job_path, job_with_path};
use crate::spatial::{idxmap, spec_idxmap};
use crate::playgame::messaging::MessageQueues;

verus! {

broadcast use vstd::std_specs::hash::group_hash_axioms;

/// The tile coordinates of flat index `idx`, as stored in the movers map.
pub open spec fn tile_of(idx: usize) -> (usize, usize, usize) {
    (spec_idxmap(idx as int).0 as usize, spec_idxmap(idx as int).1 as usize, spec_idxmap(idx as int).2 as usize)
}

fn step_along(queues: &mut MessageQueues, id: usize, path: &mut Vec<usize>)
    requires
        old(path)@.len() > 0,
    ensures
        final(path)@ == old(path)@.drop_first(),
        final(queues).jobs@ == old(queues).jobs@,
        final(queues).movers@ == old(queues).movers@.insert(id, tile_of(old(path)@[0])),
{
    let destination = path[0];
    path.remove(0);
    let (x, y, z) = idxmap(destination);
    queues.movers.insert(id, (x, y, z));
}

/// Moves entity `id` one step along the path of its job's current step:
/// the first tile of the path is taken off it and recorded as where the
/// entity moves to. A job whose current step is not a walk is left alone.
pub fn follow_path(queues: &mut MessageQueues, id: usize, job: &mut JobType)
    requires
        job_path(*old(job)) matches Some(p) ==> p.len() > 0,
    ensures
        final(queues).jobs@ == old(queues).jobs@,
        match job_path(*old(job)) {
            None => {
                &&& *final(job) == *old(job)
                &&& final(queues).movers@ == old(queues).movers@
            },
            Some(p) => {
                &&& job_with_path(*old(job), *final(job), p.drop_first())
                &&& final(queues).movers@ == old(queues).movers@.insert(id, tile_of(p[0]))
            },
        },
{
    match job {
        JobType::CollectTool { step, .. } => match step {
            CollectToolSteps::TravelToTool { path } => step_along(queues, id, path),
            _ => {},
        },
        JobType::ConstructBuilding { step, .. } => match step {
            BuildingSteps::TravelToBuilding { path } => step_along(queues, id, path),
            _ => {},
        },
        JobType::Haul { step, .. } => match step {
            HaulSteps::TravelToItem { path } => step_along(queues, id, path),
            HaulSteps::TravelToDestination { path } => step_along(queues, id, path),
            _ => {},
        },
        _ => {},
    }
}

} // verus!
