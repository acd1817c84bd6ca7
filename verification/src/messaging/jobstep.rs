//! The messages of the first messaging layer.

use vstd::prelude::*;
use crate::components::{JobType, Point3};

verus! {

/// One queued change to the game world.
pub enum JobStep {
    EntityMoved { id: usize, end: Point3 },
    JobChanged { id: usize, new_job: JobType },
    JobCancelled { id: usize },
    JobConcluded { id: usize },
    FollowJobPath { id: usize },
    DropItem { id: usize, location: usize },
    RelinquishClaim { tool_id: usize },
    EquipItem { id: usize, tool_id: usize },
    TreeChop { id: usize, tree_id: usize },
    DeleteItem { id: usize },
    FinishBuilding { building_id: usize },
    DeleteBuilding { building_id: usize },
}

} // verus!
