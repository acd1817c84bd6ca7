//! The parts of the game's entity components that the verified logic reads:
//! points, jobs and the travel paths inside them, mining designations and
//! tool kinds.

use vstd::prelude::*;

verus! {

/// A point of the map in tile coordinates.
#[derive(Clone, Copy, Debug, PartialEq, Eq, Structural)]
pub struct Point3 {
    pub x: i32,
    pub y: i32,
    pub z: i32,
}

impl Point3 {
    /// The point `(x, y, z)`.
    pub fn new(x: i32, y: i32, z: i32) -> (p: Point3)
        ensures
            p == (Point3 { x, y, z }),
    {
        Point3 { x, y, z }
    }
}

/// The steps of fetching a tool. Only walking to the tool carries a path;
/// every other step is `Working`.
pub enum CollectToolSteps {
    TravelToTool { path: Vec<usize> },
    Working,
}

/// The steps of constructing a building. Only walking to the building
/// carries a path; every other step is `Working`.
pub enum BuildingSteps {
    TravelToBuilding { path: Vec<usize> },
    Working,
}

/// The steps of hauling an item. Walking to the item and walking to its
/// destination carry a path; every other step is `Working`.
pub enum HaulSteps {
    TravelToItem { path: Vec<usize> },
    TravelToDestination { path: Vec<usize> },
    Working,
}

/// A settler's current job. Jobs whose steps carry no path are `Other`.
pub enum JobType {
    NoJob,
    CollectTool { tool_id: usize, step: CollectToolSteps },
    ConstructBuilding { building_id: usize, step: BuildingSteps },
    Haul { item_id: usize, step: HaulSteps },
    Other,
}

/// The travel path of a job's current step, if that step is a walk.
pub open spec fn job_path(job: JobType) -> Option<Seq<usize>> {
    match job {
        JobType::CollectTool { step: CollectToolSteps::TravelToTool { path }, .. } => Some(path@),
        JobType::ConstructBuilding { step: BuildingSteps::TravelToBuilding { path }, .. } => Some(path@),
        JobType::Haul { step: HaulSteps::TravelToItem { path }, .. } => Some(path@),
        JobType::Haul { step: HaulSteps::TravelToDestination { path }, .. } => Some(path@),
        _ => None,
    }
}

/// `after` is `before` with the path of its current step replaced by `path`.
pub open spec fn job_with_path(before: JobType, after: JobType, path: Seq<usize>) -> bool {
    match (before, after) {
        (
            JobType::CollectTool { tool_id: a, step: CollectToolSteps::TravelToTool { .. } },
            JobType::CollectTool { tool_id: b, step: CollectToolSteps::TravelToTool { path: p } },
        ) => a == b && p@ == path,
        (
            JobType::ConstructBuilding { building_id: a, step: BuildingSteps::TravelToBuilding { .. } },
            JobType::ConstructBuilding { building_id: b, step: BuildingSteps::TravelToBuilding { path: p } },
        ) => a == b && p@ == path,
        (
            JobType::Haul { item_id: a, step: HaulSteps::TravelToItem { .. } },
            JobType::Haul { item_id: b, step: HaulSteps::TravelToItem { path: p } },
        ) => a == b && p@ == path,
        (
            JobType::Haul { item_id: a, step: HaulSteps::TravelToDestination { .. } },
            JobType::Haul { item_id: b, step: HaulSteps::TravelToDestination { path: p } },
        ) => a == b && p@ == path,
        _ => false,
    }
}

/// A mining designation placed on a tile.
#[derive(Clone, Copy, Debug, PartialEq, Eq, Structural)]
pub enum MiningMode {
    Dig,
    Channel,
    Ramp,
    Up,
    Down,
    UpDown,
}

/// What a tool is used for.
#[derive(Clone, Copy, Debug, PartialEq, Eq, Structural)]
pub enum ToolType {
    Digging,
    Chopping,
}

} // verus!
