use nox_futura::components::{CollectToolSteps, HaulSteps, JobType, ToolType};
use nox_futura::playgame::messaging::apply::drain::{drain_queues, StepInput};
use nox_futura::playgame::messaging::apply::world::{apply, EntityRecord};
use nox_futura::playgame::messaging::apply::MovingEntity;
use nox_futura::playgame::GameStateResource;
use nox_futura::components::Point3;
use nox_futura::playgame::messaging::job_step::JobStep;
use nox_futura::playgame::messaging::MessageQueues;
use nox_futura::components::MiningMode;
use nox_futura::region::{Region, TileType};
use nox_futura::spatial::mapidx;

fn no_map() -> Region {
    Region { tile_types: vec![], revealed: vec![], water_level: vec![], material_idx: vec![], constructed: vec![] }
}

fn map(n: usize) -> Region {
    Region {
        tile_types: vec![TileType::Solid; n],
        revealed: vec![true; n],
        water_level: vec![0; n],
        material_idx: vec![1; n],
        constructed: vec![false; n],
    }
}

fn rec(id: usize, tile: usize) -> EntityRecord {
    EntityRecord {
        id,
        tile,
        carried_by: None,
        job: None,
        claimed_by: None,
        haul: None,
        blueprint: None,
        reaction: None,
        material: None,
        building: None,
        light: None,
        tool: None,
        settler: None,
        tree: None,
        designation: None,
        view_dirty: None,
    }
}

#[test]
fn job_changed_sets_the_named_settlers_job() {
    let mut world = vec![rec(1, 0), rec(2, 0)];
    world[0].job = Some(JobType::NoJob);
    world[1].job = Some(JobType::NoJob);
    let mut q = MessageQueues::new();
    let s = apply(&mut world, &mut no_map(), &mut q, JobStep::JobChanged { id: 2, new_job: JobType::Other }, 0, 0, None, 0, &vec![]);
    assert!(s.is_empty());
    assert!(matches!(world[0].job, Some(JobType::NoJob)));
    assert!(matches!(world[1].job, Some(JobType::Other)));
    assert!(q.jobs.is_empty());
}

#[test]
fn job_changed_skips_an_entity_without_a_job() {
    let mut world = vec![rec(1, 0)];
    let mut q = MessageQueues::new();
    apply(&mut world, &mut no_map(), &mut q, JobStep::JobChanged { id: 1, new_job: JobType::Other }, 0, 0, None, 0, &vec![]);
    assert!(world[0].job.is_none());
}

#[test]
fn concluding_a_haul_removes_the_haul_tag() {
    let mut world = vec![rec(4, 0)];
    world[0].job = Some(JobType::Haul { item_id: 9, step: HaulSteps::Working });
    let mut q = MessageQueues::new();
    apply(&mut world, &mut no_map(), &mut q, JobStep::JobConcluded { id: 4 }, 0, 0, None, 0, &vec![]);
    assert!(matches!(world[0].job, Some(JobType::NoJob)));
    assert_eq!(q.jobs.len(), 1);
    assert!(matches!(q.jobs[0], JobStep::RemoveHaulTag { id: 9 }));
}

#[test]
fn dropping_and_picking_up_items() {
    let mut world = vec![rec(3, 10)];
    world[0].carried_by = Some(1);
    let mut q = MessageQueues::new();
    apply(&mut world, &mut no_map(), &mut q, JobStep::DropItem { id: 3, location: 77 }, 0, 0, None, 0, &vec![]);
    assert_eq!(world[0].tile, 77);
    assert_eq!(world[0].carried_by, None);
    apply(&mut world, &mut no_map(), &mut q, JobStep::GetItem { id: 5, item_id: 3 }, 0, 0, None, 0, &vec![]);
    assert_eq!(world[0].carried_by, Some(5));
    apply(&mut world, &mut no_map(), &mut q, JobStep::EquipItem { id: 6, tool_id: 3 }, 0, 0, None, 0, &vec![]);
    assert_eq!(world[0].carried_by, Some(6));
    assert_eq!(q.jobs.len(), 3);
    assert!(q.jobs.iter().all(|s| matches!(s, JobStep::VoxMoved)));
}

#[test]
fn deleting_removes_only_the_named_entity() {
    let mut world = vec![rec(1, 0), rec(2, 0), rec(3, 0)];
    let mut q = MessageQueues::new();
    apply(&mut world, &mut no_map(), &mut q, JobStep::DeleteItem { id: 2 }, 0, 0, None, 0, &vec![]);
    assert_eq!(world.iter().map(|r| r.id).collect::<Vec<_>>(), vec![1, 3]);
    apply(&mut world, &mut no_map(), &mut q, JobStep::DeleteBuilding { building_id: 3 }, 0, 0, None, 0, &vec![]);
    assert_eq!(world.iter().map(|r| r.id).collect::<Vec<_>>(), vec![1]);
    assert_eq!(q.jobs.len(), 3);
    assert!(matches!(q.jobs[1], JobStep::VoxMoved));
    assert!(matches!(q.jobs[2], JobStep::LightsChanged));
}

#[test]
fn finishing_a_building_lights_it_and_consumes_its_blueprint() {
    let mut world = vec![rec(8, 0)];
    world[0].building = Some(false);
    world[0].light = Some(false);
    world[0].blueprint = Some((true, vec![20, 21]));
    let mut q = MessageQueues::new();
    apply(&mut world, &mut no_map(), &mut q, JobStep::FinishBuilding { building_id: 8 }, 0, 0, None, 0, &vec![]);
    assert_eq!(world[0].building, Some(true));
    assert_eq!(world[0].light, Some(true));
    assert!(world[0].blueprint.is_none());
    assert_eq!(q.jobs.len(), 3);
    assert!(matches!(q.jobs[0], JobStep::LightsChanged));
    assert!(matches!(q.jobs[1], JobStep::DeleteItem { id: 20 }));
    assert!(matches!(q.jobs[2], JobStep::DeleteItem { id: 21 }));
}

#[test]
fn spawning_asks_for_one_item_per_unit() {
    let mut world = vec![];
    let mut q = MessageQueues::new();
    let s = apply(
        &mut world,
        &mut no_map(),
        &mut q,
        JobStep::SpawnItem { pos: 12, tag: "wood_log".to_string(), qty: 3, material: 4 },
        0,
        0,
        None,
        0,
        &vec![],
    );
    assert_eq!(s.len(), 3);
    assert!(s.iter().all(|(p, t, m)| *p == 12 && t == "wood_log" && *m == 4));
    let none = apply(
        &mut world,
        &mut no_map(),
        &mut q,
        JobStep::SpawnItem { pos: 12, tag: "wood_log".to_string(), qty: 0, material: 4 },
        0,
        0,
        None,
        0,
        &vec![],
    );
    assert!(none.is_empty());
}

#[test]
fn haul_and_reaction_progress_and_haul_tag() {
    let mut world = vec![rec(1, 0), rec(2, 0)];
    world[0].haul = Some((None, 55));
    world[1].reaction = Some((7, "smelt".to_string(), None));
    let mut q = MessageQueues::new();
    apply(&mut world, &mut no_map(), &mut q, JobStep::HaulInProgress { id: 1, by: 9 }, 0, 0, None, 0, &vec![]);
    assert_eq!(world[0].haul, Some((Some(9), 55)));
    apply(&mut world, &mut no_map(), &mut q, JobStep::ReactionInProgress { id: 2, by: 9 }, 0, 0, None, 0, &vec![]);
    assert_eq!(world[1].reaction, Some((7, "smelt".to_string(), Some(9))));
    apply(&mut world, &mut no_map(), &mut q, JobStep::RemoveHaulTag { id: 1 }, 0, 0, None, 0, &vec![]);
    assert_eq!(world[0].haul, None);
}

#[test]
fn creating_a_reaction_job_claims_its_components() {
    let mut world = vec![rec(1, 300), rec(2, 5), rec(3, 6)];
    let mut q = MessageQueues::new();
    apply(
        &mut world,
        &mut no_map(),
        &mut q,
        JobStep::CreateReactionJob { workshop_id: 1, components: vec![3], reaction_tag: "smelt".to_string() },
        100,
        0,
        None,
        0,
        &vec![],
    );
    assert_eq!(world.len(), 4);
    let job = &world[3];
    assert_eq!(job.id, 100);
    assert_eq!(job.tile, 300);
    assert_eq!(job.blueprint, Some((false, vec![3])));
    assert_eq!(job.reaction, Some((1, "smelt".to_string(), None)));
    assert_eq!(world[2].claimed_by, Some(100));
    assert_eq!(world[2].haul, Some((None, 300)));
    assert_eq!(world[1].claimed_by, None);
}

#[test]
fn performing_a_reaction_consumes_components_and_spawns_products() {
    let mut world = vec![rec(3, 6), rec(100, 300)];
    world[0].material = Some(12);
    world[1].reaction = Some((1, "smelt".to_string(), Some(9)));
    world[1].blueprint = Some((true, vec![3]));
    let outputs = vec![("ingot".to_string(), 2)];
    let mut q = MessageQueues::new();
    apply(&mut world, &mut no_map(), &mut q, JobStep::PerformReaction { reaction_id: 100 }, 0, 0, Some(&outputs), 0, &vec![]);
    assert_eq!(world.len(), 1);
    assert_eq!(q.jobs.len(), 3);
    assert!(matches!(q.jobs[0], JobStep::DeleteItem { id: 3 }));
    match &q.jobs[1] {
        JobStep::SpawnItem { pos, tag, qty, material } => {
            assert_eq!((*pos, tag.as_str(), *qty, *material), (300, "ingot", 2, 12));
        }
        _ => panic!("expected a spawn"),
    }
    assert!(matches!(q.jobs[2], JobStep::VoxMoved));
}

#[test]
fn a_blueprint_is_ready_when_its_items_are_next_to_it() {
    // tiles: x + y * 256
    let mut world = vec![rec(50, 10), rec(60, 11)];
    world[0].blueprint = Some((false, vec![60]));
    world[1].claimed_by = Some(50);
    let mut q = MessageQueues::new();
    apply(&mut world, &mut no_map(), &mut q, JobStep::UpdateBlueprint { item_id: 60 }, 0, 0, None, 0, &vec![]);
    assert_eq!(world[0].blueprint, Some((true, vec![60])));

    let mut far = vec![rec(50, 10), rec(60, 10 + 256 + 1)];
    far[0].blueprint = Some((false, vec![60]));
    far[1].claimed_by = Some(50);
    apply(&mut far, &mut no_map(), &mut q, JobStep::UpdateBlueprint { item_id: 60 }, 0, 0, None, 0, &vec![]);
    assert_eq!(far[0].blueprint, Some((false, vec![60])));
}

#[test]
fn following_a_path_moves_one_tile() {
    let mut world = vec![rec(7, 0)];
    world[0].job = Some(JobType::CollectTool { tool_id: 2, step: CollectToolSteps::TravelToTool { path: vec![257, 258] } });
    let mut q = MessageQueues::new();
    apply(&mut world, &mut no_map(), &mut q, JobStep::FollowJobPath { id: 7 }, 0, 0, None, 0, &vec![]);
    assert_eq!(q.movers.get(&7), Some(&(1, 1, 0)));
    match &world[0].job {
        Some(JobType::CollectTool { step: CollectToolSteps::TravelToTool { path }, .. }) => assert_eq!(path, &vec![258]),
        _ => panic!("job changed kind"),
    }
}

#[test]
fn hiring_a_miner_claims_the_nearest_free_pick() {
    let mut world = vec![rec(1, 0), rec(2, 5), rec(3, 2), rec(4, 1)];
    world[0].settler = Some((false, false));
    world[1].tool = Some(ToolType::Digging);
    world[2].tool = Some(ToolType::Digging);
    world[3].tool = Some(ToolType::Chopping);
    let mut q = MessageQueues::new();
    apply(&mut world, &mut no_map(), &mut q, JobStep::BecomeMiner { id: 1 }, 0, 0, None, 0, &vec![]);
    assert_eq!(world[0].settler, Some((true, false)));
    assert_eq!(world[2].claimed_by, Some(1));
    assert_eq!(world[1].claimed_by, None);
    assert_eq!(world[3].claimed_by, None);
}

#[test]
fn hiring_without_a_free_tool_changes_nothing() {
    let mut world = vec![rec(1, 0), rec(2, 5)];
    world[0].settler = Some((false, false));
    world[1].tool = Some(ToolType::Digging);
    world[1].claimed_by = Some(9);
    let mut q = MessageQueues::new();
    apply(&mut world, &mut no_map(), &mut q, JobStep::BecomeLumberjack { id: 1 }, 0, 0, None, 0, &vec![]);
    assert_eq!(world[0].settler, Some((false, false)));
}

#[test]
fn firing_a_lumberjack_drops_the_axe_where_he_stands() {
    let mut world = vec![rec(1, 40), rec(2, 5)];
    world[0].settler = Some((false, true));
    world[1].tool = Some(ToolType::Chopping);
    world[1].claimed_by = Some(1);
    world[1].carried_by = Some(1);
    let mut q = MessageQueues::new();
    apply(&mut world, &mut no_map(), &mut q, JobStep::FireLumberjack { id: 1 }, 0, 0, None, 0, &vec![]);
    assert_eq!(world[0].settler, Some((false, false)));
    assert_eq!(q.jobs.len(), 1);
    assert!(matches!(q.jobs[0], JobStep::DropItem { id: 2, location: 40 }));
}

#[test]
fn chopping_damages_then_fells_the_nearest_marked_tree() {
    let mut world = vec![rec(1, 3), rec(2, 9), rec(3, 1)];
    world[0].tree = Some((true, 10));
    world[1].tree = Some((true, 10));
    world[2].tree = Some((false, 10));
    let mut q = MessageQueues::new();
    let s = apply(&mut world, &mut no_map(), &mut q, JobStep::TreeChop { id: 7, tree_pos: 2 }, 0, 4, None, 31, &vec![]);
    assert!(s.is_empty());
    assert_eq!(world[0].tree, Some((true, 6)));
    assert!(q.jobs.is_empty());
    let none = apply(&mut world, &mut no_map(), &mut q, JobStep::TreeChop { id: 7, tree_pos: 2 }, 0, 0, None, 31, &vec![]);
    assert!(none.is_empty());
    assert_eq!(world[0].tree, Some((true, 6)));
    let s = apply(&mut world, &mut no_map(), &mut q, JobStep::TreeChop { id: 7, tree_pos: 2 }, 0, 6, None, 31, &vec![]);
    assert_eq!(world.iter().map(|r| r.id).collect::<Vec<_>>(), vec![2, 3]);
    assert_eq!(s, vec![(3, "wood_log".to_string(), 31)]);
    assert!(matches!(q.jobs[0], JobStep::ModelsMoved));
    assert!(matches!(q.jobs[1], JobStep::VoxMoved));
}

#[test]
fn digging_works_the_designation_next_to_the_miner() {
    let here = mapidx(5, 5, 2);
    let next = mapidx(6, 5, 2);
    let mut world = vec![rec(1, next), rec(2, mapidx(9, 9, 2)), rec(3, next), rec(4, here)];
    world[0].designation = Some(MiningMode::Dig);
    world[1].designation = Some(MiningMode::Dig);
    world[2].designation = Some(MiningMode::Dig);
    world[3].view_dirty = Some(false);
    let mut region = map(200000);
    let products = vec![vec![], vec!["stone_boulder".to_string(), "ore".to_string()]];
    let mut q = MessageQueues::new();
    let s = apply(&mut world, &mut region, &mut q, JobStep::DigAt { id: 9, pos: here }, 0, 5, None, 0, &products);
    assert_eq!(region.tile_types[next], TileType::Floor);
    assert_eq!(world.iter().map(|r| r.id).collect::<Vec<_>>(), vec![2, 4]);
    assert_eq!(world[1].view_dirty, Some(true));
    assert_eq!(world[0].view_dirty, None);
    assert_eq!(s, vec![(next, "stone_boulder".to_string(), 1), (next, "ore".to_string(), 1)]);
    assert_eq!(q.jobs.len(), 28);
}

#[test]
fn a_failed_roll_digs_nothing() {
    let here = mapidx(5, 5, 2);
    let mut world = vec![rec(1, mapidx(6, 5, 2))];
    world[0].designation = Some(MiningMode::Dig);
    let mut region = map(200000);
    let mut q = MessageQueues::new();
    let s = apply(&mut world, &mut region, &mut q, JobStep::DigAt { id: 9, pos: here }, 0, 0, None, 0, &vec![]);
    assert!(s.is_empty());
    assert_eq!(world.len(), 1);
    assert!(q.jobs.is_empty());
    assert_eq!(region.tile_types[mapidx(6, 5, 2)], TileType::Solid);
}

#[test]
fn draining_applies_everything_posted_along_the_way() {
    let mut world = vec![rec(8, 0), rec(20, 0), rec(21, 0), rec(5, 0)];
    world[0].building = Some(false);
    world[0].blueprint = Some((true, vec![20, 21]));
    let mut region = no_map();
    let mut q = MessageQueues::new();
    q.jobs.push_back(JobStep::TileDirty { pos: 70000 });
    q.jobs.push_back(JobStep::FinishBuilding { building_id: 8 });
    q.jobs.push_back(JobStep::EntityMoved { id: 5, end: Point3::new(1, 2, 3) });
    let mut movers = vec![MovingEntity { id: 5, tile: (0, 0, 0), fov_dirty: false }];
    let mut gs = GameStateResource::new();
    let inputs = |_s: &JobStep, _w: &Vec<EntityRecord>| StepInput { fresh_id: 1000, skill_roll: 0, reaction_outputs: None };
    let r = drain_queues(&mut world, &mut region, &mut q, &mut movers, &mut gs, inputs, 0, &vec![]);
    match r {
        Ok(spawns) => assert!(spawns.is_empty()),
        Err(_) => panic!("drain stopped"),
    }
    assert!(q.jobs.is_empty());
    assert_eq!(world.iter().map(|r| r.id).collect::<Vec<_>>(), vec![8, 5]);
    assert_eq!(world[0].building, Some(true));
    assert!(gs.vox_moved && gs.lights_changed && !gs.models_moved);
    assert_eq!(gs.dirty_tiles, vec![70000]);
    assert_eq!(movers[0], MovingEntity { id: 5, tile: (1, 2, 3), fov_dirty: true });
}

#[test]
fn draining_stops_at_a_step_that_cannot_be_applied() {
    let mut world = vec![rec(7, 0)];
    world[0].job = Some(JobType::CollectTool { tool_id: 2, step: CollectToolSteps::TravelToTool { path: vec![] } });
    let mut region = no_map();
    let mut q = MessageQueues::new();
    q.jobs.push_back(JobStep::VoxMoved);
    q.jobs.push_back(JobStep::FollowJobPath { id: 7 });
    q.jobs.push_back(JobStep::ModelsMoved);
    let mut gs = GameStateResource::new();
    let inputs = |_s: &JobStep, _w: &Vec<EntityRecord>| StepInput { fresh_id: 1000, skill_roll: 0, reaction_outputs: None };
    let r = drain_queues(&mut world, &mut region, &mut q, &mut vec![], &mut gs, inputs, 0, &vec![]);
    assert!(matches!(r, Err(JobStep::FollowJobPath { id: 7 })));
    assert_eq!(q.jobs.len(), 1);
}

#[test]
fn draining_moves_each_entity_to_its_last_recorded_tile() {
    let mut world = vec![rec(7, 0)];
    world[0].job = Some(JobType::CollectTool { tool_id: 2, step: CollectToolSteps::TravelToTool { path: vec![257, 258] } });
    let mut region = no_map();
    let mut q = MessageQueues::new();
    q.jobs.push_back(JobStep::EntityMoved { id: 5, end: Point3::new(1, 2, 3) });
    q.jobs.push_back(JobStep::EntityMoved { id: 7, end: Point3::new(9, 9, 9) });
    q.jobs.push_back(JobStep::EntityMoved { id: 5, end: Point3::new(4, 5, 6) });
    q.jobs.push_back(JobStep::FollowJobPath { id: 7 });
    let mut movers = vec![
        MovingEntity { id: 5, tile: (0, 0, 0), fov_dirty: false },
        MovingEntity { id: 7, tile: (0, 0, 0), fov_dirty: false },
        MovingEntity { id: 8, tile: (3, 3, 3), fov_dirty: false },
    ];
    let mut gs = GameStateResource::new();
    let inputs = |_s: &JobStep, _w: &Vec<EntityRecord>| StepInput { fresh_id: 1000, skill_roll: 0, reaction_outputs: None };
    let r = drain_queues(&mut world, &mut region, &mut q, &mut movers, &mut gs, inputs, 0, &vec![]);
    assert!(r.is_ok());
    assert_eq!(movers[0], MovingEntity { id: 5, tile: (4, 5, 6), fov_dirty: true });
    assert_eq!(movers[1], MovingEntity { id: 7, tile: (1, 1, 0), fov_dirty: true });
    assert_eq!(movers[2], MovingEntity { id: 8, tile: (3, 3, 3), fov_dirty: false });
    assert!(gs.vox_moved);
}
