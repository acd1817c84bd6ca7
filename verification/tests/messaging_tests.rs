use nox_futura::components::{
    BuildingSteps, CollectToolSteps, HaulSteps, JobType, MiningMode, Point3, ToolType,
};
use nox_futura::playgame::messaging::apply::job_designations::{
    drop_associated_tool, find_closest_tool, ClaimedTool,
};
use nox_futura::playgame::messaging::apply::lumber::{damage_tree, locate_target};
use nox_futura::playgame::messaging::apply::mining::{apply_dig, pick_dig_target};
use nox_futura::playgame::messaging::apply::pathing::follow_path;
use nox_futura::playgame::messaging::apply::{
    blueprint_ready, building_finished, finish_drain, movers, MovingEntity, job_cancelled, job_concluded, next_job,
    reaction_material, reaction_performed, start_drain,
};
use nox_futura::playgame::messaging::job_step::JobStep;
use nox_futura::playgame::messaging::{
    cancel_job, chop_tree, create_reaction_job, dig_at, drop_item, entity_moved, lights_changed,
    models_moved, spawn_item, tile_dirty, vox_moved, MessageQueues,
};
use nox_futura::playgame::GameStateResource;
use nox_futura::region::{Region, StairsType, TileType};
use nox_futura::spatial::{idxmap, mapidx};

fn region(n: usize) -> Region {
    Region {
        tile_types: vec![TileType::Solid; n],
        revealed: vec![true; n],
        water_level: vec![0; n],
        material_idx: vec![1; n],
        constructed: vec![false; n],
    }
}

fn dirty_positions(q: &MessageQueues) -> Vec<usize> {
    q.jobs
        .iter()
        .map(|js| match js {
            JobStep::TileDirty { pos } => *pos,
            _ => panic!("not a redraw message"),
        })
        .collect()
}

#[test]
fn posting_appends_in_order() {
    let mut q = MessageQueues::new();
    cancel_job(&mut q, 4);
    drop_item(&mut q, 5, 99);
    chop_tree(&mut q, 6, 1234);
    assert_eq!(q.jobs.len(), 3);
    assert!(matches!(q.jobs[0], JobStep::JobCancelled { id: 4 }));
    assert!(matches!(q.jobs[1], JobStep::DropItem { id: 5, location: 99 }));
    assert!(matches!(q.jobs[2], JobStep::TreeChop { id: 6, tree_pos: 1234 }));
    assert!(q.movers.is_empty());
}

#[test]
fn spawn_and_reaction_messages_carry_their_data() {
    let mut q = MessageQueues::new();
    spawn_item(&mut q, &42, &"wood_log".to_string(), &3, 9);
    create_reaction_job(&mut q, 8, "smelt", &vec![1, 2, 3]);
    match &q.jobs[0] {
        JobStep::SpawnItem { pos, tag, qty, material } => {
            assert_eq!((*pos, tag.as_str(), *qty, *material), (42, "wood_log", 3, 9));
        }
        _ => panic!("expected a spawn"),
    }
    match &q.jobs[1] {
        JobStep::CreateReactionJob { workshop_id, components, reaction_tag } => {
            assert_eq!(*workshop_id, 8);
            assert_eq!(components, &vec![1, 2, 3]);
            assert_eq!(reaction_tag, "smelt");
        }
        _ => panic!("expected a reaction job"),
    }
}

#[test]
fn tile_dirty_posts_the_block_then_the_tile() {
    let mut q = MessageQueues::new();
    let pos = mapidx(10, 20, 30);
    tile_dirty(&mut q, pos);
    let tiles = dirty_positions(&q);
    assert_eq!(tiles.len(), 28);
    assert_eq!(tiles[0], mapidx(9, 19, 29));
    assert_eq!(tiles[1], mapidx(10, 19, 29));
    assert_eq!(tiles[3], mapidx(9, 20, 29));
    assert_eq!(tiles[13], pos);
    assert_eq!(tiles[26], mapidx(11, 21, 31));
    assert_eq!(tiles[27], pos);
}

#[test]
fn drain_absorbs_notifications_and_hands_out_world_changes() {
    let mut q = MessageQueues::new();
    vox_moved(&mut q);
    entity_moved(&mut q, 7, &Point3::new(1, 2, 3));
    dig_at(&mut q, 5, 77);
    models_moved(&mut q);
    tile_dirty(&mut q, mapidx(1, 1, 1));
    lights_changed(&mut q);
    let mut d = start_drain(&mut q);
    match next_job(&mut q, &mut d) {
        Some(JobStep::DigAt { id: 5, pos: 77 }) => {}
        _ => panic!("expected the dig"),
    }
    assert!(d.vox_moved && !d.models_moved && !d.lights_changed);
    assert_eq!(q.movers.get(&7), Some(&(1, 2, 3)));
    assert!(next_job(&mut q, &mut d).is_none());
    assert!(q.jobs.is_empty());
    assert!(d.models_moved && d.lights_changed);
    assert_eq!(d.tiles_dirty.len(), 28);

    let mut gs = GameStateResource::new();
    gs.dirty_tiles.push(3);
    finish_drain(d, &mut gs);
    assert!(gs.vox_moved && gs.models_moved && gs.lights_changed && !gs.camera_changed);
    assert_eq!(gs.dirty_tiles.len(), 29);
    assert_eq!(gs.dirty_tiles[0], 3);
    assert_eq!(gs.dirty_tiles[28], mapidx(1, 1, 1));

    let u = gs.take_updates();
    assert!(u.vox_moved && u.models_moved && u.lights_changed && !u.camera_changed);
    assert_eq!(u.dirty_tiles.len(), 29);
    assert!(!gs.vox_moved && !gs.models_moved && !gs.lights_changed && gs.dirty_tiles.is_empty());
}

#[test]
fn movers_move_their_entities_and_flag_voxels() {
    let mut q = MessageQueues::new();
    entity_moved(&mut q, 1, &Point3::new(4, 5, 6));
    let mut d = start_drain(&mut q);
    assert!(next_job(&mut q, &mut d).is_none());
    let mut gs = GameStateResource::new();
    let mut entities = vec![
        MovingEntity { id: 1, tile: (0, 0, 0), fov_dirty: false },
        MovingEntity { id: 2, tile: (9, 9, 9), fov_dirty: false },
    ];
    movers(&q, &mut entities, &mut gs);
    assert!(gs.vox_moved && !gs.models_moved && !gs.lights_changed);
    assert_eq!(entities[0], MovingEntity { id: 1, tile: (4, 5, 6), fov_dirty: true });
    assert_eq!(entities[1], MovingEntity { id: 2, tile: (9, 9, 9), fov_dirty: false });
    finish_drain(d, &mut gs);
    assert!(gs.dirty_tiles.is_empty() && !gs.models_moved);

    let empty = MessageQueues::new();
    let mut gs = GameStateResource::new();
    movers(&empty, &mut entities, &mut gs);
    assert!(!gs.vox_moved);
}

#[test]
fn start_drain_forgets_old_movers() {
    let mut q = MessageQueues::new();
    q.movers.insert(1, (1, 1, 1));
    let _d = start_drain(&mut q);
    assert!(q.movers.is_empty());
}

#[test]
fn follow_path_takes_the_first_tile() {
    let mut q = MessageQueues::new();
    let first = mapidx(3, 4, 5);
    let mut job = JobType::Haul { item_id: 9, step: HaulSteps::TravelToItem { path: vec![first, 8, 9] } };
    follow_path(&mut q, 2, &mut job);
    assert_eq!(q.movers.get(&2), Some(&(3, 4, 5)));
    match &job {
        JobType::Haul { item_id: 9, step: HaulSteps::TravelToItem { path } } => assert_eq!(path, &vec![8, 9]),
        _ => panic!("the job kept its kind"),
    }
    let mut other = JobType::ConstructBuilding { building_id: 1, step: BuildingSteps::Working };
    follow_path(&mut q, 3, &mut other);
    assert_eq!(q.movers.len(), 1);
    let mut tool = JobType::CollectTool { tool_id: 4, step: CollectToolSteps::TravelToTool { path: vec![5] } };
    follow_path(&mut q, 3, &mut tool);
    assert_eq!(q.movers.get(&3), Some(&(5, 0, 0)));
}

#[test]
fn concluding_a_haul_removes_its_tag() {
    let mut q = MessageQueues::new();
    let mut job = JobType::Haul { item_id: 11, step: HaulSteps::Working };
    job_concluded(&mut q, &mut job);
    assert!(matches!(job, JobType::NoJob));
    assert!(matches!(q.jobs[0], JobStep::RemoveHaulTag { id: 11 }));
    let mut other = JobType::Other;
    job_concluded(&mut q, &mut other);
    assert_eq!(q.jobs.len(), 1);
    let mut c = JobType::Other;
    job_cancelled(&mut c);
    assert!(matches!(c, JobType::NoJob));
}

#[test]
fn dig_target_is_the_nearest_adjacent_designation() {
    let pos = mapidx(10, 10, 10);
    let designations = vec![
        (mapidx(12, 10, 10), MiningMode::Dig),
        (mapidx(11, 10, 10), MiningMode::Channel),
        (mapidx(10, 10, 10), MiningMode::Up),
        (mapidx(10, 11, 10), MiningMode::Down),
    ];
    assert_eq!(pick_dig_target(&designations, pos), Some((mapidx(10, 10, 10), MiningMode::Up)));
    let far = vec![(mapidx(12, 10, 10), MiningMode::Dig), (mapidx(11, 11, 10), MiningMode::Dig)];
    assert_eq!(pick_dig_target(&far, pos), None);
    let tie = vec![(mapidx(10, 9, 10), MiningMode::Dig), (mapidx(9, 10, 10), MiningMode::Channel)];
    assert_eq!(pick_dig_target(&tie, pos), Some((mapidx(10, 9, 10), MiningMode::Dig)));
    assert_eq!(pick_dig_target(&vec![], pos), None);
}

#[test]
fn digging_changes_the_map() {
    let n = mapidx(0, 0, 4);
    let mut r = region(n);
    let mut q = MessageQueues::new();
    let mine = mapidx(5, 5, 2);
    apply_dig(&mut q, &mut r, mine, MiningMode::Dig);
    assert_eq!(r.tile_types[mine], TileType::Floor);
    assert_eq!(q.jobs.len(), 28);

    let mut q = MessageQueues::new();
    let chan = mapidx(6, 6, 2);
    apply_dig(&mut q, &mut r, chan, MiningMode::Channel);
    assert_eq!(r.tile_types[chan], TileType::Empty);
    assert_eq!(r.tile_types[mapidx(6, 6, 1)], TileType::Floor);
    assert_eq!(q.jobs.len(), 56);
    assert_eq!(dirty_positions(&q)[27], chan);
    assert_eq!(dirty_positions(&q)[55], mapidx(6, 6, 1));

    let mut q = MessageQueues::new();
    let up = mapidx(7, 7, 2);
    apply_dig(&mut q, &mut r, up, MiningMode::UpDown);
    assert_eq!(r.tile_types[up], TileType::Stairs { direction: StairsType::UpDown });

    let mut q = MessageQueues::new();
    let before = r.tile_types.clone();
    apply_dig(&mut q, &mut r, up, MiningMode::Ramp);
    assert_eq!(r.tile_types, before);
    assert!(q.jobs.is_empty());
}

#[test]
fn lumberjack_targets_and_damage() {
    let pos = mapidx(10, 10, 0);
    let trees = vec![mapidx(20, 10, 0), mapidx(11, 11, 0), mapidx(12, 10, 0)];
    assert_eq!(locate_target(pos, &trees), Some(1));
    assert_eq!(locate_target(pos, &vec![]), None);

    let mut q = MessageQueues::new();
    let mut health = 10;
    assert!(!damage_tree(&mut q, &mut health, 4));
    assert_eq!(health, 6);
    assert!(q.jobs.is_empty());
    assert!(!damage_tree(&mut q, &mut health, 0));
    assert_eq!(health, 6);
    assert!(damage_tree(&mut q, &mut health, 6));
    assert_eq!(health, 0);
    assert!(matches!(q.jobs[0], JobStep::ModelsMoved));
    assert!(matches!(q.jobs[1], JobStep::VoxMoved));
}

#[test]
fn tools_are_found_and_dropped() {
    let here = Point3::new(0, 0, 0);
    let tools = vec![
        (Point3::new(1, 0, 0), ToolType::Chopping),
        (Point3::new(5, 0, 0), ToolType::Digging),
        (Point3::new(0, 2, 0), ToolType::Digging),
        (Point3::new(2, 0, 0), ToolType::Digging),
    ];
    assert_eq!(find_closest_tool(&tools, ToolType::Digging, &here), Some(2));
    assert_eq!(find_closest_tool(&tools, ToolType::Chopping, &here), Some(0));
    assert_eq!(find_closest_tool(&tools[1..].to_vec(), ToolType::Chopping, &here), None);

    let mut q = MessageQueues::new();
    let claimed = vec![
        ClaimedTool { tool_id: 1, claimed_by: 7, usage: ToolType::Digging, carried_by: Some(7), location: 100 },
        ClaimedTool { tool_id: 2, claimed_by: 7, usage: ToolType::Chopping, carried_by: Some(7), location: 100 },
        ClaimedTool { tool_id: 3, claimed_by: 8, usage: ToolType::Digging, carried_by: Some(8), location: 200 },
        ClaimedTool { tool_id: 4, claimed_by: 7, usage: ToolType::Digging, carried_by: None, location: 300 },
        ClaimedTool { tool_id: 5, claimed_by: 7, usage: ToolType::Digging, carried_by: Some(7), location: 101 },
    ];
    drop_associated_tool(&mut q, &claimed, ToolType::Digging, 7);
    assert_eq!(q.jobs.len(), 2);
    assert!(matches!(q.jobs[0], JobStep::DropItem { id: 1, location: 100 }));
    assert!(matches!(q.jobs[1], JobStep::DropItem { id: 5, location: 101 }));
}

#[test]
fn buildings_and_reactions() {
    let mut q = MessageQueues::new();
    building_finished(&mut q, true, Some(&vec![4, 5]));
    assert_eq!(q.jobs.len(), 3);
    assert!(matches!(q.jobs[0], JobStep::LightsChanged));
    assert!(matches!(q.jobs[2], JobStep::DeleteItem { id: 5 }));

    let mut q = MessageQueues::new();
    building_finished(&mut q, false, None);
    assert!(q.jobs.is_empty());

    assert_eq!(reaction_material(&vec![], Some(3)), 0);
    assert_eq!(reaction_material(&vec![1], Some(3)), 3);
    assert_eq!(reaction_material(&vec![1], None), 0);

    let mut q = MessageQueues::new();
    let outputs = vec![("plank".to_string(), 2), ("sawdust".to_string(), 1)];
    reaction_performed(&mut q, &vec![9], 3, 500, Some(&outputs));
    assert_eq!(q.jobs.len(), 4);
    assert!(matches!(q.jobs[0], JobStep::DeleteItem { id: 9 }));
    match &q.jobs[2] {
        JobStep::SpawnItem { pos: 500, tag, qty: 1, material: 3 } => assert_eq!(tag, "sawdust"),
        _ => panic!("expected the second output"),
    }
    assert!(matches!(q.jobs[3], JobStep::VoxMoved));

    let bp = Point3::new(5, 5, 5);
    assert!(blueprint_ready(&bp, &vec![Point3::new(5, 6, 5), Point3::new(5, 5, 5)]));
    assert!(!blueprint_ready(&bp, &vec![Point3::new(6, 6, 5)]));
    assert!(blueprint_ready(&bp, &vec![]));
}

#[test]
fn idxmap_of_a_mover_target() {
    assert_eq!(idxmap(mapidx(5, 0, 0)), (5, 0, 0));
}
