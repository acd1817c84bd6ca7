use nox_futura::components::Point3;
use nox_futura::messaging::jobstep::JobStep;
use nox_futura::messaging::renderflags::RenderFlags;
use nox_futura::messaging::fell_tree_tiles;
use nox_futura::region::{Region, TileType};
use nox_futura::messaging::{
    cancel_job, chop_tree, conclude_job, drop_item, entity_moved, equip_tool, follow_job_path,
    geometry_changed, get_render_flags, next_job, relinquish_claim, reset, start_drain, vox_moved,
    Backends,
};

#[test]
fn render_flags_start_clear_and_reset() {
    let mut f = RenderFlags::new();
    assert!(!f.lights_changed && !f.models_changed && !f.terrain_changed && f.dirty_tiles.is_empty());
    f.lights_changed = true;
    f.dirty_tiles.push(5);
    f.reset();
    assert!(!f.lights_changed && f.dirty_tiles.is_empty());
}

#[test]
fn flags_raised_by_game_code() {
    let mut b = Backends::new();
    vox_moved(&mut b);
    geometry_changed(&mut b, 12);
    geometry_changed(&mut b, 13);
    let f = get_render_flags(&b);
    assert!(f.models_changed && f.terrain_changed && !f.lights_changed);
    assert_eq!(f.dirty_tiles, vec![12, 13]);
    assert!(b.jobs.is_empty());
    reset(&mut b);
    let f = get_render_flags(&b);
    assert!(!f.models_changed && !f.terrain_changed && f.dirty_tiles.is_empty());
}

#[test]
fn world_queue_posts_and_drains() {
    let mut b = Backends::new();
    cancel_job(&mut b, 1);
    conclude_job(&mut b, 2);
    entity_moved(&mut b, 3, &Point3::new(4, 5, 6));
    follow_job_path(&mut b, 3);
    drop_item(&mut b, 7, 8);
    relinquish_claim(&mut b, 9);
    equip_tool(&mut b, 10, 11);
    chop_tree(&mut b, 12, 13);
    assert_eq!(b.jobs.len(), 8);
    start_drain(&mut b);
    assert!(matches!(next_job(&mut b), Some(JobStep::JobCancelled { id: 1 })));
    assert!(matches!(next_job(&mut b), Some(JobStep::JobConcluded { id: 2 })));
    assert!(matches!(next_job(&mut b), Some(JobStep::FollowJobPath { id: 3 })));
    assert_eq!(b.movers.get(&3), Some(&(4, 5, 6)));
    assert!(matches!(next_job(&mut b), Some(JobStep::DropItem { id: 7, location: 8 })));
    assert!(matches!(next_job(&mut b), Some(JobStep::RelinquishClaim { tool_id: 9 })));
    assert!(matches!(next_job(&mut b), Some(JobStep::EquipItem { id: 10, tool_id: 11 })));
    assert!(matches!(next_job(&mut b), Some(JobStep::TreeChop { id: 12, tree_id: 13 })));
    assert!(next_job(&mut b).is_none());
}

#[test]
fn felling_a_tree_clears_its_tiles() {
    let n = 10;
    let mut region = Region {
        tile_types: vec![TileType::Solid; n],
        revealed: vec![true; n],
        water_level: vec![0; n],
        material_idx: vec![0; n],
        constructed: vec![false; n],
    };
    region.tile_types[3] = TileType::TreeTrunk { tree_id: 7 };
    region.tile_types[4] = TileType::TreeFoliage { tree_id: 7 };
    region.tile_types[8] = TileType::TreeFoliage { tree_id: 7 };
    region.tile_types[6] = TileType::TreeTrunk { tree_id: 2 };
    let mut b = Backends::new();
    let idx = fell_tree_tiles(&mut b, &mut region, 7);
    assert_eq!(idx, 3);
    assert_eq!(region.tile_types[3], TileType::Empty);
    assert_eq!(region.tile_types[4], TileType::Empty);
    assert_eq!(region.tile_types[8], TileType::Empty);
    assert_eq!(region.tile_types[6], TileType::TreeTrunk { tree_id: 2 });
    assert_eq!(region.tile_types[0], TileType::Solid);
    let f = get_render_flags(&b);
    assert_eq!(f.dirty_tiles, vec![3, 4, 8]);
    assert!(f.terrain_changed && f.models_changed);

    let mut b = Backends::new();
    assert_eq!(fell_tree_tiles(&mut b, &mut region, 99), usize::MAX);
    let f = get_render_flags(&b);
    assert!(!f.terrain_changed && f.models_changed && f.dirty_tiles.is_empty());
}
