use nox_futura::components::{MiningMode, Point3};
use nox_futura::render::cursors::{construction_cursors, lumberjack_cursors, mining_cursors, CursorBox};
use nox_futura::render::models::{append_mesh, load_model_indices, ModelIndex};
use nox_futura::spatial::mapidx;
use nox_futura::render::model_pass::{build_instance_ranges, group_instances, in_draw_window};
use nox_futura::render::terrain_textures::{
    build_material_list, build_texture_list, MaterialTextures, TextureBase,
};
use nox_futura::render::texarray::{build_texture_map, material_slots, names_map_kind, mip_size, pack_pixel, slot_origin};

#[test]
fn atlas_layout() {
    assert_eq!(mip_size(0), 256);
    assert_eq!(mip_size(1), 128);
    assert_eq!(mip_size(7), 2);
    assert_eq!(slot_origin(0, 256), (0, 0));
    assert_eq!(slot_origin(17, 256), (256, 256));
    assert_eq!(slot_origin(17, 64), (64, 64));
    assert_eq!(slot_origin(255, 2), (30, 30));
    assert_eq!(material_slots(5), (15, 16, 17));
    assert_eq!(pack_pixel(1, 2, 3), [1, 2, 3, 255]);
}

fn names(b: Option<&str>, c: Option<&str>, f: Option<&str>, fc: Option<&str>) -> MaterialTextures {
    MaterialTextures {
        texture: Some(TextureBase {
            base: b.map(|s| s.to_string()),
            constructed: c.map(|s| s.to_string()),
            floor: f.map(|s| s.to_string()),
            floor_constructed: fc.map(|s| s.to_string()),
        }),
    }
}

#[test]
fn material_textures_are_listed_once_and_indexed() {
    let materials = vec![
        names(Some("granite"), Some("brick"), Some("granite"), None),
        MaterialTextures { texture: None },
        names(Some("wood"), None, Some("brick"), Some("planks")),
    ];
    let mut set: Vec<String> = Vec::new();
    let list = build_material_list(&materials, &mut set);
    assert_eq!(set, vec!["granite", "brick", "wood", "planks"]);
    assert_eq!(list.len(), 3);
    assert_eq!(list[0].id, 0);
    assert_eq!(list[0].base.as_deref(), Some("granite"));
    assert_eq!(list[1].base, None);
    assert_eq!(list[2].floor_constructed.as_deref(), Some("planks"));

    let maps = build_texture_list(&list, &set);
    assert_eq!(maps.len(), 3);
    assert_eq!((maps[0].base, maps[0].constructed, maps[0].floor, maps[0].floor_constructed), (Some(0), Some(1), Some(0), None));
    assert_eq!((maps[1].base, maps[1].floor), (None, None));
    assert_eq!((maps[2].id, maps[2].base, maps[2].floor, maps[2].floor_constructed), (2, Some(2), Some(1), Some(3)));
}

#[test]
fn instance_ranges_skip_empty_groups() {
    let ranges = build_instance_ranges(&vec![(4, 3), (2, 0), (9, 2), (1, 1)]);
    assert_eq!(ranges, vec![(4, 0, 3), (9, 3, 5), (1, 5, 6)]);
    assert!(build_instance_ranges(&vec![]).is_empty());
}

#[test]
fn draw_window_is_fifty_levels_below_the_camera() {
    assert!(in_draw_window(100, 100));
    assert!(in_draw_window(51, 100));
    assert!(!in_draw_window(50, 100));
    assert!(!in_draw_window(101, 100));
}

#[test]
fn cursor_boxes() {
    let trees = lumberjack_cursors(&vec![Point3::new(3, 4, 5)]);
    assert_eq!(trees, vec![CursorBox { x: 3, y: 4, z: 5, w: 1, h: 1, d: 2 }]);
    let sites = construction_cursors(&vec![Point3::new(1, 1, 1), Point3::new(2, 2, 2)]);
    assert_eq!(sites[1], CursorBox { x: 2, y: 2, z: 2, w: 1, h: 1, d: 1 });
    let boxes = mining_cursors(&vec![mapidx(7, 8, 9)], MiningMode::Dig, (10, 11, 12), true, (3, 4));
    assert_eq!(boxes, vec![
        CursorBox { x: 7, y: 8, z: 9, w: 1, h: 1, d: 1 },
        CursorBox { x: 10, y: 11, z: 12, w: 3, h: 4, d: 1 },
    ]);
    let boxes = mining_cursors(&vec![], MiningMode::Down, (10, 11, 12), true, (3, 4));
    assert_eq!(boxes, vec![CursorBox { x: 10, y: 11, z: 12, w: 1, h: 1, d: 1 }]);
    assert!(mining_cursors(&vec![], MiningMode::Dig, (1, 1, 1), false, (3, 4)).is_empty());
}

#[test]
fn model_meshes_share_one_index_buffer() {
    let mut index_buf: Vec<u16> = Vec::new();
    let mut base: u16 = 0;
    let mut map: Vec<ModelIndex> = Vec::new();
    append_mesh(&mut index_buf, &mut base, &mut map, 0, &vec![0, 1, 2], 9);
    assert_eq!(index_buf, vec![0, 1, 2]);
    assert_eq!(base, 3);
    let start = base;
    append_mesh(&mut index_buf, &mut base, &mut map, start, &vec![0, 2, 1], 6);
    assert_eq!(index_buf, vec![0, 1, 2, 3, 5, 4]);
    assert_eq!(base, 5);
    assert_eq!(map, vec![ModelIndex { start: 0, end: 3 }, ModelIndex { start: 3, end: 6 }]);
}

#[test]
fn atlas_slots_do_not_overlap() {
    for mip in 0..8 {
        let size = mip_size(mip);
        let mut seen = std::collections::HashSet::new();
        for slot in 0..256 {
            let (x, y) = slot_origin(slot, size);
            assert!(x + size <= 16 * size && y + size <= 16 * size);
            assert!(seen.insert((x / size, y / size)));
        }
    }
}

#[test]
fn draw_ranges_are_contiguous_from_zero() {
    let ranges = build_instance_ranges(&vec![(7, 0), (3, 4), (5, 0), (8, 2), (1, 5)]);
    assert_eq!(ranges, vec![(3, 0, 4), (8, 4, 6), (1, 6, 11)]);
    for w in ranges.windows(2) {
        assert_eq!(w[0].2, w[1].1);
    }
}

#[test]
fn instances_group_by_model_in_first_appearance_order() {
    let p = |x, y, z| Point3::new(x, y, z);
    let models = vec![
        (4, p(1, 1, 10), true),
        (2, p(2, 2, 10), true),
        (4, p(3, 3, 9), true),
        (4, p(5, 5, 11), true),
        (2, p(6, 6, 10), false),
        (7, p(7, 7, -40), true),
        (7, p(8, 8, -39), true),
    ];
    let groups = group_instances(&models, 10);
    assert_eq!(groups.len(), 3);
    assert_eq!(groups[0], (4, vec![p(1, 1, 10), p(3, 3, 9)]));
    assert_eq!(groups[1], (2, vec![p(2, 2, 10)]));
    assert_eq!(groups[2], (7, vec![p(8, 8, -39)]));
}

#[test]
fn models_share_one_index_buffer() {
    let models = vec![
        vec![(vec![0u32, 1, 2], 9usize), (vec![0u32, 2, 1], 6usize)],
        vec![(vec![1u32, 0, 2], 9usize)],
    ];
    let (buf, map) = load_model_indices(&models);
    assert_eq!(buf, vec![0, 1, 2, 3, 5, 4, 6, 5, 7]);
    assert_eq!(
        map,
        vec![
            ModelIndex { start: 0, end: 3 },
            ModelIndex { start: 0, end: 6 },
            ModelIndex { start: 5, end: 9 },
        ]
    );
}

#[test]
fn texture_files_map_to_their_first_material_slot() {
    let paths: Vec<String> = vec![
        "resources/terrain/grass-ao.jpg",
        "resources/terrain/grass-n.jpg",
        "resources/terrain/grass-t.jpg",
        "resources/terrain/rock-m.jpg",
        "resources/terrain/rock-r.jpg",
    ]
    .into_iter()
    .map(|s| s.to_string())
    .collect();
    let map = build_texture_map(&paths);
    let names: Vec<(String, usize)> = map.iter().map(|(n, i)| (n.iter().collect(), *i)).collect();
    assert_eq!(names, vec![("grass".to_string(), 0), ("rock".to_string(), 3)]);
}

#[test]
fn texture_files_must_name_their_map_kind() {
    assert!(names_map_kind(&"resources/terrain/grass-ao.jpg".to_string()));
    assert!(!names_map_kind(&"resources/terrain/grass.jpg".to_string()));
    assert!(names_map_kind(&"x".to_string()));
}
