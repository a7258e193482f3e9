use voxel_world::block::{BlockType, Face};
use voxel_world::ray::Vec3Milli;
use voxel_world::world::World;

fn mesh_contents(meshes: &Vec<std::rc::Rc<Vec<u32>>>) -> Vec<Vec<u32>> {
    meshes.iter().map(|m| (**m).clone()).collect()
}

#[test]
fn localize_positive() {
    let w = World::new(1);
    assert_eq!(w.localize_coords_to_chunk(0, 0), (0, 0, 0, 0));
    assert_eq!(w.localize_coords_to_chunk(15, 3), (0, 0, 15, 3));
    assert_eq!(w.localize_coords_to_chunk(16, 31), (1, 1, 0, 15));
    assert_eq!(w.localize_coords_to_chunk(37, 5), (2, 0, 5, 5));
}

#[test]
fn localize_negative_rounds_down() {
    let w = World::new(1);
    assert_eq!(w.localize_coords_to_chunk(-1, -1), (-1, -1, 15, 15));
    assert_eq!(w.localize_coords_to_chunk(-16, -17), (-1, -2, 0, 15));
    assert_eq!(w.localize_coords_to_chunk(-17, 16), (-2, 1, 15, 0));
}

#[test]
fn localize_round_trip() {
    let w = World::new(1);
    for wx in [-40, -17, -16, -1, 0, 1, 15, 16, 40] {
        let (cx, _, lx, _) = w.localize_coords_to_chunk(wx, 0);
        assert!(lx < 16);
        assert_eq!(cx * 16 + lx as i32, wx);
    }
}

#[test]
fn viewport_cache_hit_keeps_chunks_and_content() {
    let mut w = World::new(2);
    let first = mesh_contents(w.get_world_mesh_from_perspective(3, 3, false));
    assert!(w.get_chunk(0, 0).is_some());
    // a chunk outside the viewport square must not have been created
    assert!(w.get_chunk(5, 5).is_none());
    let second = mesh_contents(w.get_world_mesh_from_perspective(3, 3, false));
    assert_eq!(first, second);
    assert!(w.get_chunk(5, 5).is_none());
}

#[test]
fn viewport_is_a_disc() {
    let mut w = World::new(3);
    let meshes = mesh_contents(w.get_world_mesh_from_perspective(0, 0, false));
    let mut expected = 0;
    for cx in -3i32..3 {
        for cz in -3i32..3 {
            let inside = cx * cx + cz * cz <= 9;
            assert_eq!(w.get_chunk(cx, cz).is_some(), inside);
            if inside {
                expected += 1;
            }
        }
    }
    assert_eq!(meshes.len(), expected);
    assert!(w.get_chunk(4, 4).is_none());
}

#[test]
fn below_floor_is_solid() {
    let w = World::new(1);
    assert!(!w.air_at(0, -1, 0));
    assert!(!w.air_at(-5, -1, 123));
    assert!(!w.air_at(1000, -7, -1000));
}

#[test]
fn unloaded_chunk_is_passable_and_has_no_data() {
    let w = World::new(1);
    assert!(w.air_at(7, 3, -9));
    assert_eq!(w.get_block(7, 3, -9), None);
    assert_eq!(w.highest_in_column(7, -9), None);
}

#[test]
fn raymarch_misses_in_empty_world() {
    let mut w = World::new(1);
    let p = Vec3Milli { x: 0, y: 0, z: 0 };
    let d = Vec3Milli { x: 1000, y: 0, z: 0 };
    assert_eq!(w.raymarch_block(&p, &d), None);
}

#[test]
fn raymarch_hits_block_on_right_face() {
    let mut w = World::new(1);
    w.get_or_insert_chunk(0, 0);
    for x in 1..=5 {
        w.set_block(x, 0, 0, BlockType::Air);
    }
    w.set_block(0, 0, 0, BlockType::Stone);
    let p = Vec3Milli { x: 5000, y: 0, z: 0 };
    let d = Vec3Milli { x: -5000, y: 0, z: 0 };
    let hit = w.raymarch_block(&p, &d);
    assert_eq!(hit, Some(((0, 0, 0), Some(Face::Right))));
}

#[test]
fn set_block_changes_queries() {
    let mut w = World::new(1);
    w.get_or_insert_chunk(0, 0);
    w.set_block(2, 60, 2, BlockType::Grass);
    assert_eq!(w.get_block(2, 60, 2), Some(BlockType::Grass));
    assert!(!w.air_at(2, 60, 2));
    w.set_block(2, 60, 2, BlockType::Air);
    assert!(w.air_at(2, 60, 2));
}

#[test]
fn set_block_in_negative_chunk() {
    let mut w = World::new(1);
    w.get_or_insert_chunk(-1, -1);
    w.set_block(-1, 5, -1, BlockType::Stone);
    assert_eq!(w.get_block(-1, 5, -1), Some(BlockType::Stone));
    assert_eq!(w.get_block(-17, 5, -1), None);
}

#[test]
fn column_queries_follow_terrain_and_edits() {
    let mut w = World::new(1);
    w.get_or_insert_chunk(0, 0);
    let h0 = w.highest_in_column(3, 4).unwrap();
    assert!(w.get_block(3, h0 as i32, 4) != Some(BlockType::Air));
    assert_eq!(w.get_block(3, h0 as i32 + 1, 4), Some(BlockType::Air));
    w.set_block(3, 60, 4, BlockType::Stone);
    assert_eq!(w.highest_in_column(3, 4), Some(60));
    assert_eq!(w.highest_in_column_from_y(3, 59, 4), Some(h0));
}

#[test]
fn chunk_mesh_holds_column_heights() {
    let mut w = World::new(1);
    w.get_or_insert_chunk(0, 0);
    let h = w.highest_in_column(3, 4).unwrap() as u32;
    let c = w.get_chunk(0, 0).unwrap();
    let mesh = c.mesh_handle();
    assert_eq!(mesh.len(), 256);
    assert_eq!(mesh[3 * 16 + 4], h);
}

#[test]
fn terrain_is_deterministic_across_worlds() {
    let mut w1 = World::new(1);
    let mut w2 = World::new(1);
    w1.get_or_insert_chunk(2, -3);
    w2.get_or_insert_chunk(2, -3);
    let m1 = (**w1.get_chunk(2, -3).unwrap().mesh_handle()).clone();
    let m2 = (**w2.get_chunk(2, -3).unwrap().mesh_handle()).clone();
    assert_eq!(m1, m2);
}

#[test]
fn forced_refresh_sees_block_edits() {
    let mut w = World::new(1);
    w.get_world_mesh_from_perspective(0, 0, false);
    w.set_block(0, 60, 0, BlockType::Stone);
    let meshes = mesh_contents(w.get_world_mesh_from_perspective(0, 0, true));
    assert!(meshes.iter().any(|m| m[0] == 60));
}

#[test]
fn get_chunk_mut_only_for_existing() {
    let mut w = World::new(1);
    assert!(w.get_chunk_mut(4, 4).is_none());
    w.get_or_insert_chunk(4, 4);
    assert!(w.get_chunk_mut(4, 4).is_some());
}

#[test]
fn coord_map_basics() {
    let mut m: voxel_world::coord_map::CoordMap<u64> = voxel_world::coord_map::CoordMap::new();
    assert!(!m.contains(1, -2));
    m.insert(1, -2, 7);
    assert!(m.contains(1, -2));
    assert_eq!(m.get(1, -2), Some(&7));
    assert_eq!(m.get(-2, 1), None);
    m.insert(1, -2, 9);
    assert_eq!(m.get(1, -2), Some(&9));
    *m.get_existing_mut(1, -2) = 11;
    assert_eq!(m.get(1, -2), Some(&11));
}

#[test]
fn viewport_uses_floor_semantics_for_negative_positions() {
    let mut w = World::new(1);
    w.get_world_mesh_from_perspective(-1, -1, false);
    assert!(w.get_chunk(-1, -1).is_some());
}
