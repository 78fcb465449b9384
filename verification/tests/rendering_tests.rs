use std::collections::HashSet;

use voxel_world::chunk::Chunk;
use voxel_world::chunk_loader::ChunkLoader;
use voxel_world::controls::{initial_controls, update_controls, CameraMode, ControlKeys};
use voxel_world::chunk_table::ChunkTable;
use voxel_world::rendering::{bfs_distance_points_generator, spawn_plan, BlockColorTable};

#[test]
fn block_colors_by_type() {
    let t = BlockColorTable::default();
    assert_eq!(t.colors.len(), 14);
    assert_eq!(t.colors[0], (127, 127, 127));
    assert_eq!(t.colors[3], (106, 153, 85));
    assert_eq!(t.colors[9], (0, 122, 204));
    assert_eq!(t.colors[13], (141, 56, 33));
}

#[test]
fn spawn_plan_shows_visible_solid_blocks() {
    let mut c = Chunk::from_position((1, 0, -1));
    c.blocks_table[0] = 2; // (0, 0, 0), open on some side
    c.faces_table[0] = 1;
    c.blocks_table[16] = 4; // (0, 1, 0), right above it
    c.faces_table[16] = 0;
    c.aot_table[16] = 7;
    c.blocks_table[5] = 3; // (0, 0, 5), hidden on every side
    c.faces_table[5] = 63;
    c.faces_table[6] = 0; // (0, 0, 6), air
    c.blocks_table[15 * 256 + 15 * 16 + 15] = 8; // top corner of the chunk
    c.faces_table[15 * 256 + 15 * 16 + 15] = 3;
    let plan = spawn_plan(&c);
    assert_eq!(plan.len(), 3);
    assert_eq!(plan[0].position, (16, 0, -16));
    assert_eq!(plan[0].block_type, 2);
    assert!(!plan[0].collider);
    assert_eq!(plan[1].position, (16, 1, -16));
    assert_eq!(plan[1].aot_mask, 7);
    assert!(plan[1].collider);
    assert_eq!(plan[2].position, (31, 15, -1));
    assert!(plan[2].collider);
}

#[test]
fn scan_finds_the_sphere_in_order() {
    let mut t = ChunkTable::default();
    let found = bfs_distance_points_generator((0, 0, 0), &mut t.rendered_chunk_set, 1);
    assert_eq!(found, vec![(-1, 0, 0), (0, 0, -1), (0, -1, 0), (0, 0, 0), (0, 1, 0), (0, 0, 1), (1, 0, 0)]);
    let again = bfs_distance_points_generator((0, 0, 0), &mut t.rendered_chunk_set, 1);
    assert!(again.is_empty());
    let wider = bfs_distance_points_generator((0, 0, 0), &mut t.rendered_chunk_set, 2);
    assert_eq!(wider.len(), 33 - 7);
    assert!(!wider.contains(&(0, 0, 0)));
}

#[test]
fn chunk_loader_bfs_covers_the_sphere_once() {
    let mut l = ChunkLoader::default();
    l.set_player_position((3, 3, 3));
    let found = l.bfs_distance_points_generator((0, 0, 0));
    assert_eq!(found.len(), 4169);
    assert_eq!(found[0], (0, 0, 0));
    assert_eq!(found[1], (-1, -1, -1));
    let distinct: HashSet<(i32, i32, i32)> = found.iter().cloned().collect();
    assert_eq!(distinct.len(), found.len());
    assert!(found.iter().all(|p| p.0 * p.0 + p.1 * p.1 + p.2 * p.2 <= 100));
    assert!(l.bfs_distance_points_generator((0, 0, 0)).is_empty());
    ChunkLoader::get_chunks_to_generate();
    ChunkLoader::get_chunks_to_spawn();
    ChunkLoader::get_chunks_to_despawn();
}

#[test]
fn controls_pause_and_switch_modes() {
    let c = initial_controls();
    assert!(c.paused);
    assert_eq!(c.camera_mode, CameraMode::Spectator);
    let keys = ControlKeys { pause_toggled: false, first_person: true, spectator: false, third_person: false };
    // paused: nothing switches
    let (c1, changed) = update_controls(c, keys);
    assert!(c1.paused && !changed && c1.camera_mode == CameraMode::Spectator);
    // unpause and switch in the same frame
    let (c2, changed2) = update_controls(c, ControlKeys { pause_toggled: true, ..keys });
    assert!(!c2.paused && changed2 && c2.camera_mode == CameraMode::FirstPerson);
    // F wins over H; E is ignored when already spectating
    let both = ControlKeys { pause_toggled: false, first_person: true, spectator: true, third_person: true };
    let (c3, _) = update_controls(c2, both);
    assert_eq!(c3.camera_mode, CameraMode::Spectator);
    let (c4, changed4) = update_controls(c3, ControlKeys { pause_toggled: false, first_person: false, spectator: true, third_person: true });
    assert!(changed4);
    assert_eq!(c4.camera_mode, CameraMode::ThirdPerson);
    let (c5, changed5) = update_controls(c4, ControlKeys { pause_toggled: true, first_person: true, spectator: false, third_person: false });
    assert!(c5.paused && !changed5 && c5.camera_mode == CameraMode::ThirdPerson);
}
