use voxel_world::chunk::{Chunk, CHUNK_SIZE_3};
use voxel_world::chunk_table::ChunkTable;
use voxel_world::rendering::spawn_plan;
use voxel_world::world_generator::{distance_below, Terrain, WorldGenerator};
use voxel_world::world_structure::WorldStructure;

fn zero(_x: i32, _z: i32) -> i32 {
    0
}

fn positive(_x: i32, _z: i32) -> bool {
    true
}

/// Flat ground at height 0 everywhere (below the grass level, so no structure is placed).
fn flat() -> Terrain<fn(i32, i32) -> i32, fn(i32, i32) -> bool> {
    Terrain { elevation: zero, grass_noise_positive: positive }
}

fn index(x: usize, y: usize, z: usize) -> usize {
    x * 256 + y * 16 + z
}

#[test]
fn default_generator_seed() {
    let g = WorldGenerator::default();
    assert_eq!(g.seed, 2137);
}

#[test]
fn generate_chunk_fills_flat_terrain() {
    let g = WorldGenerator::default();
    let mut t = ChunkTable::default();
    g.generate_chunk(&mut t, (0, 0, 0), &flat());
    let c = t.get_chunk((0, 0, 0)).unwrap();
    assert!(c.generated && c.structres_generated && c.structers_pre_generated);
    assert!(c.structure_table.is_empty());
    for x in 0..16 {
        for z in 0..16 {
            assert_eq!(c.blocks_table[index(x, 0, z)], 3);
            for y in 1..16 {
                assert_eq!(c.blocks_table[index(x, y, z)], 0);
            }
        }
    }
    // all 26 neighbours were added for their structures
    for dx in -1..2 {
        for dy in -1..2 {
            for dz in -1..2 {
                assert!(t.has_chunk((dx, dy, dz)));
            }
        }
    }
}

#[test]
fn generate_chunk_below_surface_layers() {
    let g = WorldGenerator::default();
    let mut t = ChunkTable::default();
    g.generate_chunk(&mut t, (0, -1, 0), &flat());
    let c = t.get_chunk((0, -1, 0)).unwrap();
    for x in 0..16 {
        for z in 0..16 {
            assert_eq!(c.blocks_table[index(x, 15, z)], 3);
            assert_eq!(c.blocks_table[index(x, 14, z)], 2);
            for y in 9..14 {
                assert_eq!(c.blocks_table[index(x, y, z)], 1);
            }
            for y in 0..9 {
                let b = c.blocks_table[index(x, y, z)];
                assert!(b == 1 || b == 5);
            }
        }
    }
}

#[test]
fn generate_chunk_twice_changes_nothing() {
    let g = WorldGenerator::default();
    let mut t = ChunkTable::default();
    g.generate_chunk(&mut t, (0, -1, 0), &flat());
    let before = t.get_chunk((0, -1, 0)).unwrap().blocks_table;
    g.generate_chunk(&mut t, (0, -1, 0), &flat());
    assert_eq!(t.get_chunk((0, -1, 0)).unwrap().blocks_table, before);
}

#[test]
fn high_chunks_stay_air() {
    let g = WorldGenerator::default();
    let mut t = ChunkTable::default();
    g.generate_chunk(&mut t, (0, 6, 0), &flat());
    let c = t.get_chunk((0, 6, 0)).unwrap();
    assert!(c.generated);
    assert!(c.blocks_table.iter().all(|b| *b == 0));
}

#[test]
fn faces_and_occlusion_of_flat_ground() {
    let g = WorldGenerator::default();
    let mut t = ChunkTable::default();
    g.generate_chunk(&mut t, (0, 0, 0), &flat());
    g.calculate_faces_table(&mut t, (0, 0, 0), 1, &flat());
    g.calculate_ambient_occlusion(&mut t, (0, 0, 0));
    let c = t.get_chunk((0, 0, 0)).unwrap();
    assert!(c.faces_calculated && c.aot_calculated);
    for x in 0..16 {
        for z in 0..16 {
            // only the top face is open
            assert_eq!(c.faces_table[index(x, 0, z)], 62);
            // inside the chunk the layer below is solid all round: its four corners are
            // shaded (at the edges it reaches into neighbours that were not generated)
            if 0 < x && x < 15 && 0 < z && z < 15 {
                assert_eq!(c.aot_table[index(x, 0, z)], 0b1111_0000);
            }
            assert_eq!(c.faces_table[index(x, 1, z)], 63);
            assert_eq!(c.aot_table[index(x, 1, z)], 0);
        }
    }
    let plan = spawn_plan(c);
    assert_eq!(plan.len(), 256);
    assert_eq!(plan[0].position, (0, 0, 0));
    assert_eq!(plan[17].position, (1, 0, 1));
    assert!(plan.iter().all(|b| b.block_type == 3 && b.collider));
    assert_eq!(plan[17].aot_mask, 240);
}

#[test]
fn greedy_mesher_merges_the_ground() {
    let g = WorldGenerator::default();
    let mut t = ChunkTable::default();
    g.generate_chunk(&mut t, (0, 0, 0), &flat());
    g.calculate_faces_table(&mut t, (0, 0, 0), 1, &flat());
    g.greedy_mesher_calculator(&mut t, (0, 0, 0));
    let c = t.get_chunk((0, 0, 0)).unwrap();
    // faces up (axis 0, orientation 0): one 16 x 16 rectangle at height 0
    assert_eq!(c.rects_table[0], vec![(0, 0, 0, 15, 15)]);
    for j in 1..6 {
        assert!(c.rects_table[j].is_empty());
    }
}

#[test]
fn generate_structures_draws_blocks_inside_the_chunk() {
    let g = WorldGenerator::default();
    let mut c = Chunk::from_position((0, 0, 0));
    c.structure_table.push(WorldStructure::logs((0, 5, 8), (0, 0, 0)));
    g.generate_structures(&mut c, false);
    assert_eq!(c.blocks_table[index(1, 6, 8)], 7);
    assert_eq!(c.blocks_table[index(0, 6, 8)], 7);
    // the block at x = -1 falls outside the chunk
    assert_eq!(c.blocks_table.iter().filter(|b| **b != 0).count(), 2);
    assert_eq!(c.blocks_table.len(), CHUNK_SIZE_3);
}

#[test]
fn generate_structures_mirrors_and_swaps() {
    let g = WorldGenerator::default();
    let mut c = Chunk::from_position((0, 0, 0));
    let mut s = WorldStructure::logs((8, 5, 8), (0, 0, 0));
    s.miroor_multiplier = (-1, 1, 1);
    s.mirror_axis = 2;
    c.external_structure_table.push(s);
    g.generate_structures(&mut c, true);
    // offsets (x, 1, 0) become (-x, 1, 0), then x and y swap: (1, -x, 0)
    assert_eq!(c.blocks_table[index(9, 4, 8)], 7);
    assert_eq!(c.blocks_table[index(9, 5, 8)], 7);
    assert_eq!(c.blocks_table[index(9, 6, 8)], 7);
}

#[test]
fn computing_faces_and_masks_again_changes_nothing() {
    let g = WorldGenerator::default();
    let mut t = ChunkTable::default();
    g.generate_chunk(&mut t, (0, 0, 0), &flat());
    g.calculate_faces_table(&mut t, (0, 0, 0), 1, &flat());
    g.calculate_ambient_occlusion(&mut t, (0, 0, 0));
    let faces = t.get_chunk((0, 0, 0)).unwrap().faces_table;
    let aot = t.get_chunk((0, 0, 0)).unwrap().aot_table;
    t.get_chunk_mut((0, 1, 0)).unwrap().blocks_table[0] = 1;
    g.calculate_faces_table(&mut t, (0, 0, 0), 2, &flat());
    g.calculate_ambient_occlusion(&mut t, (0, 0, 0));
    assert_eq!(t.get_chunk((0, 0, 0)).unwrap().faces_table, faces);
    assert_eq!(t.get_chunk((0, 0, 0)).unwrap().aot_table, aot);
}

#[test]
fn wide_level_of_detail_reads_chunks_two_away() {
    let g = WorldGenerator::default();
    let mut t = ChunkTable::default();
    g.generate_chunk(&mut t, (0, 0, 0), &flat());
    // the ground chunk two steps east is generated; the other far chunks stay empty
    g.generate_chunk(&mut t, (2, 0, 0), &flat());
    for p in [(-2, 0, 0), (0, 2, 0), (0, -2, 0), (0, 0, 2), (0, 0, -2)] {
        t.add_chunk(p);
    }
    g.calculate_faces_table(&mut t, (0, 0, 0), 32, &flat());
    let c = t.get_chunk((0, 0, 0)).unwrap();
    // only block (0, 0, 0) is on the grid; of its faces only the one towards the
    // solid ground 32 blocks east stays closed
    assert_eq!(c.faces_table[0], 4);
    assert!(c.faces_table[1..].iter().all(|m| *m == 0));
}

#[test]
fn spawn_pass_in_the_sky_spawns_every_scanned_chunk() {
    let g = WorldGenerator::default();
    let mut t = ChunkTable::default();
    t.player_position = (0, 100, 0);
    let shown = voxel_world::rendering::spawn_chunk(&mut t, &g, &flat());
    assert!(shown.is_empty());
    assert_eq!(t.prev_player_position, (0, 100, 0));
    let mut n = 0;
    for x in -7..8 {
        for y in 93..108 {
            for z in -7..8 {
                let d = x * x + (y - 100) * (y - 100) + z * z;
                if d <= 49 {
                    n += 1;
                    let c = t.get_chunk((x, y, z)).unwrap();
                    assert!(c.spawned && c.generated && c.faces_calculated && c.aot_calculated);
                    assert!(c.entities_table.is_empty());
                }
            }
        }
    }
    assert_eq!(n, 1419);
    // a second pass finds nothing new to spawn
    let again = voxel_world::rendering::spawn_chunk(&mut t, &g, &flat());
    assert!(again.is_empty());
}

#[test]
fn distances_compare_as_in_floating_point() {
    for (x, y, z, r) in [(250, 0, 0, 251), (177, 177, 0, 251), (0, -250, 0, 251), (249, 0, 0, 250), (100, 100, 100, 250)] {
        let d = ((x * x + y * y + z * z) as f32).sqrt() as i32;
        assert!(d < r);
        assert!(distance_below(x, y, z, r));
    }
    for (x, y, z, r) in [(251, 0, 0, 251), (178, 178, 0, 251), (250, 0, 0, 250), (0, 0, -300, 251), (150, 150, 150, 251)] {
        let d = ((x * x + y * y + z * z) as f32).sqrt() as i32;
        assert!(d >= r);
        assert!(!distance_below(x, y, z, r));
    }
    assert!(!distance_below(i32::MIN, i32::MIN, i32::MIN, 251));
}

#[test]
fn fill_column_fills_one_column_by_height() {
    let g = WorldGenerator::default();
    let mut blocks = [0i16; CHUNK_SIZE_3];
    // a column at world (3, 4) with its surface at height 10, in a table whose lowest
    // block is at height 0
    g.fill_column(&flat(), &mut blocks, 2, 5, 3, 4, 0, 10);
    let col: Vec<i16> = (0..16).map(|y| blocks[index(2, y, 5)]).collect();
    for y in 0..3 {
        assert!(col[y] == 1 || col[y] == 5);
    }
    for y in 3..8 {
        assert_eq!(col[y], 1);
    }
    assert_eq!(col[8], 2);
    assert_eq!(col[9], 3);
    assert!(col[10] == 3 || col[10] == 4);
    for y in 11..16 {
        assert_eq!(col[y], 0);
    }
    assert_eq!(blocks.iter().filter(|b| **b != 0).count(), 11);
}

#[test]
fn fill_column_fills_water_and_skips_far_depths() {
    let g = WorldGenerator::default();
    let mut blocks = [0i16; CHUNK_SIZE_3];
    // surface at -20, table from height -16: water from -16 up to the water level
    g.fill_column(&flat(), &mut blocks, 0, 0, 0, 0, -16, -20);
    for y in 0..11 {
        assert_eq!(blocks[index(0, y, 0)], 9);
    }
    for y in 11..16 {
        assert_eq!(blocks[index(0, y, 0)], 0);
    }
    // far from the origin, blocks below height 0 stay
    let mut far = [0i16; CHUNK_SIZE_3];
    g.fill_column(&flat(), &mut far, 0, 0, 1000, 0, -16, -20);
    assert!(far.iter().all(|b| *b == 0));
}

fn ridge(x: i32, z: i32) -> i32 {
    x.rem_euclid(3) - z.rem_euclid(3)
}

#[test]
fn each_column_is_filled_from_its_own_surface() {
    let g = WorldGenerator::default();
    let mut t = ChunkTable::default();
    let terrain: Terrain<fn(i32, i32) -> i32, fn(i32, i32) -> bool> = Terrain { elevation: ridge, grass_noise_positive: positive };
    g.generate_chunk(&mut t, (0, 0, 0), &terrain);
    let c = t.get_chunk((0, 0, 0)).unwrap();
    for x in 0..16 {
        for z in 0..16 {
            let e = ridge(x as i32, z as i32);
            for y in 0..16 {
                let b = c.blocks_table[index(x, y, z)];
                if (y as i32) <= e {
                    assert_ne!(b, 0);
                } else {
                    assert_eq!(b, 0);
                }
            }
        }
    }
}
