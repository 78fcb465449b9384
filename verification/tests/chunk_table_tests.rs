use voxel_world::chunk::{Chunk, CHUNK_SIZE, CHUNK_SIZE_3};
use voxel_world::chunk_table::ChunkTable;

#[test]
fn default_chunk_is_empty() {
    let c = Chunk::default();
    assert_eq!(c.world_chunk_position, (0, 0, 0));
    assert_eq!(c.blocks_table.len(), CHUNK_SIZE_3);
    assert!(c.blocks_table.iter().all(|b| *b == 0));
    assert!(c.faces_table.iter().all(|f| *f == 0));
    assert!(c.aot_table.iter().all(|a| *a == 0));
    assert!(c.structure_table.is_empty() && c.external_structure_table.is_empty() && c.entities_table.is_empty());
    assert!(c.rects_table.iter().all(|r| r.is_empty()));
    assert!(!c.spawned && !c.generated && !c.faces_calculated && !c.aot_calculated);
    assert!(!c.structers_pre_generated && !c.structres_generated);
}

#[test]
fn chunk_from_position_and_world_position() {
    let c = Chunk::from_position((2, -1, 3));
    assert_eq!(c.world_chunk_position, (2, -1, 3));
    assert!(!c.generated);
    assert_eq!(c.calculate_world_positon((1, 2, 3)), (33, -14, 51));
    assert_eq!(c.calculate_world_positon((0, 0, 0)), (32, -16, 48));
}

#[test]
fn default_table() {
    let t = ChunkTable::default();
    assert_eq!(t.player_position, (0, 0, 0));
    assert_eq!(t.prev_player_position, (0, 2137, 0));
    assert!(!t.has_chunk((0, 0, 0)));
    assert!(t.get_chunk((0, 0, 0)).is_none());
}

#[test]
fn add_chunk_adds_once() {
    let mut t = ChunkTable::default();
    t.add_chunk((1, 2, 3));
    assert!(t.has_chunk((1, 2, 3)));
    t.get_chunk_mut((1, 2, 3)).unwrap().spawned = true;
    t.add_chunk((1, 2, 3));
    assert!(t.get_chunk((1, 2, 3)).unwrap().spawned);
    assert_eq!(t.get_chunk((1, 2, 3)).unwrap().world_chunk_position, (1, 2, 3));
}

#[test]
fn get_add_chunk_adds_missing_and_keeps_existing() {
    let mut t = ChunkTable::default();
    assert!(!t.get_add_chunk((0, 1, 0)).generated);
    assert!(t.has_chunk((0, 1, 0)));
    t.get_add_chunk_mut((0, 1, 0)).generated = true;
    assert!(t.get_add_chunk((0, 1, 0)).generated);
    assert!(t.get_chunk_mut((5, 5, 5)).is_none());
}

#[test]
fn get_block_reads_own_and_neighbour_chunks() {
    let mut t = ChunkTable::default();
    t.add_chunk((0, 0, 0));
    t.add_chunk((-1, 0, 0));
    t.add_chunk((0, 1, 0));
    t.get_chunk_mut((0, 0, 0)).unwrap().blocks_table[1 * 256 + 2 * 16 + 3] = 4;
    t.get_chunk_mut((-1, 0, 0)).unwrap().blocks_table[15 * 256 + 2 * 16 + 3] = 6;
    t.get_chunk_mut((0, 1, 0)).unwrap().blocks_table[1 * 256 + 0 * 16 + 3] = 9;
    assert_eq!(t.get_block((0, 0, 0), (1, 2, 3)), 4);
    assert_eq!(t.get_block((0, 0, 0), (-1, 2, 3)), 6);
    assert_eq!(t.get_block((0, 0, 0), (1, CHUNK_SIZE as i32, 3)), 9);
    assert_eq!(t.get_block((-1, 0, 0), (17, 2, 3)), 4);
    assert_eq!(t.get_block((0, 0, 0), (0, 0, 0)), 0);
}

#[test]
fn update_rendered_chunks_drops_far_chunks() {
    let mut t = ChunkTable::default();
    let found = voxel_world::rendering::bfs_distance_points_generator((0, 0, 0), &mut t.rendered_chunk_set, 1);
    for p in found.iter() {
        t.add_chunk(*p);
        t.get_chunk_mut(*p).unwrap().spawned = true;
    }
    let mut removed = t.update_rendered_chunks((5, 0, 0), 5);
    removed.sort();
    assert_eq!(removed, vec![(-1, 0, 0), (0, -1, 0), (0, 0, -1), (0, 0, 1), (0, 1, 0)]);
    for p in found.iter() {
        let far = removed.contains(p);
        assert_eq!(t.get_chunk(*p).unwrap().spawned, !far);
    }
    // the kept chunks are still rendered: scanning again around the origin finds only the
    // dropped ones
    let mut again = voxel_world::rendering::bfs_distance_points_generator((0, 0, 0), &mut t.rendered_chunk_set, 1);
    again.sort();
    assert_eq!(again, removed);
}
