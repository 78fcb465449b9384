use voxel_world::world_structure::WorldStructure;

#[test]
fn default_structure_is_empty_and_unmirrored() {
    let s = WorldStructure::default();
    assert_eq!(s.root, (0, 0, 0));
    assert_eq!(s.root_chunk_position, (0, 0, 0));
    assert!(s.blocks.is_empty());
    assert_eq!(s.miroor_multiplier, (1, 1, 1));
    assert_eq!(s.mirror_axis, -1);
}

#[test]
fn tree_has_trunk_and_crown() {
    let s = WorldStructure::tree((3, 4, 5), (1, 0, -1));
    assert_eq!(s.root, (3, 4, 5));
    assert_eq!(s.root_chunk_position, (1, 0, -1));
    assert_eq!(s.blocks.len(), 26);
    assert_eq!(s.blocks[0], ((0, 0, 0), 7));
    assert_eq!(s.blocks[3], ((0, 3, 0), 7));
    assert_eq!(s.blocks[25], ((0, 5, 0), 8));
    assert_eq!(s.blocks.iter().filter(|b| b.1 == 7).count(), 4);
}

#[test]
fn recoloured_trees_shift_block_types() {
    let t = WorldStructure::tree((0, 0, 0), (0, 0, 0));
    let birch = WorldStructure::brich_tree((0, 0, 0), (0, 0, 0));
    let oak = WorldStructure::dark_oak_tree((0, 0, 0), (0, 0, 0));
    assert_eq!(birch.blocks.len(), t.blocks.len());
    assert_eq!(oak.blocks.len(), t.blocks.len());
    for i in 0..t.blocks.len() {
        assert_eq!(birch.blocks[i].0, t.blocks[i].0);
        assert_eq!(birch.blocks[i].1, t.blocks[i].1 + 3);
        assert_eq!(oak.blocks[i].1, t.blocks[i].1 + 5);
    }
}

#[test]
fn small_structures() {
    assert_eq!(WorldStructure::big_tree((0, 0, 0), (0, 0, 0)).blocks.len(), 37);
    assert_eq!(WorldStructure::bush((0, 0, 0), (0, 0, 0)).blocks.len(), 7);
    assert_eq!(WorldStructure::small_bush((0, 0, 0), (0, 0, 0)).blocks, vec![((0, 0, 0), 8), ((0, 1, 0), 8)]);
    assert_eq!(WorldStructure::logs((0, 0, 0), (0, 0, 0)).blocks, vec![((1, 1, 0), 7), ((0, 1, 0), 7), ((-1, 1, 0), 7)]);
}

#[test]
fn indexed_structures_follow_the_index() {
    assert_eq!(WorldStructure::get_indexed_length(), 8);
    let r = (1, 2, 3);
    let c = (0, 0, 0);
    let expected = [
        WorldStructure::tree(r, c).blocks,
        WorldStructure::big_tree(r, c).blocks,
        WorldStructure::tree(r, c).blocks,
        WorldStructure::small_bush(r, c).blocks,
        WorldStructure::brich_tree(r, c).blocks,
        WorldStructure::logs(r, c).blocks,
        WorldStructure::dark_oak_tree(r, c).blocks,
        WorldStructure::bush(r, c).blocks,
    ];
    for i in 0..8 {
        let s = WorldStructure::indexed_structure(r, c, i);
        assert_eq!(s.blocks, expected[i as usize]);
        assert_eq!(s.root, r);
    }
    assert_eq!(WorldStructure::indexed_structure(r, c, 42).blocks, WorldStructure::bush(r, c).blocks);
}

#[test]
fn duplicate_copies_every_field() {
    let mut s = WorldStructure::logs((1, 2, 3), (4, 5, 6));
    s.miroor_multiplier = (-1, 1, -1);
    s.mirror_axis = 1;
    let d = s.duplicate();
    assert_eq!(d.root, s.root);
    assert_eq!(d.root_chunk_position, s.root_chunk_position);
    assert_eq!(d.blocks, s.blocks);
    assert_eq!(d.miroor_multiplier, s.miroor_multiplier);
    assert_eq!(d.mirror_axis, s.mirror_axis);
}
