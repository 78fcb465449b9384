use voxel_world::greedy::greedy_layer;

fn covered_by(rs: &[(usize, usize, usize, usize)], x: usize, z: usize) -> usize {
    rs.iter().filter(|r| r.0 <= x && x < r.0 + r.2 && r.1 <= z && z < r.1 + r.3).count()
}

#[test]
fn empty_layer_has_no_rectangles() {
    let grid = [-1i16; 256];
    assert!(greedy_layer(&grid).is_empty());
}

#[test]
fn full_layer_is_one_rectangle() {
    let grid = [3i16; 256];
    assert_eq!(greedy_layer(&grid), vec![(0, 0, 16, 16)]);
}

#[test]
fn two_values_split_rows() {
    let mut grid = [-1i16; 256];
    for z in 0..2 {
        for x in 0..4 {
            grid[z * 16 + x] = if x < 2 { 1 } else { 2 };
        }
    }
    grid[2 * 16 + 0] = 1;
    assert_eq!(greedy_layer(&grid), vec![(0, 0, 2, 2), (2, 0, 2, 2), (0, 2, 1, 1)]);
}

#[test]
fn greedy_widens_before_lengthening() {
    let mut grid = [-1i16; 256];
    // an L: row 0 has x 0..3, rows 1..3 have x 0 only
    for x in 0..3 {
        grid[x] = 5;
    }
    for z in 1..3 {
        grid[z * 16] = 5;
    }
    assert_eq!(greedy_layer(&grid), vec![(0, 0, 3, 1), (0, 1, 1, 2)]);
}

#[test]
fn rectangles_partition_the_faces() {
    let mut grid = [-1i16; 256];
    for i in 0..256 {
        let x = i % 16;
        let z = i / 16;
        if (x * 7 + z * 3) % 5 != 0 {
            grid[i] = ((x / 4 + z / 3) % 3) as i16;
        }
    }
    let rs = greedy_layer(&grid);
    for z in 0..16 {
        for x in 0..16 {
            let c = covered_by(&rs, x, z);
            if grid[z * 16 + x] == -1 {
                assert_eq!(c, 0);
            } else {
                assert_eq!(c, 1);
            }
        }
    }
    for r in rs.iter() {
        let v = grid[r.1 * 16 + r.0];
        for z in r.1..r.1 + r.3 {
            for x in r.0..r.0 + r.2 {
                assert_eq!(grid[z * 16 + x], v);
            }
        }
    }
    assert_eq!(greedy_layer(&grid), rs);
}
