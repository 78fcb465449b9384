use voxel_world::cube_mesh::{create_ambient_occlusion, create_cube_mesh, create_cube_mesh2};
use voxel_world::rect_mesh::{create_chunk_mesh, create_rect_mesh, create_vertices_normals};

#[test]
fn full_cube_has_six_faces() {
    let m = create_cube_mesh(0);
    assert_eq!(m.corners.len(), 24);
    assert_eq!(m.normals.len(), 24);
    assert_eq!(m.indices.len(), 36);
    assert_eq!(&m.indices[0..6], &[0, 3, 1, 1, 3, 2]);
    assert_eq!(&m.indices[30..36], &[20, 21, 23, 21, 22, 23]);
    assert_eq!(m.corners[0], (-1, 1, -1));
    assert_eq!(m.normals[4], (0, -1, 0));
    // bottom corners are shaded, top ones are not
    assert!(!m.shaded[0]);
    assert!(m.shaded[4] && m.shaded[5] && m.shaded[6] && m.shaded[7]);
    assert!(m.indices.iter().all(|i| (*i as usize) < m.corners.len()));
}

#[test]
fn masked_faces_are_left_out() {
    // drop the top (bit 0) and the right side (bit 2)
    let m = create_cube_mesh(0b101);
    assert_eq!(m.corners.len(), 16);
    assert_eq!(m.indices.len(), 24);
    assert_eq!(m.normals[0], (0, -1, 0));
    assert_eq!(m.normals[4], (-1, 0, 0));
    assert_eq!(&m.indices[0..6], &[0, 1, 3, 1, 2, 3]);
    assert_eq!(&m.indices[6..12], &[4, 5, 7, 5, 6, 7]);
    assert!(m.indices.iter().all(|i| (*i as usize) < m.corners.len()));
    assert!(create_cube_mesh(63).corners.is_empty());
}

#[test]
fn cube_mesh2_shades_masked_corners() {
    let m = create_cube_mesh2(0b0000_0001);
    assert_eq!(m.corners.len(), 24);
    assert_eq!(m.indices.len(), 36);
    // corner (-1, 1, -1) appears in the top, left and front faces
    let shaded: Vec<usize> = (0..24).filter(|k| m.shaded[*k]).collect();
    assert_eq!(shaded, vec![0, 15, 21]);
    let none = create_cube_mesh2(0);
    assert!(none.shaded.iter().all(|s| !*s));
    let all = create_cube_mesh2(255);
    assert!(all.shaded.iter().all(|s| *s));
}

#[test]
fn ambient_occlusion_shading_of_kept_faces() {
    let s = create_ambient_occlusion(0b0001_0000, 0b11_1110);
    // only the top face is kept; corner 4 is a bottom corner
    assert_eq!(s, vec![false, false, false, false]);
    let s2 = create_ambient_occlusion(0b0001_0000, 0b11_1101);
    assert_eq!(s2, vec![true, false, false, false]);
}

#[test]
fn rectangle_vertices_in_half_units() {
    let (v, n) = create_vertices_normals(1, 2, 3, 2, 0, 0, true);
    assert_eq!(v, vec![(1, 5, 5), (7, 5, 5), (7, 5, 7), (1, 5, 7)]);
    assert_eq!(n, vec![(0, 1, 0); 4]);
    let (v1, n1) = create_vertices_normals(0, 0, 0, 1, 1, 1, false);
    assert_eq!(v1, vec![(-1, -1, -1), (-1, -1, 3), (-1, 3, 3), (-1, 3, -1)]);
    assert_eq!(n1, vec![(-1, 0, 0); 4]);
    let (v2, n2) = create_vertices_normals(0, 0, 0, 0, 0, 2, true);
    assert_eq!(v2, vec![(-1, -1, 1), (-1, 1, 1), (1, 1, 1), (1, -1, 1)]);
    assert_eq!(n2, vec![(0, 0, 1); 4]);
}

#[test]
fn rect_mesh_triangles_by_side() {
    assert_eq!(create_rect_mesh(0, 0, 0, 0, 0, 0, true).indices, vec![0, 3, 1, 1, 3, 2]);
    assert_eq!(create_rect_mesh(0, 0, 0, 0, 0, 0, false).indices, vec![0, 1, 3, 1, 2, 3]);
}

#[test]
fn chunk_mesh_numbers_rectangles_in_order() {
    let faces: [Vec<(i32, i32, i32, i32, i32)>; 6] =
        [vec![(0, 0, 0, 0, 0)], vec![], vec![(1, 1, 1, 1, 1)], vec![(2, 2, 2, 0, 0)], vec![], vec![]];
    let m = create_chunk_mesh(&faces);
    assert_eq!(m.vertices.len(), 12);
    assert_eq!(m.normals.len(), 12);
    assert_eq!(m.indices, vec![0, 3, 1, 1, 3, 2, 4, 7, 5, 5, 7, 6, 8, 9, 11, 9, 10, 11]);
    assert_eq!(m.normals[4], (1, 0, 0));
    assert_eq!(m.normals[8], (-1, 0, 0));
    assert!(m.indices.iter().all(|i| (*i as usize) < m.vertices.len()));
}
