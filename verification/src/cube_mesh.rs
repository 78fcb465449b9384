use vstd::prelude::*;
use vstd::arithmetic::div_mod::{lemma_fundamental_div_mod, lemma_fundamental_div_mod_converse};

verus! {

/// A corner of the unit cube around the origin, by the signs of its coordinates:
/// each component is `1` for `+0.5` or `-1` for `-0.5`.
pub type Corner = (i8, i8, i8);

/// A unit vector along an axis, as three components in `-1 ..= 1`.
pub type Normal = (i8, i8, i8);

/// The cross product `(b - a) x (c - a)` of triangle `a`, `b`, `c`, dotted with `n`:
/// positive when the triangle is wound counter-clockwise seen from the side `n` points to,
/// that is, when it faces along `n`.
pub open spec fn facing(a: (int, int, int), b: (int, int, int), c: (int, int, int), n: (int, int, int)) -> int {
    let (ux, uy, uz) = (b.0 - a.0, b.1 - a.1, b.2 - a.2);
    let (vx, vy, vz) = (c.0 - a.0, c.1 - a.1, c.2 - a.2);
    (uy * vz - uz * vy) * n.0 + (uz * vx - ux * vz) * n.1 + (ux * vy - uy * vx) * n.2
}

/// The components of a small vector as integers.
pub open spec fn ints(v: (i8, i8, i8)) -> (int, int, int) {
    (v.0 as int, v.1 as int, v.2 as int)
}

/// The four corners of each face of the cube, face after face: top (+y), bottom (-y),
/// right (+x), left (-x), back (+z), front (-z).
pub open spec fn cube_corners() -> Seq<Corner> {
    seq![
        (-1i8, 1i8, -1i8), (1i8, 1i8, -1i8), (1i8, 1i8, 1i8), (-1i8, 1i8, 1i8),
        (-1i8, -1i8, -1i8), (1i8, -1i8, -1i8), (1i8, -1i8, 1i8), (-1i8, -1i8, 1i8),
        (1i8, -1i8, -1i8), (1i8, -1i8, 1i8), (1i8, 1i8, 1i8), (1i8, 1i8, -1i8),
        (-1i8, -1i8, -1i8), (-1i8, -1i8, 1i8), (-1i8, 1i8, 1i8), (-1i8, 1i8, -1i8),
        (-1i8, -1i8, 1i8), (-1i8, 1i8, 1i8), (1i8, 1i8, 1i8), (1i8, -1i8, 1i8),
        (-1i8, -1i8, -1i8), (-1i8, 1i8, -1i8), (1i8, 1i8, -1i8), (1i8, -1i8, -1i8),
    ]
}

/// The outward normal of each face, in the order of `cube_corners`.
pub open spec fn face_normals() -> Seq<Normal> {
    seq![(0i8, 1i8, 0i8), (0i8, -1i8, 0i8), (1i8, 0i8, 0i8), (-1i8, 0i8, 0i8), (0i8, 0i8, 1i8), (0i8, 0i8, -1i8)]
}

/// Two triangles per face, counter-clockwise seen from outside, as indices into `cube_corners`.
pub open spec fn cube_indices() -> Seq<u32> {
    seq![
        0u32, 3, 1, 1, 3, 2,
        4, 5, 7, 5, 6, 7,
        8, 11, 9, 9, 11, 10,
        12, 13, 15, 13, 14, 15,
        16, 19, 17, 17, 19, 18,
        20, 21, 23, 21, 22, 23,
    ]
}

/// The vertex data of a cube mesh: per vertex its corner, normal and whether it is
/// shaded (drawn at half brightness), and the triangles as vertex indices.
pub struct CubeMesh {
    pub corners: Vec<Corner>,
    pub normals: Vec<Normal>,
    pub shaded: Vec<bool>,
    pub indices: Vec<u32>,
}

/// Bit `i` of `mask` is set.
pub open spec fn bit_set(mask: u8, i: int) -> bool {
    mask & (1u8 << (i as u8)) != 0
}

/// Corner `c` is one of the first eight corners of `cube_corners` (the top and bottom
/// faces) that `picks` picks.
pub open spec fn shaded_by(picks: spec_fn(int) -> bool, c: Corner) -> bool {
    exists|w: int| 0 <= w < 8 && picks(w) && #[trigger] cube_corners()[w] == c
}

/// The faces of the cube among the first `n` whose bit in `mask` is clear, in order.
pub open spec fn kept_faces(mask: u8, n: int) -> Seq<int>
    decreases n,
{
    if n <= 0 {
        Seq::empty()
    } else if !bit_set(mask, n - 1) {
        kept_faces(mask, n - 1).push(n - 1)
    } else {
        kept_faces(mask, n - 1)
    }
}

/// `m` holds the faces `faces` of the cube, in order: their corners and normals, each
/// vertex shaded as `picks` says of its corner, and each face's triangles renumbered to
/// its place in `m`.
pub open spec fn cube_mesh_of(m: (Seq<Corner>, Seq<Normal>, Seq<bool>, Seq<u32>), faces: Seq<int>, picks: spec_fn(int) -> bool) -> bool {
    let (corners, normals, shaded, indices) = m;
    &&& corners.len() == 4 * faces.len()
    &&& normals.len() == 4 * faces.len()
    &&& shaded.len() == 4 * faces.len()
    &&& indices.len() == 6 * faces.len()
    &&& forall|k: int| 0 <= k < corners.len() ==> {
        &&& #[trigger] corners[k] == cube_corners()[faces[k / 4] * 4 + k % 4]
        &&& normals[k] == face_normals()[faces[k / 4]]
        &&& shaded[k] == shaded_by(picks, corners[k])
    }
    &&& forall|t: int| 0 <= t < indices.len() ==> #[trigger] indices[t] == cube_indices()[faces[t / 6] * 6 + t % 6] - faces[t / 6] * 4 + (t / 6) * 4
}

impl CubeMesh {
    pub open spec fn parts(&self) -> (Seq<Corner>, Seq<Normal>, Seq<bool>, Seq<u32>) {
        (self.corners@, self.normals@, self.shaded@, self.indices@)
    }
}

fn corner_table() -> (t: Vec<Corner>)
    ensures
        t@ == cube_corners(),
{
    let t: Vec<Corner> = vec![
        (-1, 1, -1), (1, 1, -1), (1, 1, 1), (-1, 1, 1),
        (-1, -1, -1), (1, -1, -1), (1, -1, 1), (-1, -1, 1),
        (1, -1, -1), (1, -1, 1), (1, 1, 1), (1, 1, -1),
        (-1, -1, -1), (-1, -1, 1), (-1, 1, 1), (-1, 1, -1),
        (-1, -1, 1), (-1, 1, 1), (1, 1, 1), (1, -1, 1),
        (-1, -1, -1), (-1, 1, -1), (1, 1, -1), (1, -1, -1),
    ];
    assert(t@ =~= cube_corners());
    t
}

fn normal_table() -> (t: Vec<Normal>)
    ensures
        t@ == face_normals(),
{
    let t: Vec<Normal> = vec![(0, 1, 0), (0, -1, 0), (1, 0, 0), (-1, 0, 0), (0, 0, 1), (0, 0, -1)];
    assert(t@ =~= face_normals());
    t
}

fn index_table() -> (t: Vec<u32>)
    ensures
        t@ == cube_indices(),
{
    let t: Vec<u32> = vec![
        0, 3, 1, 1, 3, 2,
        4, 5, 7, 5, 6, 7,
        8, 11, 9, 9, 11, 10,
        12, 13, 15, 13, 14, 15,
        16, 19, 17, 17, 19, 18,
        20, 21, 23, 21, 22, 23,
    ];
    assert(t@ =~= cube_indices());
    t
}

/// The bottom corners of the cube (`cube_corners` 4 to 7).
pub open spec fn bottom_corners(w: int) -> bool {
    4 <= w < 8
}

/// The corners whose bit is set in `mask`.
pub open spec fn masked_corners(mask: u8) -> spec_fn(int) -> bool {
    |w: int| bit_set(mask, w)
}

/// Whether `corner` is one of the corners picked by `mask` (when `by_mask`) or one of
/// the bottom corners (otherwise).
fn corner_shaded(corners: &Vec<Corner>, corner: Corner, mask: u8, by_mask: bool) -> (s: bool)
    requires
        corners@ == cube_corners(),
    ensures
        s == shaded_by(if by_mask { masked_corners(mask) } else { |w: int| bottom_corners(w) }, corner),
{
    let ghost picks = if by_mask { masked_corners(mask) } else { |w: int| bottom_corners(w) };
    let mut is_shaded = false;
    let mut w: usize = 0;
    while w < 8
        invariant
            corners@ == cube_corners(),
            picks == (if by_mask { masked_corners(mask) } else { |w: int| bottom_corners(w) }),
            w <= 8,
            is_shaded == exists|v: int| 0 <= v < w && picks(v) && #[trigger] cube_corners()[v] == corner,
        decreases 8 - w,
    {
        let picked = if by_mask { mask & (1u8 << (w as u8)) != 0 } else { 4 <= w && w <= 7 };
        assert(picked == picks(w as int));
        let other = corners[w];
        if picked && other.0 == corner.0 && other.1 == corner.1 && other.2 == corner.2 {
            is_shaded = true;
        }
        assert(is_shaded == exists|v: int| 0 <= v < w + 1 && picks(v) && #[trigger] cube_corners()[v] == corner) by {
            if picked && cube_corners()[w as int] == corner {
                assert(0 <= w < w + 1 && picks(w as int) && cube_corners()[w as int] == corner);
            }
        }
        w += 1;
    }
    is_shaded
}

/// Appends face `i` of the cube to `m`: its corners, normals, shading and triangles.
#[verifier::spinoff_prover]
fn push_face(m: &mut CubeMesh, corners: &Vec<Corner>, normals: &Vec<Normal>, indices: &Vec<u32>, i: usize, cnt: u32, mask: u8, by_mask: bool, Ghost(faces): Ghost<Seq<int>>)
    requires
        corners@ == cube_corners(),
        normals@ == face_normals(),
        indices@ == cube_indices(),
        i < 6,
        cnt < 6,
        faces.len() == cnt,
        cube_mesh_of(old(m).parts(), faces, if by_mask { masked_corners(mask) } else { |w: int| bottom_corners(w) }),
    ensures
        cube_mesh_of(final(m).parts(), faces.push(i as int), if by_mask { masked_corners(mask) } else { |w: int| bottom_corners(w) }),
{
    let ghost picks = if by_mask { masked_corners(mask) } else { |w: int| bottom_corners(w) };
    let ghost fs = faces.push(i as int);
    let ghost m0 = m.parts();
    let mut j: usize = 0;
    while j < 4
        invariant
            corners@ == cube_corners(),
            normals@ == face_normals(),
            i < 6,
            cnt < 6,
            faces.len() == cnt,
            fs == faces.push(i as int),
            picks == (if by_mask { masked_corners(mask) } else { |w: int| bottom_corners(w) }),
            j <= 4,
            m.corners@.len() == 4 * cnt + j,
            m.normals@.len() == 4 * cnt + j,
            m.shaded@.len() == 4 * cnt + j,
            m.indices@ == m0.3,
            forall|k: int| 0 <= k < m.corners@.len() ==> {
                &&& #[trigger] m.corners@[k] == cube_corners()[fs[k / 4] * 4 + k % 4]
                &&& m.normals@[k] == face_normals()[fs[k / 4]]
                &&& m.shaded@[k] == shaded_by(picks, m.corners@[k])
            },
        decreases 4 - j,
    {
        let corner = corners[i * 4 + j];
        let ghost bc = m.corners@;
        let ghost bn = m.normals@;
        let ghost bs = m.shaded@;
        m.corners.push(corner);
        m.normals.push(normals[i]);
        let s = corner_shaded(corners, corner, mask, by_mask);
        m.shaded.push(s);
        proof {
            let k = (4 * cnt + j) as int;
            assert(k / 4 == cnt && k % 4 == j);
            assert(fs[cnt as int] == i);
            assert forall|k2: int| 0 <= k2 < m.corners@.len() implies {
                &&& #[trigger] m.corners@[k2] == cube_corners()[fs[k2 / 4] * 4 + k2 % 4]
                &&& m.normals@[k2] == face_normals()[fs[k2 / 4]]
                &&& m.shaded@[k2] == shaded_by(picks, m.corners@[k2])
            } by {
                if k2 < k {
                    assert(m.corners@[k2] == bc[k2]);
                    assert(m.normals@[k2] == bn[k2]);
                    assert(m.shaded@[k2] == bs[k2]);
                } else {
                    assert(k2 == k);
                    assert(m.corners@[k2] == corner);
                    assert(m.normals@[k2] == face_normals()[i as int]);
                    assert(m.shaded@[k2] == s);
                }
            }
        }
        j += 1;
    }
    let mut t: usize = 0;
    while t < 6
        invariant
            indices@ == cube_indices(),
            i < 6,
            cnt < 6,
            faces.len() == cnt,
            fs == faces.push(i as int),
            t <= 6,
            m.indices@.len() == 6 * cnt + t,
            forall|q: int| 0 <= q < m.indices@.len() ==> #[trigger] m.indices@[q] == cube_indices()[fs[q / 6] * 6 + q % 6] - fs[q / 6] * 4 + (q / 6) * 4,
            m.corners@.len() == 4 * cnt + 4,
            m.normals@.len() == 4 * cnt + 4,
            m.shaded@.len() == 4 * cnt + 4,
            forall|k: int| 0 <= k < m.corners@.len() ==> {
                &&& #[trigger] m.corners@[k] == cube_corners()[fs[k / 4] * 4 + k % 4]
                &&& m.normals@[k] == face_normals()[fs[k / 4]]
                &&& m.shaded@[k] == shaded_by(picks, m.corners@[k])
            },
        decreases 6 - t,
    {
        assert(cube_indices()[i * 6 + t] >= i * 4);
        let v = indices[t + i * 6] - (i as u32) * 4 + cnt * 4;
        m.indices.push(v);
        proof {
            let q = (6 * cnt + t) as int;
            assert(q / 6 == cnt && q % 6 == t);
            assert(fs[cnt as int] == i);
        }
        t += 1;
    }
    proof {
        assert forall|q: int| 0 <= q < m.indices@.len() implies #[trigger] m.indices@[q] == cube_indices()[fs[q / 6] * 6 + q % 6] - fs[q / 6] * 4 + (q / 6) * 4 by {
        }
    }
}

/// The faces of the cube whose bit in `face_mask` is clear, shaded by the corners that
/// `shade_mask` picks (when `by_mask`) or by the bottom corners.
fn build_cube(face_mask: u8, shade_mask: u8, by_mask: bool) -> (m: CubeMesh)
    ensures
        cube_mesh_of(m.parts(), kept_faces(face_mask, 6), if by_mask { masked_corners(shade_mask) } else { |w: int| bottom_corners(w) }),
{
    let ghost picks = if by_mask { masked_corners(shade_mask) } else { |w: int| bottom_corners(w) };
    let corners = corner_table();
    let normals = normal_table();
    let indices = index_table();
    let mut m = CubeMesh { corners: Vec::new(), normals: Vec::new(), shaded: Vec::new(), indices: Vec::new() };
    let mut cnt: u32 = 0;
    let mut i: usize = 0;
    while i < 6
        invariant
            corners@ == cube_corners(),
            normals@ == face_normals(),
            indices@ == cube_indices(),
            picks == (if by_mask { masked_corners(shade_mask) } else { |w: int| bottom_corners(w) }),
            i <= 6,
            cnt == kept_faces(face_mask, i as int).len(),
            cnt <= i,
            cube_mesh_of(m.parts(), kept_faces(face_mask, i as int), picks),
        decreases 6 - i,
    {
        if face_mask & (1u8 << (i as u8)) == 0 {
            push_face(&mut m, &corners, &normals, &indices, i, cnt, shade_mask, by_mask, Ghost(kept_faces(face_mask, i as int)));
            cnt += 1;
        }
        i += 1;
    }
    m
}

/// The cube with the faces whose bit is set in `mask` left out (bit `i` for face `i` of
/// `cube_corners`), its bottom corners shaded.
pub fn create_cube_mesh(mask: u8) -> (m: CubeMesh)
    ensures
        cube_mesh_of(m.parts(), kept_faces(mask, 6), |w: int| bottom_corners(w)),
{
    build_cube(mask, 0, false)
}

/// The shading of the vertices of the faces that `mask` keeps: a vertex is shaded when its
/// corner is one that `occlusion_type` picks.
pub fn create_ambient_occlusion(occlusion_type: u8, mask: u8) -> (shades: Vec<bool>)
    ensures
        shades@.len() == 4 * kept_faces(mask, 6).len(),
        forall|k: int| 0 <= k < shades@.len() ==> #[trigger] shades@[k] == shaded_by(
            masked_corners(occlusion_type),
            cube_corners()[kept_faces(mask, 6)[k / 4] * 4 + k % 4],
        ),
{
    let m = build_cube(mask, occlusion_type, true);
    proof {
        assert forall|k: int| 0 <= k < m.shaded@.len() implies #[trigger] m.shaded@[k] == shaded_by(
            masked_corners(occlusion_type),
            cube_corners()[kept_faces(mask, 6)[k / 4] * 4 + k % 4],
        ) by {
            assert(m.corners@[k] == cube_corners()[kept_faces(mask, 6)[k / 4] * 4 + k % 4]);
        }
    }
    m.shaded
}

/// The whole cube, each corner shaded when its bit is set in `mask` (bit `w` for corner
/// `w` of `cube_corners`, `w < 8`: the top and bottom corners).
pub fn create_cube_mesh2(mask: u8) -> (m: CubeMesh)
    ensures
        cube_mesh_of(m.parts(), seq![0int, 1, 2, 3, 4, 5], masked_corners(mask)),
{
    let corners = corner_table();
    let normals = normal_table();
    let indices = index_table();
    let mut m = CubeMesh { corners: Vec::new(), normals: Vec::new(), shaded: Vec::new(), indices: Vec::new() };
    let mut i: usize = 0;
    while i < 6
        invariant
            corners@ == cube_corners(),
            normals@ == face_normals(),
            indices@ == cube_indices(),
            i <= 6,
            cube_mesh_of(m.parts(), Seq::new(i as nat, |f: int| f), masked_corners(mask)),
        decreases 6 - i,
    {
        push_face(&mut m, &corners, &normals, &indices, i, i as u32, mask, true, Ghost(Seq::new(i as nat, |f: int| f)));
        assert(Seq::new(i as nat, |f: int| f).push(i as int) =~= Seq::new((i + 1) as nat, |f: int| f));
        i += 1;
    }
    assert(Seq::new(6, |f: int| f) =~= seq![0int, 1, 2, 3, 4, 5]);
    m
}

/// Each face's triangles use the four corners of that face.
proof fn lemma_cube_indices_local()
    ensures
        forall|j: int| 0 <= j < 36 ==> 0 <= #[trigger] cube_indices()[j] - (j / 6) * 4 < 4,
{
    let s = cube_indices();
    assert forall|j: int| 0 <= j < 36 implies 0 <= #[trigger] cube_indices()[j] - (j / 6) * 4 < 4 by {
        if j == 0 {
            assert(s[0] == 0u32);
        } else if j == 1 {
            assert(s[1] == 3u32);
        } else if j == 2 {
            assert(s[2] == 1u32);
        } else if j == 3 {
            assert(s[3] == 1u32);
        } else if j == 4 {
            assert(s[4] == 3u32);
        } else if j == 5 {
            assert(s[5] == 2u32);
        } else if j == 6 {
            assert(s[6] == 4u32);
        } else if j == 7 {
            assert(s[7] == 5u32);
        } else if j == 8 {
            assert(s[8] == 7u32);
        } else if j == 9 {
            assert(s[9] == 5u32);
        } else if j == 10 {
            assert(s[10] == 6u32);
        } else if j == 11 {
            assert(s[11] == 7u32);
        } else if j == 12 {
            assert(s[12] == 8u32);
        } else if j == 13 {
            assert(s[13] == 11u32);
        } else if j == 14 {
            assert(s[14] == 9u32);
        } else if j == 15 {
            assert(s[15] == 9u32);
        } else if j == 16 {
            assert(s[16] == 11u32);
        } else if j == 17 {
            assert(s[17] == 10u32);
        } else if j == 18 {
            assert(s[18] == 12u32);
        } else if j == 19 {
            assert(s[19] == 13u32);
        } else if j == 20 {
            assert(s[20] == 15u32);
        } else if j == 21 {
            assert(s[21] == 13u32);
        } else if j == 22 {
            assert(s[22] == 14u32);
        } else if j == 23 {
            assert(s[23] == 15u32);
        } else if j == 24 {
            assert(s[24] == 16u32);
        } else if j == 25 {
            assert(s[25] == 19u32);
        } else if j == 26 {
            assert(s[26] == 17u32);
        } else if j == 27 {
            assert(s[27] == 17u32);
        } else if j == 28 {
            assert(s[28] == 19u32);
        } else if j == 29 {
            assert(s[29] == 18u32);
        } else if j == 30 {
            assert(s[30] == 20u32);
        } else if j == 31 {
            assert(s[31] == 21u32);
        } else if j == 32 {
            assert(s[32] == 23u32);
        } else if j == 33 {
            assert(s[33] == 21u32);
        } else if j == 34 {
            assert(s[34] == 22u32);
        } else if j == 35 {
            assert(s[35] == 23u32);
        }
    }
}

/// Every triangle of a cube mesh uses vertices of the mesh: each index is below the number
/// of its vertices (four per face).
pub proof fn law_cube_mesh_indices_valid(m: (Seq<Corner>, Seq<Normal>, Seq<bool>, Seq<u32>), faces: Seq<int>, picks: spec_fn(int) -> bool)
    requires
        cube_mesh_of(m, faces, picks),
        forall|i: int| 0 <= i < faces.len() ==> 0 <= #[trigger] faces[i] < 6,
    ensures
        forall|t: int| 0 <= t < m.3.len() ==> #[trigger] m.3[t] < m.0.len(),
{
    lemma_cube_indices_local();
    assert forall|t: int| 0 <= t < m.3.len() implies #[trigger] m.3[t] < m.0.len() by {
        let f = faces[t / 6];
        let j = f * 6 + t % 6;
        assert(0 <= j < 36);
        assert(j / 6 == f);
        assert(0 <= cube_indices()[j] - (j / 6) * 4 < 4);
        assert(t / 6 < faces.len());
    }
}

/// The outward normal's components dotted with a corner's.
pub open spec fn dot(a: (int, int, int), b: (int, int, int)) -> int {
    a.0 * b.0 + a.1 * b.1 + a.2 * b.2
}

/// Triangle `tr` of face `f` of the cube (in `cube_corners`) faces along the face's normal.
pub open spec fn cube_triangle_faces_out(f: int, tr: int) -> bool {
    let j = 6 * f + 3 * tr;
    facing(
        ints(cube_corners()[cube_indices()[j] as int]),
        ints(cube_corners()[cube_indices()[j + 1] as int]),
        ints(cube_corners()[cube_indices()[j + 2] as int]),
        ints(face_normals()[f]),
    ) > 0
}

/// Each face's two triangles face outward, and its four corners lie on its outer side.
proof fn lemma_cube_faces_out()
    ensures
        forall|f: int, tr: int| 0 <= f < 6 && 0 <= tr < 2 ==> #[trigger] cube_triangle_faces_out(f, tr),
        forall|f: int, k: int| 0 <= f < 6 && 0 <= k < 4 ==> dot(#[trigger] ints(cube_corners()[4 * f + k]), ints(face_normals()[f])) == 1,
{
    let cs = cube_corners();
    let is = cube_indices();
    let ns = face_normals();
    assert(ints(cs[0]) == (-1int, 1int, -1int));
    assert(ints(cs[1]) == (1int, 1int, -1int));
    assert(ints(cs[2]) == (1int, 1int, 1int));
    assert(ints(cs[3]) == (-1int, 1int, 1int));
    assert(ints(cs[4]) == (-1int, -1int, -1int));
    assert(ints(cs[5]) == (1int, -1int, -1int));
    assert(ints(cs[6]) == (1int, -1int, 1int));
    assert(ints(cs[7]) == (-1int, -1int, 1int));
    assert(ints(cs[8]) == (1int, -1int, -1int));
    assert(ints(cs[9]) == (1int, -1int, 1int));
    assert(ints(cs[10]) == (1int, 1int, 1int));
    assert(ints(cs[11]) == (1int, 1int, -1int));
    assert(ints(cs[12]) == (-1int, -1int, -1int));
    assert(ints(cs[13]) == (-1int, -1int, 1int));
    assert(ints(cs[14]) == (-1int, 1int, 1int));
    assert(ints(cs[15]) == (-1int, 1int, -1int));
    assert(ints(cs[16]) == (-1int, -1int, 1int));
    assert(ints(cs[17]) == (-1int, 1int, 1int));
    assert(ints(cs[18]) == (1int, 1int, 1int));
    assert(ints(cs[19]) == (1int, -1int, 1int));
    assert(ints(cs[20]) == (-1int, -1int, -1int));
    assert(ints(cs[21]) == (-1int, 1int, -1int));
    assert(ints(cs[22]) == (1int, 1int, -1int));
    assert(ints(cs[23]) == (1int, -1int, -1int));
    assert(ints(ns[0]) == (0int, 1int, 0int));
    assert(ints(ns[1]) == (0int, -1int, 0int));
    assert(ints(ns[2]) == (1int, 0int, 0int));
    assert(ints(ns[3]) == (-1int, 0int, 0int));
    assert(ints(ns[4]) == (0int, 0int, 1int));
    assert(ints(ns[5]) == (0int, 0int, -1int));
    assert(is[0] == 0u32);
    assert(is[1] == 3u32);
    assert(is[2] == 1u32);
    assert(is[3] == 1u32);
    assert(is[4] == 3u32);
    assert(is[5] == 2u32);
    assert(is[6] == 4u32);
    assert(is[7] == 5u32);
    assert(is[8] == 7u32);
    assert(is[9] == 5u32);
    assert(is[10] == 6u32);
    assert(is[11] == 7u32);
    assert(is[12] == 8u32);
    assert(is[13] == 11u32);
    assert(is[14] == 9u32);
    assert(is[15] == 9u32);
    assert(is[16] == 11u32);
    assert(is[17] == 10u32);
    assert(is[18] == 12u32);
    assert(is[19] == 13u32);
    assert(is[20] == 15u32);
    assert(is[21] == 13u32);
    assert(is[22] == 14u32);
    assert(is[23] == 15u32);
    assert(is[24] == 16u32);
    assert(is[25] == 19u32);
    assert(is[26] == 17u32);
    assert(is[27] == 17u32);
    assert(is[28] == 19u32);
    assert(is[29] == 18u32);
    assert(is[30] == 20u32);
    assert(is[31] == 21u32);
    assert(is[32] == 23u32);
    assert(is[33] == 21u32);
    assert(is[34] == 22u32);
    assert(is[35] == 23u32);
    assert(facing(ints(cs[0]), ints(cs[3]), ints(cs[1]), ints(ns[0])) > 0) by (nonlinear_arith)
        requires
            ints(cs[0]) == (-1int, 1int, -1int),
            ints(cs[3]) == (-1int, 1int, 1int),
            ints(cs[1]) == (1int, 1int, -1int),
            ints(ns[0]) == (0int, 1int, 0int),
    ;
    assert(cube_triangle_faces_out(0, 0));
    assert(facing(ints(cs[1]), ints(cs[3]), ints(cs[2]), ints(ns[0])) > 0) by (nonlinear_arith)
        requires
            ints(cs[1]) == (1int, 1int, -1int),
            ints(cs[3]) == (-1int, 1int, 1int),
            ints(cs[2]) == (1int, 1int, 1int),
            ints(ns[0]) == (0int, 1int, 0int),
    ;
    assert(cube_triangle_faces_out(0, 1));
    assert(facing(ints(cs[4]), ints(cs[5]), ints(cs[7]), ints(ns[1])) > 0) by (nonlinear_arith)
        requires
            ints(cs[4]) == (-1int, -1int, -1int),
            ints(cs[5]) == (1int, -1int, -1int),
            ints(cs[7]) == (-1int, -1int, 1int),
            ints(ns[1]) == (0int, -1int, 0int),
    ;
    assert(cube_triangle_faces_out(1, 0));
    assert(facing(ints(cs[5]), ints(cs[6]), ints(cs[7]), ints(ns[1])) > 0) by (nonlinear_arith)
        requires
            ints(cs[5]) == (1int, -1int, -1int),
            ints(cs[6]) == (1int, -1int, 1int),
            ints(cs[7]) == (-1int, -1int, 1int),
            ints(ns[1]) == (0int, -1int, 0int),
    ;
    assert(cube_triangle_faces_out(1, 1));
    assert(facing(ints(cs[8]), ints(cs[11]), ints(cs[9]), ints(ns[2])) > 0) by (nonlinear_arith)
        requires
            ints(cs[8]) == (1int, -1int, -1int),
            ints(cs[11]) == (1int, 1int, -1int),
            ints(cs[9]) == (1int, -1int, 1int),
            ints(ns[2]) == (1int, 0int, 0int),
    ;
    assert(cube_triangle_faces_out(2, 0));
    assert(facing(ints(cs[9]), ints(cs[11]), ints(cs[10]), ints(ns[2])) > 0) by (nonlinear_arith)
        requires
            ints(cs[9]) == (1int, -1int, 1int),
            ints(cs[11]) == (1int, 1int, -1int),
            ints(cs[10]) == (1int, 1int, 1int),
            ints(ns[2]) == (1int, 0int, 0int),
    ;
    assert(cube_triangle_faces_out(2, 1));
    assert(facing(ints(cs[12]), ints(cs[13]), ints(cs[15]), ints(ns[3])) > 0) by (nonlinear_arith)
        requires
            ints(cs[12]) == (-1int, -1int, -1int),
            ints(cs[13]) == (-1int, -1int, 1int),
            ints(cs[15]) == (-1int, 1int, -1int),
            ints(ns[3]) == (-1int, 0int, 0int),
    ;
    assert(cube_triangle_faces_out(3, 0));
    assert(facing(ints(cs[13]), ints(cs[14]), ints(cs[15]), ints(ns[3])) > 0) by (nonlinear_arith)
        requires
            ints(cs[13]) == (-1int, -1int, 1int),
            ints(cs[14]) == (-1int, 1int, 1int),
            ints(cs[15]) == (-1int, 1int, -1int),
            ints(ns[3]) == (-1int, 0int, 0int),
    ;
    assert(cube_triangle_faces_out(3, 1));
    assert(facing(ints(cs[16]), ints(cs[19]), ints(cs[17]), ints(ns[4])) > 0) by (nonlinear_arith)
        requires
            ints(cs[16]) == (-1int, -1int, 1int),
            ints(cs[19]) == (1int, -1int, 1int),
            ints(cs[17]) == (-1int, 1int, 1int),
            ints(ns[4]) == (0int, 0int, 1int),
    ;
    assert(cube_triangle_faces_out(4, 0));
    assert(facing(ints(cs[17]), ints(cs[19]), ints(cs[18]), ints(ns[4])) > 0) by (nonlinear_arith)
        requires
            ints(cs[17]) == (-1int, 1int, 1int),
            ints(cs[19]) == (1int, -1int, 1int),
            ints(cs[18]) == (1int, 1int, 1int),
            ints(ns[4]) == (0int, 0int, 1int),
    ;
    assert(cube_triangle_faces_out(4, 1));
    assert(facing(ints(cs[20]), ints(cs[21]), ints(cs[23]), ints(ns[5])) > 0) by (nonlinear_arith)
        requires
            ints(cs[20]) == (-1int, -1int, -1int),
            ints(cs[21]) == (-1int, 1int, -1int),
            ints(cs[23]) == (1int, -1int, -1int),
            ints(ns[5]) == (0int, 0int, -1int),
    ;
    assert(cube_triangle_faces_out(5, 0));
    assert(facing(ints(cs[21]), ints(cs[22]), ints(cs[23]), ints(ns[5])) > 0) by (nonlinear_arith)
        requires
            ints(cs[21]) == (-1int, 1int, -1int),
            ints(cs[22]) == (1int, 1int, -1int),
            ints(cs[23]) == (1int, -1int, -1int),
            ints(ns[5]) == (0int, 0int, -1int),
    ;
    assert(cube_triangle_faces_out(5, 1));
    assert(dot(ints(cs[0]), ints(ns[0])) == 1) by (nonlinear_arith)
        requires
            ints(cs[0]) == (-1int, 1int, -1int),
            ints(ns[0]) == (0int, 1int, 0int),
    ;
    assert(dot(ints(cs[1]), ints(ns[0])) == 1) by (nonlinear_arith)
        requires
            ints(cs[1]) == (1int, 1int, -1int),
            ints(ns[0]) == (0int, 1int, 0int),
    ;
    assert(dot(ints(cs[2]), ints(ns[0])) == 1) by (nonlinear_arith)
        requires
            ints(cs[2]) == (1int, 1int, 1int),
            ints(ns[0]) == (0int, 1int, 0int),
    ;
    assert(dot(ints(cs[3]), ints(ns[0])) == 1) by (nonlinear_arith)
        requires
            ints(cs[3]) == (-1int, 1int, 1int),
            ints(ns[0]) == (0int, 1int, 0int),
    ;
    assert(dot(ints(cs[4]), ints(ns[1])) == 1) by (nonlinear_arith)
        requires
            ints(cs[4]) == (-1int, -1int, -1int),
            ints(ns[1]) == (0int, -1int, 0int),
    ;
    assert(dot(ints(cs[5]), ints(ns[1])) == 1) by (nonlinear_arith)
        requires
            ints(cs[5]) == (1int, -1int, -1int),
            ints(ns[1]) == (0int, -1int, 0int),
    ;
    assert(dot(ints(cs[6]), ints(ns[1])) == 1) by (nonlinear_arith)
        requires
            ints(cs[6]) == (1int, -1int, 1int),
            ints(ns[1]) == (0int, -1int, 0int),
    ;
    assert(dot(ints(cs[7]), ints(ns[1])) == 1) by (nonlinear_arith)
        requires
            ints(cs[7]) == (-1int, -1int, 1int),
            ints(ns[1]) == (0int, -1int, 0int),
    ;
    assert(dot(ints(cs[8]), ints(ns[2])) == 1) by (nonlinear_arith)
        requires
            ints(cs[8]) == (1int, -1int, -1int),
            ints(ns[2]) == (1int, 0int, 0int),
    ;
    assert(dot(ints(cs[9]), ints(ns[2])) == 1) by (nonlinear_arith)
        requires
            ints(cs[9]) == (1int, -1int, 1int),
            ints(ns[2]) == (1int, 0int, 0int),
    ;
    assert(dot(ints(cs[10]), ints(ns[2])) == 1) by (nonlinear_arith)
        requires
            ints(cs[10]) == (1int, 1int, 1int),
            ints(ns[2]) == (1int, 0int, 0int),
    ;
    assert(dot(ints(cs[11]), ints(ns[2])) == 1) by (nonlinear_arith)
        requires
            ints(cs[11]) == (1int, 1int, -1int),
            ints(ns[2]) == (1int, 0int, 0int),
    ;
    assert(dot(ints(cs[12]), ints(ns[3])) == 1) by (nonlinear_arith)
        requires
            ints(cs[12]) == (-1int, -1int, -1int),
            ints(ns[3]) == (-1int, 0int, 0int),
    ;
    assert(dot(ints(cs[13]), ints(ns[3])) == 1) by (nonlinear_arith)
        requires
            ints(cs[13]) == (-1int, -1int, 1int),
            ints(ns[3]) == (-1int, 0int, 0int),
    ;
    assert(dot(ints(cs[14]), ints(ns[3])) == 1) by (nonlinear_arith)
        requires
            ints(cs[14]) == (-1int, 1int, 1int),
            ints(ns[3]) == (-1int, 0int, 0int),
    ;
    assert(dot(ints(cs[15]), ints(ns[3])) == 1) by (nonlinear_arith)
        requires
            ints(cs[15]) == (-1int, 1int, -1int),
            ints(ns[3]) == (-1int, 0int, 0int),
    ;
    assert(dot(ints(cs[16]), ints(ns[4])) == 1) by (nonlinear_arith)
        requires
            ints(cs[16]) == (-1int, -1int, 1int),
            ints(ns[4]) == (0int, 0int, 1int),
    ;
    assert(dot(ints(cs[17]), ints(ns[4])) == 1) by (nonlinear_arith)
        requires
            ints(cs[17]) == (-1int, 1int, 1int),
            ints(ns[4]) == (0int, 0int, 1int),
    ;
    assert(dot(ints(cs[18]), ints(ns[4])) == 1) by (nonlinear_arith)
        requires
            ints(cs[18]) == (1int, 1int, 1int),
            ints(ns[4]) == (0int, 0int, 1int),
    ;
    assert(dot(ints(cs[19]), ints(ns[4])) == 1) by (nonlinear_arith)
        requires
            ints(cs[19]) == (1int, -1int, 1int),
            ints(ns[4]) == (0int, 0int, 1int),
    ;
    assert(dot(ints(cs[20]), ints(ns[5])) == 1) by (nonlinear_arith)
        requires
            ints(cs[20]) == (-1int, -1int, -1int),
            ints(ns[5]) == (0int, 0int, -1int),
    ;
    assert(dot(ints(cs[21]), ints(ns[5])) == 1) by (nonlinear_arith)
        requires
            ints(cs[21]) == (-1int, 1int, -1int),
            ints(ns[5]) == (0int, 0int, -1int),
    ;
    assert(dot(ints(cs[22]), ints(ns[5])) == 1) by (nonlinear_arith)
        requires
            ints(cs[22]) == (1int, 1int, -1int),
            ints(ns[5]) == (0int, 0int, -1int),
    ;
    assert(dot(ints(cs[23]), ints(ns[5])) == 1) by (nonlinear_arith)
        requires
            ints(cs[23]) == (1int, -1int, -1int),
            ints(ns[5]) == (0int, 0int, -1int),
    ;
    assert forall|f: int, tr: int| 0 <= f < 6 && 0 <= tr < 2 implies #[trigger] cube_triangle_faces_out(f, tr) by {
        if tr == 0 {
            if f == 0 {} else if f == 1 {} else if f == 2 {} else if f == 3 {} else if f == 4 {} else {}
        } else {
            if f == 0 {} else if f == 1 {} else if f == 2 {} else if f == 3 {} else if f == 4 {} else {}
        }
    }
    assert forall|f: int, k: int| 0 <= f < 6 && 0 <= k < 4 implies dot(#[trigger] ints(cube_corners()[4 * f + k]), ints(face_normals()[f])) == 1 by {
        if f == 0 { if k == 0 {} else if k == 1 {} else if k == 2 {} else {} } else if f == 1 { if k == 0 {} else if k == 1 {} else if k == 2 {} else {} } else if f == 2 { if k == 0 {} else if k == 1 {} else if k == 2 {} else {} } else if f == 3 { if k == 0 {} else if k == 1 {} else if k == 2 {} else {} } else if f == 4 { if k == 0 {} else if k == 1 {} else if k == 2 {} else {} } else { if k == 0 {} else if k == 1 {} else if k == 2 {} else {} }
    }
}

/// Index `6 q + r` of a cube mesh points at the vertex of face `faces[q]` that the same
/// index of that face does in the cube tables.
proof fn lemma_cube_mesh_vertex(m: (Seq<Corner>, Seq<Normal>, Seq<bool>, Seq<u32>), faces: Seq<int>, picks: spec_fn(int) -> bool, q: int, r: int)
    requires
        cube_mesh_of(m, faces, picks),
        forall|i: int| 0 <= i < faces.len() ==> 0 <= #[trigger] faces[i] < 6,
        0 <= q < faces.len(),
        0 <= r < 6,
    ensures
        0 <= m.3[6 * q + r] < m.0.len(),
        m.0[m.3[6 * q + r] as int] == cube_corners()[cube_indices()[6 * faces[q] + r] as int],
        m.1[m.3[6 * q + r] as int] == face_normals()[faces[q]],
{
    lemma_cube_indices_local();
    let f = faces[q];
    let t = 6 * q + r;
    lemma_fundamental_div_mod_converse(t, 6, q, r);
    let jj = f * 6 + r;
    lemma_fundamental_div_mod_converse(jj, 6, f, r);
    let l = cube_indices()[jj] - f * 4;
    assert(0 <= l < 4);
    let idx = m.3[t] as int;
    assert(idx == l + q * 4);
    lemma_fundamental_div_mod_converse(idx, 4, q, l);
    assert(m.0[idx] == cube_corners()[faces[idx / 4] * 4 + idx % 4]);
}

/// Triangle `t` of mesh `m` (indices `3 t` to `3 t + 2`) uses vertices of the mesh that
/// share a normal, and faces along it.
pub open spec fn mesh_triangle_faces_out(m: (Seq<Corner>, Seq<Normal>, Seq<bool>, Seq<u32>), t: int) -> bool {
    let (ia, ib, ic) = (m.3[3 * t] as int, m.3[3 * t + 1] as int, m.3[3 * t + 2] as int);
    &&& 0 <= ia < m.0.len() && 0 <= ib < m.0.len() && 0 <= ic < m.0.len()
    &&& m.1[ia] == m.1[ib] && m.1[ib] == m.1[ic]
    &&& facing(ints(m.0[ia]), ints(m.0[ib]), ints(m.0[ic]), ints(m.1[ia])) > 0
}

/// Every cube mesh shows the outside of the cube: each of its triangles (two per face)
/// faces along the normal of its vertices, counter-clockwise seen from outside, and each
/// vertex lies on the side of the cube its normal points to.
pub proof fn law_cube_mesh_faces_outward(m: (Seq<Corner>, Seq<Normal>, Seq<bool>, Seq<u32>), faces: Seq<int>, picks: spec_fn(int) -> bool)
    requires
        cube_mesh_of(m, faces, picks),
        forall|i: int| 0 <= i < faces.len() ==> 0 <= #[trigger] faces[i] < 6,
    ensures
        m.3.len() == 3 * (2 * faces.len()),
        forall|t: int| 0 <= t < 2 * faces.len() ==> #[trigger] mesh_triangle_faces_out(m, t),
        forall|k: int| 0 <= k < m.0.len() ==> dot(#[trigger] ints(m.0[k]), ints(m.1[k])) == 1,
{
    lemma_cube_faces_out();
    assert forall|t: int| 0 <= t < 2 * faces.len() implies #[trigger] mesh_triangle_faces_out(m, t) by {
        let q = t / 2;
        let tr = t % 2;
        lemma_fundamental_div_mod(t, 2);
        assert(3 * t == 6 * q + 3 * tr);
        lemma_cube_mesh_vertex(m, faces, picks, q, 3 * tr);
        lemma_cube_mesh_vertex(m, faces, picks, q, 3 * tr + 1);
        lemma_cube_mesh_vertex(m, faces, picks, q, 3 * tr + 2);
        assert(cube_triangle_faces_out(faces[q], tr));
    }
    assert forall|k: int| 0 <= k < m.0.len() implies dot(#[trigger] ints(m.0[k]), ints(m.1[k])) == 1 by {
        let q = k / 4;
        let j = k % 4;
        lemma_fundamental_div_mod(k, 4);
        assert(m.0[k] == cube_corners()[faces[q] * 4 + j]);
        assert(4 * faces[q] + j == faces[q] * 4 + j);
    }
}

} // verus!
