use vstd::prelude::*;

use crate::chunk::Rect;
use crate::cube_mesh::{facing, ints, Normal};

verus! {

/// A point in half-block units: each component is twice the coordinate, so that the
/// corners of blocks (at `n + 0.5`) are whole numbers.
pub type HalfPoint = (i64, i64, i64);

/// The sign of the side a face looks to.
pub open spec fn side(positive: bool) -> int {
    if positive {
        1
    } else {
        -1
    }
}

/// Corner `k` of a flat rectangle of `w + 1` by `h + 1` cells in the `x`-`z` plane, on
/// side `c` of its layer, in half units around its first cell.
pub open spec fn quad_base(w: int, h: int, c: int, k: int) -> (int, int, int) {
    if k == 0 {
        (-1, c, -1)
    } else if k == 1 {
        (2 * w + 1, c, -1)
    } else if k == 2 {
        (2 * w + 1, c, 2 * h + 1)
    } else {
        (-1, c, 2 * h + 1)
    }
}

/// `v` turned to face along `axis`: the layer's `(x, y, z)` become `(y, z, x)` of the
/// world for axis 1 and `(z, x, y)` for axis 2.
pub open spec fn orient(v: (int, int, int), axis: int, c: int) -> (int, int, int) {
    if axis == 1 {
        (c, v.2, v.0)
    } else if axis == 2 {
        (v.2, v.0, c)
    } else {
        v
    }
}

/// Corner `k` of the rectangle at `(x, y, z)` of extents `w`, `h` along `axis`, on the
/// positive or negative side, in half units.
pub open spec fn quad_vertex(x: i32, y: i32, z: i32, w: i32, h: i32, axis: i32, positive: bool, k: int) -> HalfPoint {
    let v = orient(quad_base(w as int, h as int, side(positive), k), axis as int, side(positive));
    ((v.0 + 2 * x) as i64, (v.1 + 2 * y) as i64, (v.2 + 2 * z) as i64)
}

/// The normal of a rectangle along `axis` on the given side.
pub open spec fn quad_normal(axis: i32, positive: bool) -> Normal {
    let c = side(positive) as i8;
    if axis == 1 {
        (c, 0i8, 0i8)
    } else if axis == 2 {
        (0i8, 0i8, c)
    } else {
        (0i8, c, 0i8)
    }
}

/// The two triangles of a rectangle, counter-clockwise seen from its side.
pub open spec fn quad_indices(positive: bool) -> Seq<u32> {
    if positive {
        seq![0u32, 3, 1, 1, 3, 2]
    } else {
        seq![0u32, 1, 3, 1, 2, 3]
    }
}

/// Vertices (in half units), normals and triangles of a mesh of rectangles.
pub struct RectMesh {
    pub vertices: Vec<HalfPoint>,
    pub normals: Vec<Normal>,
    pub indices: Vec<u32>,
}

/// The four corners and normals of the rectangle at `(x, y, z)` of extents `xwidth`,
/// `zheight` (in cells, minus one) along `axis`, on the positive or negative side.
pub fn create_vertices_normals(x: i32, y: i32, z: i32, xwidth: i32, zheight: i32, axis: i32, positive: bool) -> (r: (Vec<HalfPoint>, Vec<Normal>))
    ensures
        r.0@.len() == 4,
        r.1@.len() == 4,
        forall|k: int| 0 <= k < 4 ==> #[trigger] r.0@[k] == quad_vertex(x, y, z, xwidth, zheight, axis, positive, k),
        forall|k: int| 0 <= k < 4 ==> #[trigger] r.1@[k] == quad_normal(axis, positive),
{
    let c: i64 = if positive { 1 } else { -1 };
    let xw: i64 = 2 * (xwidth as i64) + 1;
    let zh: i64 = 2 * (zheight as i64) + 1;
    let mut vertices: Vec<HalfPoint> = Vec::new();
    let mut normals: Vec<Normal> = Vec::new();
    let normal: Normal = if axis == 1 {
        (c as i8, 0, 0)
    } else if axis == 2 {
        (0, 0, c as i8)
    } else {
        (0, c as i8, 0)
    };
    let mut k: usize = 0;
    while k < 4
        invariant
            c == side(positive),
            xw == 2 * xwidth + 1,
            zh == 2 * zheight + 1,
            normal == quad_normal(axis, positive),
            k <= 4,
            vertices@.len() == k,
            normals@.len() == k,
            forall|q: int| 0 <= q < k ==> #[trigger] vertices@[q] == quad_vertex(x, y, z, xwidth, zheight, axis, positive, q),
            forall|q: int| 0 <= q < k ==> #[trigger] normals@[q] == quad_normal(axis, positive),
        decreases 4 - k,
    {
        let base: (i64, i64, i64) = if k == 0 {
            (-1, c, -1)
        } else if k == 1 {
            (xw, c, -1)
        } else if k == 2 {
            (xw, c, zh)
        } else {
            (-1, c, zh)
        };
        let turned: (i64, i64, i64) = if axis == 1 {
            (c, base.2, base.0)
        } else if axis == 2 {
            (base.2, base.0, c)
        } else {
            base
        };
        let v: HalfPoint = (turned.0 + 2 * (x as i64), turned.1 + 2 * (y as i64), turned.2 + 2 * (z as i64));
        assert(v == quad_vertex(x, y, z, xwidth, zheight, axis, positive, k as int));
        vertices.push(v);
        normals.push(normal);
        k += 1;
    }
    (vertices, normals)
}

/// The mesh of one rectangle (see `create_vertices_normals`), with its two triangles.
pub fn create_rect_mesh(x: i32, y: i32, z: i32, xwidth: i32, zheight: i32, axis: i32, positive: bool) -> (m: RectMesh)
    ensures
        m.vertices@.len() == 4,
        m.normals@.len() == 4,
        forall|k: int| 0 <= k < 4 ==> #[trigger] m.vertices@[k] == quad_vertex(x, y, z, xwidth, zheight, axis, positive, k),
        forall|k: int| 0 <= k < 4 ==> #[trigger] m.normals@[k] == quad_normal(axis, positive),
        m.indices@ == quad_indices(positive),
{
    let (vertices, normals) = create_vertices_normals(x, y, z, xwidth, zheight, axis, positive);
    let indices: Vec<u32> = if positive {
        vec![0, 3, 1, 1, 3, 2]
    } else {
        vec![0, 1, 3, 1, 2, 3]
    };
    assert(indices@ =~= quad_indices(positive));
    RectMesh { vertices, normals, indices }
}

/// The rectangles of the first `n` tables of `faces`, in order, each with the axis and
/// side of its table (table `axis * 2 + orientation`; orientation 0 is the positive side).
pub open spec fn chunk_quads(faces: Seq<Seq<Rect>>, n: int) -> Seq<(Rect, i32, bool)>
    decreases n,
{
    if n <= 0 {
        Seq::empty()
    } else {
        chunk_quads(faces, n - 1) + faces[n - 1].map_values(|r: Rect| (r, ((n - 1) / 2) as i32, (n - 1) % 2 == 0))
    }
}

/// `m` holds the rectangles `quads` in order: four vertices and normals each, and two
/// triangles each, numbered from the rectangle's first vertex.
pub open spec fn rect_mesh_of(m: RectMesh, quads: Seq<(Rect, i32, bool)>) -> bool {
    &&& m.vertices@.len() == 4 * quads.len()
    &&& m.normals@.len() == 4 * quads.len()
    &&& m.indices@.len() == 6 * quads.len()
    &&& forall|k: int| 0 <= k < m.vertices@.len() ==> {
        let (r, axis, positive) = quads[k / 4];
        &&& #[trigger] m.vertices@[k] == quad_vertex(r.0, r.1, r.2, r.3, r.4, axis, positive, k % 4)
        &&& m.normals@[k] == quad_normal(axis, positive)
    }
    &&& forall|t: int| 0 <= t < m.indices@.len() ==> #[trigger] m.indices@[t] == quad_indices(quads[t / 6].2)[t % 6] + (t / 6) * 4
}

/// The number of rectangles in the first `n` tables of `faces`.
pub open spec fn quads_count(faces: Seq<Seq<Rect>>, n: int) -> int
    decreases n,
{
    if n <= 0 {
        0
    } else {
        quads_count(faces, n - 1) + faces[n - 1].len()
    }
}

proof fn lemma_chunk_quads_len(faces: Seq<Seq<Rect>>, n: int)
    ensures
        chunk_quads(faces, n).len() == quads_count(faces, n),
    decreases n,
{
    if n > 0 {
        lemma_chunk_quads_len(faces, n - 1);
    }
}

proof fn lemma_quads_count_mono(faces: Seq<Seq<Rect>>, n: int, m: int)
    requires
        0 <= n <= m,
    ensures
        quads_count(faces, n) <= quads_count(faces, m),
    decreases m - n,
{
    if n < m {
        lemma_quads_count_mono(faces, n, m - 1);
    }
}

/// The mesh of all rectangles of the six tables of `faces` (see `chunk_quads`).
pub fn create_chunk_mesh(faces: &[Vec<Rect>; 6]) -> (m: RectMesh)
    requires
        quads_count(faces@.map_values(|v: Vec<Rect>| v@), 6) <= 0x4000_0000,
    ensures
        rect_mesh_of(m, chunk_quads(faces@.map_values(|v: Vec<Rect>| v@), 6)),
{
    let ghost fv = faces@.map_values(|v: Vec<Rect>| v@);
    let mut m = RectMesh { vertices: Vec::new(), normals: Vec::new(), indices: Vec::new() };
    let mut cnt: u32 = 0;
    let mut j: usize = 0;
    while j < 6
        invariant
            fv == faces@.map_values(|v: Vec<Rect>| v@),
            quads_count(fv, 6) <= 0x4000_0000,
            j <= 6,
            cnt == chunk_quads(fv, j as int).len(),
            rect_mesh_of(m, chunk_quads(fv, j as int)),
        decreases 6 - j,
    {
        let axis: i32 = (j / 2) as i32;
        let positive = j % 2 == 0;
        let rects = &faces[j];
        let ghost before = chunk_quads(fv, j as int);
        let ghost tagged = fv[j as int].map_values(|r: Rect| (r, ((j as int) / 2) as i32, (j as int) % 2 == 0));
        proof {
            lemma_chunk_quads_len(fv, j as int + 1);
            lemma_quads_count_mono(fv, j as int + 1, 6);
            assert(chunk_quads(fv, j as int + 1) == before + tagged);
        }
        let mut r: usize = 0;
        while r < rects.len()
            invariant
                fv == faces@.map_values(|v: Vec<Rect>| v@),
                j < 6,
                axis == j / 2,
                positive == (j % 2 == 0),
                rects@ == fv[j as int],
                tagged == fv[j as int].map_values(|r: Rect| (r, ((j as int) / 2) as i32, (j as int) % 2 == 0)),
                before.len() + tagged.len() <= 0x4000_0000,
                r <= rects@.len(),
                cnt == before.len() + r,
                rect_mesh_of(m, before + tagged.take(r as int)),
            decreases rects@.len() - r,
        {
            let rect = rects[r];
            let ghost quads = before + tagged.take(r as int);
            let ghost quads2 = before + tagged.take(r as int + 1);
            assert(quads2 =~= quads.push((rect, axis, positive)));
            let ghost vs0 = m.vertices@;
            let ghost ns0 = m.normals@;
            let ghost is0 = m.indices@;
            let (mut new_vertices, mut new_normals) = create_vertices_normals(rect.0, rect.1, rect.2, rect.3, rect.4, axis, positive);
            let ghost nv = new_vertices@;
            let ghost nn = new_normals@;
            m.vertices.append(&mut new_vertices);
            m.normals.append(&mut new_normals);
            let offsets: Vec<u32> = if positive {
                vec![0, 3, 1, 1, 3, 2]
            } else {
                vec![0, 1, 3, 1, 2, 3]
            };
            assert(offsets@ =~= quad_indices(positive));
            let mut k: usize = 0;
            while k < 6
                invariant
                    offsets@ == quad_indices(positive),
                    cnt < 0x4000_0000,
                    m.vertices@ == vs0 + nv,
                    m.normals@ == ns0 + nn,
                    k <= 6,
                    m.indices@.len() == is0.len() + k,
                    forall|t: int| 0 <= t < is0.len() ==> m.indices@[t] == is0[t],
                    forall|t: int| 0 <= t < k ==> #[trigger] m.indices@[is0.len() + t] == offsets@[t] + cnt * 4,
                decreases 6 - k,
            {
                m.indices.push(offsets[k] + cnt * 4);
                k += 1;
            }
            proof {
                let n = quads.len();
                assert(vs0.len() == 4 * n && is0.len() == 6 * n);
                assert forall|kk: int| 0 <= kk < m.vertices@.len() implies {
                    let (q, ax, pos) = quads2[kk / 4];
                    &&& #[trigger] m.vertices@[kk] == quad_vertex(q.0, q.1, q.2, q.3, q.4, ax, pos, kk % 4)
                    &&& m.normals@[kk] == quad_normal(ax, pos)
                } by {
                    if kk < 4 * n {
                        assert(m.vertices@[kk] == vs0[kk]);
                        assert(m.normals@[kk] == ns0[kk]);
                        assert(kk / 4 < n);
                        assert(quads2[kk / 4] == quads[kk / 4]);
                    } else {
                        assert(kk / 4 == n);
                        assert(m.vertices@[kk] == nv[kk - 4 * n]);
                        assert(m.normals@[kk] == nn[kk - 4 * n]);
                    }
                }
                assert forall|t: int| 0 <= t < m.indices@.len() implies #[trigger] m.indices@[t] == quad_indices(quads2[t / 6].2)[t % 6] + (t / 6) * 4 by {
                    if t < 6 * n {
                        assert(m.indices@[t] == is0[t]);
                        assert(t / 6 < n);
                        assert(quads2[t / 6] == quads[t / 6]);
                    } else {
                        assert(t / 6 == n);
                        assert(t % 6 == t - 6 * n);
                        assert(quads2[n as int].2 == positive);
                        assert(cnt == n);
                        assert(m.indices@[is0.len() + (t - 6 * n)] == offsets@[t - 6 * n] + cnt * 4);
                    }
                }
            }
            cnt += 1;
            r += 1;
        }
        assert(tagged.take(rects@.len() as int) =~= tagged);
        j += 1;
    }
    m
}

/// Every triangle of a rectangle mesh uses vertices of the mesh: each index is below the
/// number of its vertices (four per rectangle).
pub proof fn law_rect_mesh_indices_valid(m: RectMesh, quads: Seq<(Rect, i32, bool)>)
    requires
        rect_mesh_of(m, quads),
    ensures
        forall|t: int| 0 <= t < m.indices@.len() ==> #[trigger] m.indices@[t] < m.vertices@.len(),
{
    assert forall|t: int| 0 <= t < m.indices@.len() implies #[trigger] m.indices@[t] < m.vertices@.len() by {
        let pos = quads[t / 6].2;
        assert(quad_indices(pos)[t % 6] < 4);
        assert(t / 6 < quads.len());
    }
}

/// `p` (in half units) is a corner of the rectangle at `(x, y, z)` of extents `w`, `h`
/// along `axis`, on side `c`: it lies in the plane half a block to side `c` of the layer
/// (y for axis 0, x for axis 1, z for axis 2), at either end of the `w + 1` cells along
/// world x (axis 0), z (axis 1) or y (axis 2) and of the `h + 1` cells along world z
/// (axis 0), y (axis 1) or x (axis 2).
pub open spec fn rect_corner_at(p: HalfPoint, x: int, y: int, z: int, w: int, h: int, axis: int, c: int) -> bool {
    if axis == 1 {
        &&& p.0 == 2 * x + c
        &&& p.1 == 2 * y - 1 || p.1 == 2 * y + 2 * h + 1
        &&& p.2 == 2 * z - 1 || p.2 == 2 * z + 2 * w + 1
    } else if axis == 2 {
        &&& p.2 == 2 * z + c
        &&& p.0 == 2 * x - 1 || p.0 == 2 * x + 2 * h + 1
        &&& p.1 == 2 * y - 1 || p.1 == 2 * y + 2 * w + 1
    } else {
        &&& p.1 == 2 * y + c
        &&& p.0 == 2 * x - 1 || p.0 == 2 * x + 2 * w + 1
        &&& p.2 == 2 * z - 1 || p.2 == 2 * z + 2 * h + 1
    }
}

/// The four vertices of a rectangle are corners of the box it spans (see
/// `rect_corner_at`): the first is its lowest corner, the third its highest, and both
/// triangles face along its normal, on the side it was made for.
pub proof fn law_rect_quad_geometry(x: i32, y: i32, z: i32, w: i32, h: i32, axis: i32, positive: bool)
    requires
        0 <= w,
        0 <= h,
    ensures
        forall|k: int| 0 <= k < 4 ==> rect_corner_at(#[trigger] quad_vertex(x, y, z, w, h, axis, positive, k), x as int, y as int, z as int, w as int, h as int, axis as int, side(positive)),
        axis == 1 ==> hp(quad_vertex(x, y, z, w, h, axis, positive, 0)) == (2 * x + side(positive), 2 * y - 1, 2 * z - 1),
        axis == 1 ==> hp(quad_vertex(x, y, z, w, h, axis, positive, 2)) == (2 * x + side(positive), 2 * y + 2 * h + 1, 2 * z + 2 * w + 1),
        axis == 2 ==> hp(quad_vertex(x, y, z, w, h, axis, positive, 0)) == (2 * x - 1, 2 * y - 1, 2 * z + side(positive)),
        axis == 2 ==> hp(quad_vertex(x, y, z, w, h, axis, positive, 2)) == (2 * x + 2 * h + 1, 2 * y + 2 * w + 1, 2 * z + side(positive)),
        axis != 1 && axis != 2 ==> hp(quad_vertex(x, y, z, w, h, axis, positive, 0)) == (2 * x - 1, 2 * y + side(positive), 2 * z - 1),
        axis != 1 && axis != 2 ==> hp(quad_vertex(x, y, z, w, h, axis, positive, 2)) == (2 * x + 2 * w + 1, 2 * y + side(positive), 2 * z + 2 * h + 1),
        facing(
            hp(quad_vertex(x, y, z, w, h, axis, positive, quad_indices(positive)[0] as int)),
            hp(quad_vertex(x, y, z, w, h, axis, positive, quad_indices(positive)[1] as int)),
            hp(quad_vertex(x, y, z, w, h, axis, positive, quad_indices(positive)[2] as int)),
            ints(quad_normal(axis, positive)),
        ) > 0,
        facing(
            hp(quad_vertex(x, y, z, w, h, axis, positive, quad_indices(positive)[3] as int)),
            hp(quad_vertex(x, y, z, w, h, axis, positive, quad_indices(positive)[4] as int)),
            hp(quad_vertex(x, y, z, w, h, axis, positive, quad_indices(positive)[5] as int)),
            ints(quad_normal(axis, positive)),
        ) > 0,
{
    let ghost p0 = hp(quad_vertex(x, y, z, w, h, axis, positive, 0));
    let ghost p1 = hp(quad_vertex(x, y, z, w, h, axis, positive, 1));
    let ghost p2 = hp(quad_vertex(x, y, z, w, h, axis, positive, 2));
    let ghost p3 = hp(quad_vertex(x, y, z, w, h, axis, positive, 3));
    let ghost n = ints(quad_normal(axis, positive));
    let q = quad_indices(positive);
    if positive {
        assert(q[0] == 0 && q[1] == 3 && q[2] == 1 && q[3] == 1 && q[4] == 3 && q[5] == 2);
    } else {
        assert(q[0] == 0 && q[1] == 1 && q[2] == 3 && q[3] == 1 && q[4] == 2 && q[5] == 3);
    }
    if axis == 1 && positive {
        assert(p0 == (1 + 2 * x, -1 + 2 * y, -1 + 2 * z) && p1 == (1 + 2 * x, -1 + 2 * y, 2 * w + 1 + 2 * z) && p2 == (1 + 2 * x, 2 * h + 1 + 2 * y, 2 * w + 1 + 2 * z) && p3 == (1 + 2 * x, 2 * h + 1 + 2 * y, -1 + 2 * z) && n == (1int, 0int, 0int));
        assert(facing(p0, p3, p1, n) > 0) by (nonlinear_arith)
            requires
                p0 == (1 + 2 * x, -1 + 2 * y, -1 + 2 * z),
                p1 == (1 + 2 * x, -1 + 2 * y, 2 * w + 1 + 2 * z),
                p2 == (1 + 2 * x, 2 * h + 1 + 2 * y, 2 * w + 1 + 2 * z),
                p3 == (1 + 2 * x, 2 * h + 1 + 2 * y, -1 + 2 * z),
                n == (1int, 0int, 0int),
                w >= 0,
                h >= 0,
        ;
        assert(facing(p1, p3, p2, n) > 0) by (nonlinear_arith)
            requires
                p0 == (1 + 2 * x, -1 + 2 * y, -1 + 2 * z),
                p1 == (1 + 2 * x, -1 + 2 * y, 2 * w + 1 + 2 * z),
                p2 == (1 + 2 * x, 2 * h + 1 + 2 * y, 2 * w + 1 + 2 * z),
                p3 == (1 + 2 * x, 2 * h + 1 + 2 * y, -1 + 2 * z),
                n == (1int, 0int, 0int),
                w >= 0,
                h >= 0,
        ;
    } else if axis == 1 && !positive {
        assert(p0 == (-1 + 2 * x, -1 + 2 * y, -1 + 2 * z) && p1 == (-1 + 2 * x, -1 + 2 * y, 2 * w + 1 + 2 * z) && p2 == (-1 + 2 * x, 2 * h + 1 + 2 * y, 2 * w + 1 + 2 * z) && p3 == (-1 + 2 * x, 2 * h + 1 + 2 * y, -1 + 2 * z) && n == (-1int, 0int, 0int));
        assert(facing(p0, p1, p3, n) > 0) by (nonlinear_arith)
            requires
                p0 == (-1 + 2 * x, -1 + 2 * y, -1 + 2 * z),
                p1 == (-1 + 2 * x, -1 + 2 * y, 2 * w + 1 + 2 * z),
                p2 == (-1 + 2 * x, 2 * h + 1 + 2 * y, 2 * w + 1 + 2 * z),
                p3 == (-1 + 2 * x, 2 * h + 1 + 2 * y, -1 + 2 * z),
                n == (-1int, 0int, 0int),
                w >= 0,
                h >= 0,
        ;
        assert(facing(p1, p2, p3, n) > 0) by (nonlinear_arith)
            requires
                p0 == (-1 + 2 * x, -1 + 2 * y, -1 + 2 * z),
                p1 == (-1 + 2 * x, -1 + 2 * y, 2 * w + 1 + 2 * z),
                p2 == (-1 + 2 * x, 2 * h + 1 + 2 * y, 2 * w + 1 + 2 * z),
                p3 == (-1 + 2 * x, 2 * h + 1 + 2 * y, -1 + 2 * z),
                n == (-1int, 0int, 0int),
                w >= 0,
                h >= 0,
        ;
    } else if axis == 2 && positive {
        assert(p0 == (-1 + 2 * x, -1 + 2 * y, 1 + 2 * z) && p1 == (-1 + 2 * x, 2 * w + 1 + 2 * y, 1 + 2 * z) && p2 == (2 * h + 1 + 2 * x, 2 * w + 1 + 2 * y, 1 + 2 * z) && p3 == (2 * h + 1 + 2 * x, -1 + 2 * y, 1 + 2 * z) && n == (0int, 0int, 1int));
        assert(facing(p0, p3, p1, n) > 0) by (nonlinear_arith)
            requires
                p0 == (-1 + 2 * x, -1 + 2 * y, 1 + 2 * z),
                p1 == (-1 + 2 * x, 2 * w + 1 + 2 * y, 1 + 2 * z),
                p2 == (2 * h + 1 + 2 * x, 2 * w + 1 + 2 * y, 1 + 2 * z),
                p3 == (2 * h + 1 + 2 * x, -1 + 2 * y, 1 + 2 * z),
                n == (0int, 0int, 1int),
                w >= 0,
                h >= 0,
        ;
        assert(facing(p1, p3, p2, n) > 0) by (nonlinear_arith)
            requires
                p0 == (-1 + 2 * x, -1 + 2 * y, 1 + 2 * z),
                p1 == (-1 + 2 * x, 2 * w + 1 + 2 * y, 1 + 2 * z),
                p2 == (2 * h + 1 + 2 * x, 2 * w + 1 + 2 * y, 1 + 2 * z),
                p3 == (2 * h + 1 + 2 * x, -1 + 2 * y, 1 + 2 * z),
                n == (0int, 0int, 1int),
                w >= 0,
                h >= 0,
        ;
    } else if axis == 2 && !positive {
        assert(p0 == (-1 + 2 * x, -1 + 2 * y, -1 + 2 * z) && p1 == (-1 + 2 * x, 2 * w + 1 + 2 * y, -1 + 2 * z) && p2 == (2 * h + 1 + 2 * x, 2 * w + 1 + 2 * y, -1 + 2 * z) && p3 == (2 * h + 1 + 2 * x, -1 + 2 * y, -1 + 2 * z) && n == (0int, 0int, -1int));
        assert(facing(p0, p1, p3, n) > 0) by (nonlinear_arith)
            requires
                p0 == (-1 + 2 * x, -1 + 2 * y, -1 + 2 * z),
                p1 == (-1 + 2 * x, 2 * w + 1 + 2 * y, -1 + 2 * z),
                p2 == (2 * h + 1 + 2 * x, 2 * w + 1 + 2 * y, -1 + 2 * z),
                p3 == (2 * h + 1 + 2 * x, -1 + 2 * y, -1 + 2 * z),
                n == (0int, 0int, -1int),
                w >= 0,
                h >= 0,
        ;
        assert(facing(p1, p2, p3, n) > 0) by (nonlinear_arith)
            requires
                p0 == (-1 + 2 * x, -1 + 2 * y, -1 + 2 * z),
                p1 == (-1 + 2 * x, 2 * w + 1 + 2 * y, -1 + 2 * z),
                p2 == (2 * h + 1 + 2 * x, 2 * w + 1 + 2 * y, -1 + 2 * z),
                p3 == (2 * h + 1 + 2 * x, -1 + 2 * y, -1 + 2 * z),
                n == (0int, 0int, -1int),
                w >= 0,
                h >= 0,
        ;
    } else if axis != 1 && axis != 2 && positive {
        assert(p0 == (-1 + 2 * x, 1 + 2 * y, -1 + 2 * z) && p1 == (2 * w + 1 + 2 * x, 1 + 2 * y, -1 + 2 * z) && p2 == (2 * w + 1 + 2 * x, 1 + 2 * y, 2 * h + 1 + 2 * z) && p3 == (-1 + 2 * x, 1 + 2 * y, 2 * h + 1 + 2 * z) && n == (0int, 1int, 0int));
        assert(facing(p0, p3, p1, n) > 0) by (nonlinear_arith)
            requires
                p0 == (-1 + 2 * x, 1 + 2 * y, -1 + 2 * z),
                p1 == (2 * w + 1 + 2 * x, 1 + 2 * y, -1 + 2 * z),
                p2 == (2 * w + 1 + 2 * x, 1 + 2 * y, 2 * h + 1 + 2 * z),
                p3 == (-1 + 2 * x, 1 + 2 * y, 2 * h + 1 + 2 * z),
                n == (0int, 1int, 0int),
                w >= 0,
                h >= 0,
        ;
        assert(facing(p1, p3, p2, n) > 0) by (nonlinear_arith)
            requires
                p0 == (-1 + 2 * x, 1 + 2 * y, -1 + 2 * z),
                p1 == (2 * w + 1 + 2 * x, 1 + 2 * y, -1 + 2 * z),
                p2 == (2 * w + 1 + 2 * x, 1 + 2 * y, 2 * h + 1 + 2 * z),
                p3 == (-1 + 2 * x, 1 + 2 * y, 2 * h + 1 + 2 * z),
                n == (0int, 1int, 0int),
                w >= 0,
                h >= 0,
        ;
    } else if axis != 1 && axis != 2 && !positive {
        assert(p0 == (-1 + 2 * x, -1 + 2 * y, -1 + 2 * z) && p1 == (2 * w + 1 + 2 * x, -1 + 2 * y, -1 + 2 * z) && p2 == (2 * w + 1 + 2 * x, -1 + 2 * y, 2 * h + 1 + 2 * z) && p3 == (-1 + 2 * x, -1 + 2 * y, 2 * h + 1 + 2 * z) && n == (0int, -1int, 0int));
        assert(facing(p0, p1, p3, n) > 0) by (nonlinear_arith)
            requires
                p0 == (-1 + 2 * x, -1 + 2 * y, -1 + 2 * z),
                p1 == (2 * w + 1 + 2 * x, -1 + 2 * y, -1 + 2 * z),
                p2 == (2 * w + 1 + 2 * x, -1 + 2 * y, 2 * h + 1 + 2 * z),
                p3 == (-1 + 2 * x, -1 + 2 * y, 2 * h + 1 + 2 * z),
                n == (0int, -1int, 0int),
                w >= 0,
                h >= 0,
        ;
        assert(facing(p1, p2, p3, n) > 0) by (nonlinear_arith)
            requires
                p0 == (-1 + 2 * x, -1 + 2 * y, -1 + 2 * z),
                p1 == (2 * w + 1 + 2 * x, -1 + 2 * y, -1 + 2 * z),
                p2 == (2 * w + 1 + 2 * x, -1 + 2 * y, 2 * h + 1 + 2 * z),
                p3 == (-1 + 2 * x, -1 + 2 * y, 2 * h + 1 + 2 * z),
                n == (0int, -1int, 0int),
                w >= 0,
                h >= 0,
        ;
    }
}

/// A point in half units as integers.
pub open spec fn hp(p: HalfPoint) -> (int, int, int) {
    (p.0 as int, p.1 as int, p.2 as int)
}

} // verus!
