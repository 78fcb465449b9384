use vstd::prelude::*;

use crate::chunk::{block_index, Rect};

verus! {

/// A rectangle of a 16 x 16 layer: column `x`, row `z`, width and height.
pub type LayerRect = (usize, usize, usize, usize);

/// Index of cell `(x, z)` of a layer.
pub open spec fn cell(x: int, z: int) -> int {
    z * 16 + x
}

/// `r` covers cell `(x, z)`.
pub open spec fn covers(r: LayerRect, x: int, z: int) -> bool {
    &&& r.0 <= x < r.0 + r.2
    &&& r.1 <= z < r.1 + r.3
}

/// One of the rectangles of `rs` covers cell `(x, z)`.
pub open spec fn covered(rs: Seq<LayerRect>, x: int, z: int) -> bool {
    exists|k: int| 0 <= k < rs.len() && #[trigger] covers(rs[k], x, z)
}

/// Cell `(x2, z2)` comes before `(x, z)` in row-major order.
pub open spec fn scan_before(x2: int, z2: int, x: int, z: int) -> bool {
    z2 < z || (z2 == z && x2 < x)
}

/// `(x, z)` is a cell of the layer.
pub open spec fn in_layer(x: int, z: int) -> bool {
    0 <= x < 16 && 0 <= z < 16
}

/// Row `z` of `g` holds `v` over columns `x .. x + w`, in cells that `prev` leaves open.
pub open spec fn row_open(g: Seq<i16>, prev: Seq<LayerRect>, x: int, z: int, w: int, v: i16) -> bool {
    forall|i: int| 0 <= i < w ==> g[#[trigger] cell(x + i, z)] == v && !covered(prev, x + i, z)
}

/// `r` is the rectangle that the greedy mesher builds after those of `prev`: it starts
/// at the first cell (in row-major order) with a face that `prev` does not cover, is as
/// wide as the run of equal, uncovered cells from there, and as tall as the rows below
/// it that match over its whole width.
pub open spec fn greedy_next(g: Seq<i16>, prev: Seq<LayerRect>, r: LayerRect) -> bool {
    let (x, z, w, h) = (r.0 as int, r.1 as int, r.2 as int, r.3 as int);
    let v = g[cell(x, z)];
    &&& 1 <= w && x + w <= 16
    &&& 1 <= h && z + h <= 16
    &&& v != -1
    &&& forall|x2: int, z2: int| in_layer(x2, z2) && scan_before(x2, z2, x, z) && g[cell(x2, z2)] != -1
        ==> #[trigger] covered(prev, x2, z2)
    &&& forall|dz: int| 0 <= dz < h ==> #[trigger] row_open(g, prev, x, z + dz, w, v)
    &&& (x + w == 16 || g[cell(x + w, z)] != v || covered(prev, x + w, z))
    &&& (z + h == 16 || !row_open(g, prev, x, z + h, w, v))
}

/// `rs` is what the greedy mesher makes of layer `g`: each rectangle is the greedy one
/// given those before it, and together they cover every cell with a face.
pub open spec fn greedy_layout(g: Seq<i16>, rs: Seq<LayerRect>) -> bool {
    &&& forall|k: int| 0 <= k < rs.len() ==> #[trigger] greedy_next(g, rs.take(k), rs[k])
    &&& forall|x: int, z: int| in_layer(x, z) && g[cell(x, z)] != -1 ==> #[trigger] covered(rs, x, z)
}

/// What one more rectangle adds to the covered cells.
pub proof fn lemma_covered_push(rs: Seq<LayerRect>, r: LayerRect, x: int, z: int)
    ensures
        covered(rs.push(r), x, z) == (covered(rs, x, z) || covers(r, x, z)),
{
    if covered(rs, x, z) {
        let k = choose|k: int| 0 <= k < rs.len() && #[trigger] covers(rs[k], x, z);
        assert(rs.push(r)[k] == rs[k]);
    }
    if covers(r, x, z) {
        assert(rs.push(r)[rs.len() as int] == r);
    }
    if covered(rs.push(r), x, z) {
        let k = choose|k: int| 0 <= k < rs.len() + 1 && #[trigger] covers(rs.push(r)[k], x, z);
        if k < rs.len() {
            assert(rs.push(r)[k] == rs[k]);
        }
    }
}

/// Given the rectangles before it, the greedy rectangle is determined.
proof fn lemma_greedy_next_unique(g: Seq<i16>, prev: Seq<LayerRect>, a: LayerRect, b: LayerRect)
    requires
        greedy_next(g, prev, a),
        greedy_next(g, prev, b),
    ensures
        a == b,
{
    let (ax, az, aw, ah) = (a.0 as int, a.1 as int, a.2 as int, a.3 as int);
    let (bx, bz, bw, bh) = (b.0 as int, b.1 as int, b.2 as int, b.3 as int);
    assert(row_open(g, prev, ax, az + 0, aw, g[cell(ax, az)]));
    assert(row_open(g, prev, bx, bz + 0, bw, g[cell(bx, bz)]));
    assert(g[cell(ax + 0, az + 0)] == g[cell(ax, az)] && !covered(prev, ax + 0, az + 0));
    assert(g[cell(bx + 0, bz + 0)] == g[cell(bx, bz)] && !covered(prev, bx + 0, bz + 0));
    if scan_before(bx, bz, ax, az) {
        assert(covered(prev, bx, bz));
    }
    if scan_before(ax, az, bx, bz) {
        assert(covered(prev, ax, az));
    }
    assert(ax == bx && az == bz);
    let v = g[cell(ax, az)];
    if aw < bw {
        assert(row_open(g, prev, bx, bz + 0, bw, v));
        assert(g[cell(ax + aw, az + 0)] == v && !covered(prev, ax + aw, az + 0));
    }
    if bw < aw {
        assert(row_open(g, prev, ax, az + 0, aw, v));
        assert(g[cell(bx + bw, bz + 0)] == v && !covered(prev, bx + bw, bz + 0));
    }
    assert(aw == bw);
    if ah < bh {
        assert(row_open(g, prev, bx, bz + ah, bw, v));
    }
    if bh < ah {
        assert(row_open(g, prev, ax, az + bh, aw, v));
    }
}

/// Two greedy layouts of one layer agree on their first `k` rectangles.
proof fn lemma_greedy_prefix(g: Seq<i16>, r1: Seq<LayerRect>, r2: Seq<LayerRect>, k: int)
    requires
        greedy_layout(g, r1),
        greedy_layout(g, r2),
        0 <= k <= r1.len(),
        k <= r2.len(),
    ensures
        r1.take(k) == r2.take(k),
    decreases k,
{
    if k > 0 {
        lemma_greedy_prefix(g, r1, r2, k - 1);
        assert(greedy_next(g, r1.take(k - 1), r1[k - 1]));
        assert(greedy_next(g, r2.take(k - 1), r2[k - 1]));
        lemma_greedy_next_unique(g, r1.take(k - 1), r1[k - 1], r2[k - 1]);
        assert(r1.take(k) =~= r1.take(k - 1).push(r1[k - 1]));
        assert(r2.take(k) =~= r2.take(k - 1).push(r2[k - 1]));
    }
}

/// A layout that covers every face leaves no room for one more greedy rectangle.
proof fn lemma_greedy_complete(g: Seq<i16>, rs: Seq<LayerRect>, r: LayerRect)
    requires
        greedy_layout(g, rs),
    ensures
        !greedy_next(g, rs, r),
{
    let (x, z, w) = (r.0 as int, r.1 as int, r.2 as int);
    if greedy_next(g, rs, r) {
        assert(row_open(g, rs, x, z + 0, w, g[cell(x, z)]));
        assert(g[cell(x + 0, z + 0)] == g[cell(x, z)] && !covered(rs, x + 0, z + 0));
        assert(in_layer(x, z));
        assert(covered(rs, x, z));
    }
}

/// The greedy layout of a layer is unique: the rectangles that `greedy_layer` returns are
/// determined by the layer alone.
pub proof fn law_greedy_layout_unique(g: Seq<i16>, r1: Seq<LayerRect>, r2: Seq<LayerRect>)
    requires
        greedy_layout(g, r1),
        greedy_layout(g, r2),
    ensures
        r1 == r2,
{
    if r1.len() < r2.len() {
        lemma_greedy_prefix(g, r1, r2, r1.len() as int);
        assert(r1.take(r1.len() as int) =~= r1);
        assert(greedy_next(g, r2.take(r1.len() as int), r2[r1.len() as int]));
        lemma_greedy_complete(g, r1, r2[r1.len() as int]);
    } else if r2.len() < r1.len() {
        lemma_greedy_prefix(g, r1, r2, r2.len() as int);
        assert(r2.take(r2.len() as int) =~= r2);
        assert(greedy_next(g, r1.take(r2.len() as int), r1[r2.len() as int]));
        lemma_greedy_complete(g, r2, r1[r2.len() as int]);
    } else {
        lemma_greedy_prefix(g, r1, r2, r1.len() as int);
        assert(r1.take(r1.len() as int) =~= r1);
        assert(r2.take(r2.len() as int) =~= r2);
    }
}

/// Cell `(x, z)` of a rectangle of a greedy layout holds the value of the rectangle's
/// first cell, and no earlier rectangle covers it.
proof fn lemma_greedy_rect_cell(g: Seq<i16>, rs: Seq<LayerRect>, k: int, x: int, z: int)
    requires
        greedy_layout(g, rs),
        0 <= k < rs.len(),
        covers(rs[k], x, z),
    ensures
        in_layer(x, z),
        g[cell(x, z)] == g[cell(rs[k].0 as int, rs[k].1 as int)],
        g[cell(x, z)] != -1,
        !covered(rs.take(k), x, z),
{
    let r = rs[k];
    assert(greedy_next(g, rs.take(k), r));
    let dz = z - r.1;
    let i = x - r.0;
    assert(row_open(g, rs.take(k), r.0 as int, r.1 + dz, r.2 as int, g[cell(r.0 as int, r.1 as int)]));
    assert(g[cell(r.0 + i, r.1 + dz)] == g[cell(r.0 as int, r.1 as int)] && !covered(rs.take(k), r.0 + i, r.1 + dz));
}

/// The greedy rectangles of a layer partition its faces: a cell is covered exactly when
/// it has a face, no two rectangles share a cell, and every cell of a rectangle holds the
/// value of the rectangle's first cell.
pub proof fn law_greedy_partition(g: Seq<i16>, rs: Seq<LayerRect>)
    requires
        greedy_layout(g, rs),
    ensures
        forall|x: int, z: int| in_layer(x, z) ==> (#[trigger] covered(rs, x, z) <==> g[cell(x, z)] != -1),
        forall|k1: int, k2: int, x: int, z: int|
            0 <= k1 < k2 < rs.len() && #[trigger] covers(rs[k1], x, z) ==> !#[trigger] covers(rs[k2], x, z),
        forall|k: int, x: int, z: int| 0 <= k < rs.len() && #[trigger] covers(rs[k], x, z) ==> {
            &&& in_layer(x, z)
            &&& g[cell(x, z)] == g[cell(rs[k].0 as int, rs[k].1 as int)]
        },
{
    assert forall|x: int, z: int| in_layer(x, z) implies (#[trigger] covered(rs, x, z) <==> g[cell(x, z)] != -1) by {
        if covered(rs, x, z) {
            let k = choose|k: int| 0 <= k < rs.len() && #[trigger] covers(rs[k], x, z);
            lemma_greedy_rect_cell(g, rs, k, x, z);
        }
    }
    assert forall|k1: int, k2: int, x: int, z: int|
        0 <= k1 < k2 < rs.len() && #[trigger] covers(rs[k1], x, z) implies !#[trigger] covers(rs[k2], x, z) by {
        if covers(rs[k2], x, z) {
            lemma_greedy_rect_cell(g, rs, k2, x, z);
            assert(rs.take(k2)[k1] == rs[k1]);
            assert(covered(rs.take(k2), x, z));
        }
    }
    assert forall|k: int, x: int, z: int| 0 <= k < rs.len() && #[trigger] covers(rs[k], x, z) implies {
        &&& in_layer(x, z)
        &&& g[cell(x, z)] == g[cell(rs[k].0 as int, rs[k].1 as int)]
    } by {
        lemma_greedy_rect_cell(g, rs, k, x, z);
    }
}

/// Whether row `z` holds `value` over columns `x .. x + width`, in cells not yet visited.
fn row_matches(grid: &[i16; 256], visited: &[bool; 256], x: usize, z: usize, width: usize, value: i16) -> (b: bool)
    requires
        x + width <= 16,
        z < 16,
    ensures
        b == forall|i: int| 0 <= i < width ==> grid@[#[trigger] cell(x + i, z as int)] == value && !visited@[cell(x + i, z as int)],
{
    let mut i: usize = 0;
    while i < width
        invariant
            x + width <= 16,
            z < 16,
            i <= width,
            forall|j: int| 0 <= j < i ==> grid@[#[trigger] cell(x + j, z as int)] == value && !visited@[cell(x + j, z as int)],
        decreases width - i,
    {
        let c = z * 16 + x + i;
        assert(c == cell(x + i, z as int));
        if grid[c] != value || visited[c] {
            return false;
        }
        i += 1;
    }
    true
}

/// Splits one 16 x 16 layer into rectangles of equal cells, greedily: scanning the
/// cells in row-major order, each cell with a face (`!= -1`) that no rectangle covers yet
/// starts a rectangle, first widened along its row, then lengthened row by row.
pub fn greedy_layer(grid: &[i16; 256]) -> (rs: Vec<LayerRect>)
    ensures
        greedy_layout(grid@, rs@),
{
    let mut visited: [bool; 256] = [false; 256];
    let mut rs: Vec<LayerRect> = Vec::new();
    let mut z: usize = 0;
    while z < 16
        invariant
            z <= 16,
            forall|k: int| 0 <= k < rs@.len() ==> #[trigger] greedy_next(grid@, rs@.take(k), rs@[k]),
            forall|x2: int, z2: int| #![trigger visited@[cell(x2, z2)]] #![trigger covered(rs@, x2, z2)]
                in_layer(x2, z2) ==> visited@[cell(x2, z2)] == covered(rs@, x2, z2),
            forall|x2: int, z2: int| in_layer(x2, z2) && z2 < z && grid@[cell(x2, z2)] != -1
                ==> #[trigger] covered(rs@, x2, z2),
        decreases 16 - z,
    {
        let mut x: usize = 0;
        while x < 16
            invariant
                z < 16,
                x <= 16,
                forall|k: int| 0 <= k < rs@.len() ==> #[trigger] greedy_next(grid@, rs@.take(k), rs@[k]),
                forall|x2: int, z2: int| #![trigger visited@[cell(x2, z2)]] #![trigger covered(rs@, x2, z2)]
                    in_layer(x2, z2) ==> visited@[cell(x2, z2)] == covered(rs@, x2, z2),
                forall|x2: int, z2: int| in_layer(x2, z2) && scan_before(x2, z2, x as int, z as int) && grid@[cell(x2, z2)] != -1
                    ==> #[trigger] covered(rs@, x2, z2),
            decreases 16 - x,
        {
            let start = z * 16 + x;
            assert(start == cell(x as int, z as int));
            if !visited[start] && grid[start] != -1 {
                let value = grid[start];
                let ghost prev = rs@;
                let mut width: usize = 0;
                while x + width < 16 && grid[z * 16 + x + width] == value && !visited[z * 16 + x + width]
                    invariant
                        z < 16,
                        x < 16,
                        x + width <= 16,
                        forall|i: int| 0 <= i < width ==> grid@[#[trigger] cell(x + i, z as int)] == value && !visited@[cell(x + i, z as int)],
                    decreases 16 - x - width,
                {
                    assert(z * 16 + x + width == cell(x + width, z as int));
                    width += 1;
                }
                assert(grid@[cell(x + 0, z as int)] == value);
                assert(width >= 1);
                let mut height: usize = 1;
                let mut done = false;
                while !done && z + height < 16
                    invariant
                        z < 16,
                        x + width <= 16,
                        1 <= height,
                        z + height <= 16,
                        forall|dz: int, i: int| 0 <= dz < height && 0 <= i < width
                            ==> grid@[#[trigger] cell(x + i, z + dz)] == value && !visited@[cell(x + i, z + dz)],
                        done ==> z + height < 16 && !(forall|i: int| 0 <= i < width
                            ==> grid@[#[trigger] cell(x + i, z + height)] == value && !visited@[cell(x + i, z + height)]),
                    decreases 16 - z - height + (if done { 0int } else { 1int }),
                {
                    if row_matches(grid, &visited, x, z + height, width, value) {
                        height += 1;
                    } else {
                        done = true;
                    }
                }
                let r: LayerRect = (x, z, width, height);
                proof {
                    assert forall|dz: int| 0 <= dz < height implies #[trigger] row_open(grid@, prev, x as int, z + dz, width as int, value) by {
                        assert forall|i: int| 0 <= i < width implies grid@[#[trigger] cell(x + i, z + dz)] == value && !covered(prev, x + i, z + dz) by {
                            assert(in_layer(x + i, z + dz));
                        }
                    }
                    if z + height < 16 {
                        let i = choose|i: int| !(0 <= i < width ==> grid@[#[trigger] cell(x + i, z + height)] == value && !visited@[cell(x + i, z + height)]);
                        assert(in_layer(x + i, z + height));
                        assert(!(grid@[cell(x + i, z + height)] == value && !covered(prev, x + i, z + height)));
                    }
                    if x + width < 16 {
                        assert(in_layer(x + width, z as int));
                        assert(z * 16 + x + width == cell(x + width, z as int));
                    }
                    assert(in_layer(x as int, z as int));
                    assert(greedy_next(grid@, prev, r));
                }
                let ghost before = visited@;
                let mut dz: usize = 0;
                while dz < height
                    invariant
                        z + height <= 16,
                        x + width <= 16,
                        dz <= height,
                        r == (x, z, width, height),
                        before.len() == 256,
                        forall|x2: int, z2: int| #![trigger visited@[cell(x2, z2)]] in_layer(x2, z2) ==> visited@[cell(x2, z2)]
                            == (before[cell(x2, z2)] || (covers(r, x2, z2) && z2 < z + dz)),
                    decreases height - dz,
                {
                    let mut dx: usize = 0;
                    while dx < width
                        invariant
                            z + height <= 16,
                            x + width <= 16,
                            dz < height,
                            r == (x, z, width, height),
                            before.len() == 256,
                            dx <= width,
                            forall|x2: int, z2: int| #![trigger visited@[cell(x2, z2)]] in_layer(x2, z2) ==> visited@[cell(x2, z2)]
                                == (before[cell(x2, z2)] || (covers(r, x2, z2) && (z2 < z + dz || (z2 == z + dz && x2 < x + dx)))),
                        decreases width - dx,
                    {
                        let c = (z + dz) * 16 + x + dx;
                        assert(c == cell(x + dx, z + dz));
                        visited[c] = true;
                        assert forall|x2: int, z2: int| #![trigger visited@[cell(x2, z2)]] in_layer(x2, z2) && cell(x2, z2) == c
                            implies x2 == x + dx && z2 == z + dz by {
                        }
                        dx += 1;
                    }
                    dz += 1;
                }
                rs.push(r);
                proof {
                    assert forall|k: int| 0 <= k < rs@.len() implies #[trigger] greedy_next(grid@, rs@.take(k), rs@[k]) by {
                        if k < prev.len() {
                            assert(rs@.take(k) =~= prev.take(k));
                            assert(rs@[k] == prev[k]);
                        } else {
                            assert(rs@.take(k) =~= prev);
                        }
                    }
                    assert forall|x2: int, z2: int| in_layer(x2, z2) implies visited@[cell(x2, z2)] == #[trigger] covered(rs@, x2, z2) by {
                        lemma_covered_push(prev, r, x2, z2);
                    }
                    assert forall|x2: int, z2: int| in_layer(x2, z2) && scan_before(x2, z2, x + 1, z as int) && grid@[cell(x2, z2)] != -1
                        implies #[trigger] covered(rs@, x2, z2) by {
                        lemma_covered_push(prev, r, x2, z2);
                    }
                }
            }
            x += 1;
        }
        z += 1;
    }
    rs
}

/// Index in the chunk tables of cell `(x, z)` of layer `y` seen along `axis`:
/// the layer's axes are `(x, y, z)`, `(y, z, x)` or `(z, x, y)` of the chunk.
pub open spec fn axis_index(axis: int, x: int, y: int, z: int) -> int {
    if axis == 0 {
        block_index(x, y, z)
    } else if axis == 1 {
        block_index(y, z, x)
    } else {
        block_index(z, x, y)
    }
}

/// What the mesher sees at cell `(x, z)` of layer `y` along `axis`, for the face of
/// bit `bit`: the block, or `-1` where the block is air or that face is hidden.
pub open spec fn layer_cell(blocks: Seq<i16>, faces: Seq<u8>, axis: int, bit: int, y: int, x: int, z: int) -> i16 {
    let idx = axis_index(axis, x, y, z);
    if faces[idx] & (1u8 << (bit as u8)) != 0 || blocks[idx] == 0 {
        -1i16
    } else {
        blocks[idx]
    }
}

/// Layer `y` along `axis`, for the faces of orientation `orientation`.
pub open spec fn layer_grid(blocks: Seq<i16>, faces: Seq<u8>, axis: int, orientation: int, y: int) -> Seq<i16> {
    Seq::new(256, |i: int| layer_cell(blocks, faces, axis, axis * 2 + orientation, y, i % 16, i / 16))
}

/// Rectangle `r` of layer `y` along `axis`, in chunk coordinates, with its extents minus one.
pub open spec fn placed_rect(axis: int, y: int, r: LayerRect) -> Rect {
    let (x, z, w, h) = (r.0 as i32, r.1 as i32, (r.2 - 1) as i32, (r.3 - 1) as i32);
    if axis == 0 {
        (x, y as i32, z, w, h)
    } else if axis == 1 {
        (y as i32, z, x, w, h)
    } else {
        (z, x, y as i32, w, h)
    }
}

/// The rectangles of `layers` (layer `y` at index `y`), placed along `axis`, layer after layer.
pub open spec fn placed_layers(axis: int, layers: Seq<Seq<LayerRect>>) -> Seq<Rect>
    decreases layers.len(),
{
    if layers.len() == 0 {
        Seq::empty()
    } else {
        let y = layers.len() - 1;
        placed_layers(axis, layers.drop_last()) + layers[y].map_values(|r: LayerRect| placed_rect(axis, y, r))
    }
}

/// `rects` is what the greedy mesher makes of the faces of orientation `orientation`
/// along `axis`: the greedy layouts of the 16 layers, placed layer after layer.
pub open spec fn direction_meshed(blocks: Seq<i16>, faces: Seq<u8>, axis: int, orientation: int, rects: Seq<Rect>) -> bool {
    exists|layers: Seq<Seq<LayerRect>>| {
        &&& layers.len() == 16
        &&& forall|y: int| 0 <= y < 16 ==> #[trigger] greedy_layout(layer_grid(blocks, faces, axis, orientation, y), layers[y])
        &&& rects == placed_layers(axis, layers)
    }
}

/// The layer `y` that the mesher reads along `axis` for orientation `orientation`.
fn build_layer(blocks: &[i16; 4096], faces: &[u8; 4096], axis: usize, orientation: usize, y: usize) -> (grid: [i16; 256])
    requires
        axis < 3,
        orientation < 2,
        y < 16,
    ensures
        grid@ == layer_grid(blocks@, faces@, axis as int, orientation as int, y as int),
{
    let mut grid: [i16; 256] = [-1; 256];
    let bit: u8 = (axis * 2 + orientation) as u8;
    let mut i: usize = 0;
    while i < 256
        invariant
            axis < 3,
            orientation < 2,
            y < 16,
            bit == axis * 2 + orientation,
            i <= 256,
            forall|j: int| 0 <= j < i ==> #[trigger] grid@[j] == layer_cell(blocks@, faces@, axis as int, axis * 2 + orientation, y as int, j % 16, j / 16),
        decreases 256 - i,
    {
        let x = i % 16;
        let z = i / 16;
        let index: usize = if axis == 0 {
            x * 256 + y * 16 + z
        } else if axis == 1 {
            y * 256 + z * 16 + x
        } else {
            z * 256 + x * 16 + y
        };
        assert(index == axis_index(axis as int, x as int, y as int, z as int));
        let has_side: bool = faces[index] & (1u8 << bit) == 0;
        let block_type: i16 = blocks[index];
        grid[i] = if !has_side || block_type == 0 { -1 } else { block_type };
        i += 1;
    }
    assert(grid@ =~= layer_grid(blocks@, faces@, axis as int, orientation as int, y as int));
    grid
}

/// The greedy rectangles of the faces of orientation `orientation` along `axis`, layer by
/// layer, in chunk coordinates.
pub fn mesh_direction(blocks: &[i16; 4096], faces: &[u8; 4096], axis: usize, orientation: usize) -> (rects: Vec<Rect>)
    requires
        axis < 3,
        orientation < 2,
    ensures
        direction_meshed(blocks@, faces@, axis as int, orientation as int, rects@),
{
    let mut rectangles: Vec<Rect> = Vec::new();
    let ghost mut layers: Seq<Seq<LayerRect>> = Seq::empty();
    let mut y: usize = 0;
    while y < 16
        invariant
            axis < 3,
            orientation < 2,
            y <= 16,
            layers.len() == y,
            forall|j: int| 0 <= j < y ==> #[trigger] greedy_layout(layer_grid(blocks@, faces@, axis as int, orientation as int, j), layers[j]),
            rectangles@ == placed_layers(axis as int, layers),
        decreases 16 - y,
    {
        let grid = build_layer(blocks, faces, axis, orientation, y);
        let layer = greedy_layer(&grid);
        let ghost before = rectangles@;
        let mut k: usize = 0;
        while k < layer.len()
            invariant
                axis < 3,
                y < 16,
                k <= layer@.len(),
                greedy_layout(grid@, layer@),
                rectangles@ == before + layer@.take(k as int).map_values(|r: LayerRect| placed_rect(axis as int, y as int, r)),
            decreases layer@.len() - k,
        {
            let r = layer[k];
            assert(greedy_next(grid@, layer@.take(k as int), layer@[k as int]));
            let w: i32 = r.2 as i32 - 1;
            let h: i32 = r.3 as i32 - 1;
            let placed: Rect = if axis == 0 {
                (r.0 as i32, y as i32, r.1 as i32, w, h)
            } else if axis == 1 {
                (y as i32, r.1 as i32, r.0 as i32, w, h)
            } else {
                (r.1 as i32, r.0 as i32, y as i32, w, h)
            };
            assert(placed == placed_rect(axis as int, y as int, r));
            rectangles.push(placed);
            assert(layer@.take(k + 1) =~= layer@.take(k as int).push(r));
            assert(rectangles@ =~= before + layer@.take(k + 1).map_values(|r: LayerRect| placed_rect(axis as int, y as int, r)));
            k += 1;
        }
        proof {
            let old_layers = layers;
            layers = layers.push(layer@);
            assert(layers.drop_last() =~= old_layers);
            assert(layer@.take(layer@.len() as int) =~= layer@);
            assert(rectangles@ == placed_layers(axis as int, layers));
        }
        y += 1;
    }
    rectangles
}

/// Each rectangle of `placed_layers(axis, layers)` is some rectangle of some layer, placed.
proof fn lemma_placed_layers_from(axis: int, layers: Seq<Seq<LayerRect>>, t: int)
    requires
        0 <= t < placed_layers(axis, layers).len(),
    ensures
        exists|y: int, k: int|
            0 <= y < layers.len() && 0 <= k < layers[y].len() && placed_layers(axis, layers)[t] == #[trigger] placed_rect(axis, y, layers[y][k]),
    decreases layers.len(),
{
    let y = layers.len() - 1;
    let front = placed_layers(axis, layers.drop_last());
    let back = layers[y].map_values(|r: LayerRect| placed_rect(axis, y, r));
    assert(placed_layers(axis, layers) == front + back);
    if t < front.len() {
        lemma_placed_layers_from(axis, layers.drop_last(), t);
        let (y2, k2) = choose|y2: int, k2: int|
            0 <= y2 < layers.drop_last().len() && 0 <= k2 < layers.drop_last()[y2].len()
                && front[t] == #[trigger] placed_rect(axis, y2, layers.drop_last()[y2][k2]);
        assert(layers.drop_last()[y2] == layers[y2]);
        assert(placed_layers(axis, layers)[t] == placed_rect(axis, y2, layers[y2][k2]));
    } else {
        let k = t - front.len();
        assert(placed_layers(axis, layers)[t] == back[k]);
        assert(back[k] == placed_rect(axis, y, layers[y][k]));
    }
}

/// Every rectangle that the mesher returns for the faces of orientation `orientation`
/// along `axis` starts at a block of the chunk whose face in that direction is visible:
/// the block is solid and its face bit `axis * 2 + orientation` is clear. It lies within the
/// chunk: it runs `r.3 + 1` blocks along world z (axis 0 and 1) or y (axis 2), and `r.4 + 1`
/// blocks along world z (axis 0), y (axis 1) or x (axis 2).
#[verifier::spinoff_prover]
#[verifier::rlimit(30)]
pub proof fn law_mesh_rects_start_at_faces(blocks: Seq<i16>, faces: Seq<u8>, axis: int, orientation: int, rects: Seq<Rect>)
    requires
        direction_meshed(blocks, faces, axis, orientation, rects),
        0 <= axis < 3,
        0 <= orientation < 2,
    ensures
        forall|t: int| 0 <= t < rects.len() ==> {
            let r = #[trigger] rects[t];
            &&& 0 <= r.0 < 16 && 0 <= r.1 < 16 && 0 <= r.2 < 16 && 0 <= r.3 && 0 <= r.4
            &&& blocks[block_index(r.0 as int, r.1 as int, r.2 as int)] != 0
            &&& faces[block_index(r.0 as int, r.1 as int, r.2 as int)] & (1u8 << ((axis * 2 + orientation) as u8)) == 0
            &&& axis == 0 ==> r.0 + r.3 < 16 && r.2 + r.4 < 16
            &&& axis == 1 ==> r.2 + r.3 < 16 && r.1 + r.4 < 16
            &&& axis == 2 ==> r.1 + r.3 < 16 && r.0 + r.4 < 16
        },
{
    let layers = choose|layers: Seq<Seq<LayerRect>>| {
        &&& layers.len() == 16
        &&& forall|y: int| 0 <= y < 16 ==> #[trigger] greedy_layout(layer_grid(blocks, faces, axis, orientation, y), layers[y])
        &&& rects == placed_layers(axis, layers)
    };
    assert forall|t: int| 0 <= t < rects.len() implies {
        let r = #[trigger] rects[t];
        &&& 0 <= r.0 < 16 && 0 <= r.1 < 16 && 0 <= r.2 < 16 && 0 <= r.3 && 0 <= r.4
        &&& blocks[block_index(r.0 as int, r.1 as int, r.2 as int)] != 0
        &&& faces[block_index(r.0 as int, r.1 as int, r.2 as int)] & (1u8 << ((axis * 2 + orientation) as u8)) == 0
        &&& axis == 0 ==> r.0 + r.3 < 16 && r.2 + r.4 < 16
        &&& axis == 1 ==> r.2 + r.3 < 16 && r.1 + r.4 < 16
        &&& axis == 2 ==> r.1 + r.3 < 16 && r.0 + r.4 < 16
    } by {
        lemma_placed_layers_from(axis, layers, t);
        let (y, k) = choose|y: int, k: int|
            0 <= y < layers.len() && 0 <= k < layers[y].len() && placed_layers(axis, layers)[t] == #[trigger] placed_rect(axis, y, layers[y][k]);
        let g = layer_grid(blocks, faces, axis, orientation, y);
        assert(greedy_layout(g, layers[y]));
        let lr = layers[y][k];
        assert(greedy_next(g, layers[y].take(k), lr));
        let (x, z) = (lr.0 as int, lr.1 as int);
        assert(g[cell(x, z)] != -1);
        assert((z * 16 + x) % 16 == x && (z * 16 + x) / 16 == z);
        assert(g[cell(x, z)] == layer_cell(blocks, faces, axis, axis * 2 + orientation, y, x, z));
    }
}

/// The block `du` cells along a rectangle's width and `dv` along its height from its first
/// block, for a rectangle of the faces along `axis`: the width runs along world x
/// (axis 0), z (axis 1) or y (axis 2), the height along z (axis 0), y (axis 1) or x (axis 2).
pub open spec fn rect_block(axis: int, r: Rect, du: int, dv: int) -> (int, int, int) {
    if axis == 0 {
        (r.0 + du, r.1 as int, r.2 + dv)
    } else if axis == 1 {
        (r.0 as int, r.1 + dv, r.2 + du)
    } else {
        (r.0 + dv, r.1 + du, r.2 as int)
    }
}

/// Every block that a rectangle of the mesher spans shows the face the rectangle stands
/// for, and is of the same type as the rectangle's first block. A rectangle of the faces
/// along axis 0 spans `r.3 + 1` blocks along world x and `r.4 + 1` along z; along axis 1,
/// `r.3 + 1` along z and `r.4 + 1` along y; along axis 2, `r.3 + 1` along y and `r.4 + 1`
/// along x (see `rect_block`).
#[verifier::spinoff_prover]
#[verifier::rlimit(30)]
pub proof fn law_mesh_rects_cover_faces(blocks: Seq<i16>, faces: Seq<u8>, axis: int, orientation: int, rects: Seq<Rect>)
    requires
        direction_meshed(blocks, faces, axis, orientation, rects),
        0 <= axis < 3,
        0 <= orientation < 2,
    ensures
        forall|t: int, du: int, dv: int| 0 <= t < rects.len() && 0 <= du <= rects[t].3 && 0 <= dv <= rects[t].4 ==> {
            let p = #[trigger] rect_block(axis, rects[t], du, dv);
            let i = block_index(p.0, p.1, p.2);
            &&& 0 <= p.0 < 16 && 0 <= p.1 < 16 && 0 <= p.2 < 16
            &&& blocks[i] == blocks[block_index(rects[t].0 as int, rects[t].1 as int, rects[t].2 as int)]
            &&& blocks[i] != 0
            &&& faces[i] & (1u8 << ((axis * 2 + orientation) as u8)) == 0
        },
{
    let layers = choose|layers: Seq<Seq<LayerRect>>| {
        &&& layers.len() == 16
        &&& forall|y: int| 0 <= y < 16 ==> #[trigger] greedy_layout(layer_grid(blocks, faces, axis, orientation, y), layers[y])
        &&& rects == placed_layers(axis, layers)
    };
    assert forall|t: int, du: int, dv: int| 0 <= t < rects.len() && 0 <= du <= rects[t].3 && 0 <= dv <= rects[t].4 implies {
        let p = #[trigger] rect_block(axis, rects[t], du, dv);
        let i = block_index(p.0, p.1, p.2);
        &&& 0 <= p.0 < 16 && 0 <= p.1 < 16 && 0 <= p.2 < 16
        &&& blocks[i] == blocks[block_index(rects[t].0 as int, rects[t].1 as int, rects[t].2 as int)]
        &&& blocks[i] != 0
        &&& faces[i] & (1u8 << ((axis * 2 + orientation) as u8)) == 0
    } by {
        lemma_placed_layers_from(axis, layers, t);
        let (y, k) = choose|y: int, k: int|
            0 <= y < layers.len() && 0 <= k < layers[y].len() && placed_layers(axis, layers)[t] == #[trigger] placed_rect(axis, y, layers[y][k]);
        let g = layer_grid(blocks, faces, axis, orientation, y);
        assert(greedy_layout(g, layers[y]));
        let lr = layers[y][k];
        assert(greedy_next(g, layers[y].take(k), lr));
        let (x0, z0) = (lr.0 as int, lr.1 as int);
        let (x1, z1) = (x0 + du, z0 + dv);
        law_greedy_partition(g, layers[y]);
        assert(covers(layers[y][k], x1, z1));
        assert(in_layer(x1, z1) && g[cell(x1, z1)] == g[cell(x0, z0)]);
        assert(g[cell(x0, z0)] != -1);
        assert((z0 * 16 + x0) % 16 == x0 && (z0 * 16 + x0) / 16 == z0);
        assert((z1 * 16 + x1) % 16 == x1 && (z1 * 16 + x1) / 16 == z1);
        assert(g[cell(x0, z0)] == layer_cell(blocks, faces, axis, axis * 2 + orientation, y, x0, z0));
        assert(g[cell(x1, z1)] == layer_cell(blocks, faces, axis, axis * 2 + orientation, y, x1, z1));
    }
}

} // verus!
