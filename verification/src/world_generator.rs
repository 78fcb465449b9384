use vstd::prelude::*;
use vstd::arithmetic::div_mod::lemma_small_mod;

use crate::chunk::{
    block_index, chunk_origin, in_chunk, with_aot, with_blocks, with_externals, with_faces, with_faces_flag, with_generated, with_structures, fresh_chunk, Chunk, ChunkView, CHUNK_SHIFT,
    CHUNK_SHIFT_2, CHUNK_SIZE, CHUNK_SIZE_3,
};
use crate::chunk_loader::{abs, adjacent};
use crate::chunk_table::{block_at, block_readable, with_chunk, ChunkTable};
use crate::random::roll;
use crate::world_structure::{blocks_near_root, indexed_blocks, lemma_indexed_blocks_near_root, WorldStructure};
use crate::coords::{in_i32, swapped, I32x3Extension};
use crate::perlin::{new_perlin, perlin_for_seed};
use crate::random::random_u32;
use crate::world_structure::{StructureBlock, StructureSpec};
use crate::chunk::{structures_view, with_rects};
use crate::greedy::{direction_meshed, mesh_direction};

verus! {

/// What the terrain noise gives at a column, as relations: `height(x, z, r)` holds when `r`
/// is a surface height that the elevation gives for column `(x, z)`, and `grass(x, z, b)`
/// when `b` is a sign of its grass noise that the noise gives.
pub struct Surface {
    pub height: spec_fn(i32, i32, i32) -> bool,
    pub grass: spec_fn(i32, i32, bool) -> bool,
}

/// The terrain noise that world generation reads, computed in floating point by the game:
/// the surface height of column `(x, z)`, and whether its grass noise is positive.
pub struct Terrain<E: Fn(i32, i32) -> i32, G: Fn(i32, i32) -> bool> {
    pub elevation: E,
    pub grass_noise_positive: G,
}

impl<E: Fn(i32, i32) -> i32, G: Fn(i32, i32) -> bool> Terrain<E, G> {
    /// The values these functions may give, column by column.
    pub open spec fn surface(&self) -> Surface {
        Surface {
            height: |x: i32, z: i32, r: i32| call_ensures(self.elevation, (x, z), r),
            grass: |x: i32, z: i32, b: bool| call_ensures(self.grass_noise_positive, (x, z), b),
        }
    }

    /// Both functions can be called on every column.
    pub open spec fn callable(&self) -> bool {
        &&& forall|x: i32, z: i32| call_requires(self.elevation, (x, z))
        &&& forall|x: i32, z: i32| call_requires(self.grass_noise_positive, (x, z))
    }
}

/// Generates and prepares chunks. The noise generators are seeded at random.
pub struct WorldGenerator {
    pub seed: i32,
    pub perlin: noise::Perlin,
    pub perlin2: noise::Perlin,
    pub perlin3: noise::Perlin,
}

impl Default for WorldGenerator {
    fn default() -> (g: Self)
        ensures
            g.seed == 2137,
            exists|s: u32| g.perlin == perlin_for_seed(s),
            exists|s: u32| g.perlin2 == perlin_for_seed(s),
            exists|s: u32| g.perlin3 == perlin_for_seed(s),
    {
        let s1 = random_u32();
        let s2 = random_u32();
        let s3 = random_u32();
        WorldGenerator { seed: 2137, perlin: new_perlin(s1), perlin2: new_perlin(s2), perlin3: new_perlin(s3) }
    }
}

pub const WORLD_GRASS_LEVEL: i32 = 3;
pub const WORLD_WATER_LEVEL: i32 = -6;
pub const MAX_DISTANCE: i32 = 250;

/// The offset of a structure block from the structure's root, after mirroring and axis swap.
pub open spec fn placed_offset(s: StructureSpec, b: StructureBlock) -> (i32, i32, i32) {
    swapped(
        (
            (b.0.0 * s.miroor_multiplier.0) as i32,
            (b.0.1 * s.miroor_multiplier.1) as i32,
            (b.0.2 * s.miroor_multiplier.2) as i32,
        ),
        s.mirror_axis,
    )
}

/// The local position, in the chunk at `cpos`, at which block `b` of structure `s` lands.
pub open spec fn placed_at(s: StructureSpec, b: StructureBlock, cpos: (i32, i32, i32)) -> (int, int, int) {
    let o = placed_offset(s, b);
    (
        s.root.0 + o.0 + (s.root_chunk_position.0 - cpos.0) * 16,
        s.root.1 + o.1 + (s.root_chunk_position.1 - cpos.1) * 16,
        s.root.2 + o.2 + (s.root_chunk_position.2 - cpos.2) * 16,
    )
}

/// Placing block `b` of `s` in the chunk at `cpos` computes without overflow.
pub open spec fn block_fits(s: StructureSpec, b: StructureBlock, cpos: (i32, i32, i32)) -> bool {
    let o = placed_offset(s, b);
    &&& in_i32(b.0.0 * s.miroor_multiplier.0)
    &&& in_i32(b.0.1 * s.miroor_multiplier.1)
    &&& in_i32(b.0.2 * s.miroor_multiplier.2)
    &&& in_i32(s.root.0 + o.0)
    &&& in_i32(s.root.1 + o.1)
    &&& in_i32(s.root.2 + o.2)
    &&& in_i32(s.root_chunk_position.0 - cpos.0)
    &&& in_i32(s.root_chunk_position.1 - cpos.1)
    &&& in_i32(s.root_chunk_position.2 - cpos.2)
    &&& in_i32((s.root_chunk_position.0 - cpos.0) * 16)
    &&& in_i32((s.root_chunk_position.1 - cpos.1) * 16)
    &&& in_i32((s.root_chunk_position.2 - cpos.2) * 16)
    &&& in_i32(placed_at(s, b, cpos).0)
    &&& in_i32(placed_at(s, b, cpos).1)
    &&& in_i32(placed_at(s, b, cpos).2)
}

pub open spec fn structures_fit(structs: Seq<StructureSpec>, cpos: (i32, i32, i32)) -> bool {
    forall|i: int, j: int|
        0 <= i < structs.len() && 0 <= j < structs[i].blocks.len() ==> #[trigger] block_fits(
            structs[i],
            #[trigger] structs[i].blocks[j],
            cpos,
        )
}

/// `blocks` with the first `n` blocks of `s` written in, each where it lands, when it
/// lands inside the chunk.
pub open spec fn paint_blocks(blocks: Seq<i16>, s: StructureSpec, cpos: (i32, i32, i32), n: int) -> Seq<i16>
    decreases n,
{
    if n <= 0 {
        blocks
    } else {
        let prev = paint_blocks(blocks, s, cpos, n - 1);
        let t = placed_at(s, s.blocks[n - 1], cpos);
        if in_chunk(t.0, t.1, t.2) {
            prev.update(block_index(t.0, t.1, t.2), s.blocks[n - 1].1)
        } else {
            prev
        }
    }
}

/// `blocks` with the first `n` structures written in, one after the other.
pub open spec fn paint_structures(blocks: Seq<i16>, structs: Seq<StructureSpec>, cpos: (i32, i32, i32), n: int) -> Seq<i16>
    decreases n,
{
    if n <= 0 {
        blocks
    } else {
        let prev = paint_structures(blocks, structs, cpos, n - 1);
        paint_blocks(prev, structs[n - 1], cpos, structs[n - 1].blocks.len() as int)
    }
}

pub open spec fn painted(blocks: Seq<i16>, structs: Seq<StructureSpec>, cpos: (i32, i32, i32)) -> Seq<i16> {
    paint_structures(blocks, structs, cpos, structs.len() as int)
}

pub(crate) proof fn lemma_paint_blocks_len(blocks: Seq<i16>, s: StructureSpec, cpos: (i32, i32, i32), n: int)
    requires
        blocks.len() == 4096,
    ensures
        paint_blocks(blocks, s, cpos, n).len() == blocks.len(),
    decreases n,
{
    if n > 0 {
        lemma_paint_blocks_len(blocks, s, cpos, n - 1);
    }
}

/// A structure that chunk generation may place: rooted in the chunk, mirrored at most on
/// the horizontal axes, with its blocks near its root.
pub open spec fn structure_ok(s: StructureSpec) -> bool {
    &&& 0 <= s.root.0 < 16
    &&& 0 <= s.root.1 < 16
    &&& 0 <= s.root.2 < 16
    &&& (s.miroor_multiplier.0 == 1 || s.miroor_multiplier.0 == -1)
    &&& (s.miroor_multiplier.1 == 1 || s.miroor_multiplier.1 == -1)
    &&& (s.miroor_multiplier.2 == 1 || s.miroor_multiplier.2 == -1)
    &&& blocks_near_root(s.blocks)
}

/// What the chunk table keeps true: each chunk sits at its key, has full tables, and holds
/// structures rooted in itself, and external structures rooted in a neighbour.
pub open spec fn table_wf(m: Map<(i32, i32, i32), ChunkView>) -> bool {
    forall|k: (i32, i32, i32)| #[trigger] m.contains_key(k) ==> chunk_wf(m[k], k)
}

pub open spec fn chunk_wf(c: ChunkView, k: (i32, i32, i32)) -> bool {
    &&& c.world_chunk_position == k
    &&& c.blocks.len() == 4096
    &&& c.faces.len() == 4096
    &&& c.aot.len() == 4096
    &&& c.rects.len() == 6
    &&& forall|i: int| 0 <= i < c.structures.len() ==> {
        &&& structure_ok(#[trigger] c.structures[i])
        &&& c.structures[i].root_chunk_position == k
    }
    &&& forall|i: int| 0 <= i < c.externals.len() ==> {
        &&& structure_ok(#[trigger] c.externals[i])
        &&& adjacent(c.externals[i].root_chunk_position, k)
    }
}

/// A structure that `pre_generate_structures` may add to the chunk at `pos`: one of the
/// indexed structures, rooted at a column of the chunk, at a surface height in the chunk
/// and at or above the grass level, mirrored or not on x and z, with its axes swapped or not.
pub open spec fn placed_structure(s: StructureSpec, pos: (i32, i32, i32), sf: Surface) -> bool {
    &&& s.root_chunk_position == pos
    &&& 0 <= s.root.0 < 16
    &&& 0 <= s.root.1 < 16
    &&& 0 <= s.root.2 < 16
    &&& chunk_origin(pos.1) + s.root.1 >= WORLD_GRASS_LEVEL
    &&& within_distance(
        (chunk_origin(pos.0) + s.root.0) * (chunk_origin(pos.0) + s.root.0) + (chunk_origin(pos.2) + s.root.2) * (chunk_origin(pos.2) + s.root.2),
        MAX_DISTANCE as int,
    )
    &&& (sf.height)(
        (chunk_origin(pos.0) + s.root.0) as i32,
        (chunk_origin(pos.2) + s.root.2) as i32,
        (chunk_origin(pos.1) + s.root.1) as i32,
    )
    &&& exists|index: i32| 0 <= index < 8 && s.blocks == #[trigger] indexed_blocks(index)
    &&& (s.miroor_multiplier.0 == 1 || s.miroor_multiplier.0 == -1)
    &&& s.miroor_multiplier.1 == 1
    &&& (s.miroor_multiplier.2 == 1 || s.miroor_multiplier.2 == -1)
    &&& (s.mirror_axis == 1 || s.mirror_axis == -1)
}

/// `b` is `a` after structure pre-generation at `pos`: unchanged when `a` was already
/// pre-generated, otherwise flagged, with placed structures appended to its own.
pub open spec fn pregenerated_from(a: ChunkView, b: ChunkView, pos: (i32, i32, i32), sf: Surface) -> bool {
    if a.structers_pre_generated {
        b == a
    } else {
        &&& b == with_structures(a, b.structures, true)
        &&& a.structures.len() <= b.structures.len() <= a.structures.len() + structure_budget(pos.1)
        &&& b.structures.subrange(0, a.structures.len() as int) == a.structures
        &&& forall|i: int| a.structures.len() <= i < b.structures.len() ==> placed_structure(#[trigger] b.structures[i], pos, sf)
    }
}

/// Chunk row `y` can be pre-generated without overflow, and with its count of structure
/// attempts exact in `f32`.
pub open spec fn chunk_y_ok(y: i32) -> bool {
    &&& in_i32(chunk_origin(y) + 16)
    &&& in_i32(y + 2)
    &&& in_i32((y + 2) * 3)
    &&& abs((y + 2) * 3) + 4 < 0x100_0000
}

/// The most structures that one pre-generation of a chunk in row `y` tries to place:
/// twice the largest raw count `4 + |3 (y + 2)|`.
pub open spec fn structure_budget(y: i32) -> int {
    2 * (4 + abs((y + 2) * 3))
}

/// `floor(sqrt(d2)) < r`, which is what the distance of a point with squared distance
/// `d2` from the origin, computed as `(d2 as f32).sqrt() as i32`, compares to for the
/// radii used here (`r * r` is exact in `f32`, and `f32` square roots round correctly).
pub open spec fn within_distance(d2: int, r: int) -> bool {
    d2 < r * r
}

proof fn lemma_placed_structure_ok(s: StructureSpec, pos: (i32, i32, i32), sf: Surface)
    requires
        placed_structure(s, pos, sf),
    ensures
        structure_ok(s),
{
    let index = choose|index: i32| 0 <= index < 8 && s.blocks == #[trigger] indexed_blocks(index);
    lemma_indexed_blocks_near_root(index);
}

/// The blocks of a well-formed structure rooted next to `cpos` can be placed without overflow.
proof fn lemma_structures_fit(structs: Seq<StructureSpec>, cpos: (i32, i32, i32))
    requires
        forall|i: int| 0 <= i < structs.len() ==> {
            &&& structure_ok(#[trigger] structs[i])
            &&& adjacent(structs[i].root_chunk_position, cpos)
        },
    ensures
        structures_fit(structs, cpos),
{
    assert forall|i: int, j: int| 0 <= i < structs.len() && 0 <= j < structs[i].blocks.len()
        implies #[trigger] block_fits(structs[i], #[trigger] structs[i].blocks[j], cpos) by {
        let s = structs[i];
        let b = s.blocks[j];
        assert(structure_ok(s));
        assert(-8 <= b.0.0 <= 8 && -8 <= b.0.1 <= 8 && -8 <= b.0.2 <= 8);
        assert(-8 <= b.0.0 * s.miroor_multiplier.0 <= 8 && -8 <= b.0.1 * s.miroor_multiplier.1 <= 8
            && -8 <= b.0.2 * s.miroor_multiplier.2 <= 8) by (nonlinear_arith)
            requires
                -8 <= b.0.0 <= 8,
                -8 <= b.0.1 <= 8,
                -8 <= b.0.2 <= 8,
                s.miroor_multiplier.0 == 1 || s.miroor_multiplier.0 == -1,
                s.miroor_multiplier.1 == 1 || s.miroor_multiplier.1 == -1,
                s.miroor_multiplier.2 == 1 || s.miroor_multiplier.2 == -1,
        ;
    }
}

/// The `t`-th of the 26 neighbours of `pos`, in the order x, then y, then z offset.
pub open spec fn neighbour(pos: (i32, i32, i32), t: int) -> (i32, i32, i32) {
    let u = if t < 13 {
        t
    } else {
        t + 1
    };
    ((pos.0 + u / 9 - 1) as i32, (pos.1 + (u / 3) % 3 - 1) as i32, (pos.2 + u % 3 - 1) as i32)
}

/// `k` is one of the 26 neighbours of `pos`.
pub open spec fn in_ring(k: (i32, i32, i32), pos: (i32, i32, i32)) -> bool {
    adjacent(k, pos) && k != pos
}

/// The positions around `pos` can be formed, and each row around it pre-generated,
/// without overflow.
pub open spec fn ring_ok(pos: (i32, i32, i32)) -> bool {
    &&& in_i32(pos.0 - 1) && in_i32(pos.0 + 1)
    &&& in_i32(pos.1 - 1) && in_i32(pos.1 + 1)
    &&& in_i32(pos.2 - 1) && in_i32(pos.2 + 1)
    &&& chunk_y_ok((pos.1 - 1) as i32)
    &&& chunk_y_ok(pos.1)
    &&& chunk_y_ok((pos.1 + 1) as i32)
}

/// The chunk at `k` in `m`, or the fresh chunk that `add_chunk` would put there.
pub open spec fn prior(m: Map<(i32, i32, i32), ChunkView>, k: (i32, i32, i32)) -> ChunkView {
    if m.contains_key(k) {
        m[k]
    } else {
        fresh_chunk(k)
    }
}

/// The own structures of the first `n` neighbours of `pos`, one after the other.
pub open spec fn neighbour_structures(m: Map<(i32, i32, i32), ChunkView>, pos: (i32, i32, i32), n: int) -> Seq<StructureSpec>
    decreases n,
{
    if n <= 0 {
        Seq::empty()
    } else {
        neighbour_structures(m, pos, n - 1) + m[neighbour(pos, n - 1)].structures
    }
}

pub(crate) proof fn lemma_neighbour(pos: (i32, i32, i32), t: int)
    requires
        ring_ok(pos),
        0 <= t < 26,
    ensures
        in_ring(neighbour(pos, t), pos),
        forall|t2: int| 0 <= t2 < 26 && t2 != t ==> neighbour(pos, t2) != neighbour(pos, t),
{
}

proof fn lemma_ring_enumerated(pos: (i32, i32, i32), k: (i32, i32, i32))
    requires
        ring_ok(pos),
        in_ring(k, pos),
    ensures
        exists|t: int| 0 <= t < 26 && neighbour(pos, t) == k,
{
    let u = (k.0 - pos.0 + 1) * 9 + (k.1 - pos.1 + 1) * 3 + (k.2 - pos.2 + 1);
    let t = if u < 13 {
        u
    } else {
        u - 1
    };
    assert(neighbour(pos, t) == k);
}

/// `neighbour_structures` reads only the first `n` neighbours.
proof fn lemma_neighbour_structures_frame(
    m1: Map<(i32, i32, i32), ChunkView>,
    m2: Map<(i32, i32, i32), ChunkView>,
    pos: (i32, i32, i32),
    n: int,
)
    requires
        forall|t: int| 0 <= t < n ==> m1[neighbour(pos, t)] == m2[neighbour(pos, t)],
    ensures
        neighbour_structures(m1, pos, n) == neighbour_structures(m2, pos, n),
    decreases n,
{
    if n > 0 {
        lemma_neighbour_structures_frame(m1, m2, pos, n - 1);
    }
}

/// `m2` is `m1` after `pre_generate_external_structures` at `pos` on a chunk that was not
/// yet done: every neighbour is present and pre-generated, the chunk itself is pre-generated
/// and flagged, its external structures are its neighbours' structures, and no other chunk
/// changed.
pub open spec fn external_pregenerated(
    m1: Map<(i32, i32, i32), ChunkView>,
    m2: Map<(i32, i32, i32), ChunkView>,
    pos: (i32, i32, i32),
    sf: Surface,
) -> bool {
    &&& forall|k: (i32, i32, i32)| #[trigger] m2.contains_key(k) <==> (m1.contains_key(k) || in_ring(k, pos))
    &&& forall|k: (i32, i32, i32)| #[trigger] m1.contains_key(k) && !in_ring(k, pos) && k != pos ==> m2[k] == m1[k]
    &&& forall|k: (i32, i32, i32)| #[trigger] in_ring(k, pos) ==> {
        &&& pregenerated_from(prior(m1, k), m2[k], k, sf)
        &&& m2[k].structers_pre_generated
    }
    &&& m2[pos].structres_generated
    &&& m2[pos].structers_pre_generated
    &&& m2[pos].externals == neighbour_structures(m2, pos, 26)
    &&& pregenerated_from(
        with_externals(m1[pos], m1[pos].externals, true),
        with_externals(m2[pos], m1[pos].externals, true),
        pos,
        sf,
    )
}

/// The gathered neighbour structures are well formed and rooted next to `pos`.
proof fn lemma_neighbour_externals_ok(m: Map<(i32, i32, i32), ChunkView>, pos: (i32, i32, i32), n: int, i: int)
    requires
        table_wf(m),
        ring_ok(pos),
        0 <= n <= 26,
        forall|t: int| 0 <= t < n ==> m.contains_key(#[trigger] neighbour(pos, t)),
        0 <= i < neighbour_structures(m, pos, n).len(),
    ensures
        structure_ok(neighbour_structures(m, pos, n)[i]),
        adjacent(neighbour_structures(m, pos, n)[i].root_chunk_position, pos),
    decreases n,
{
    let prev = neighbour_structures(m, pos, n - 1);
    let k = neighbour(pos, n - 1);
    lemma_neighbour(pos, n - 1);
    assert(m.contains_key(k));
    if i < prev.len() {
        lemma_neighbour_externals_ok(m, pos, n - 1, i);
    } else {
        assert(neighbour_structures(m, pos, n)[i] == m[k].structures[i - prev.len()]);
    }
}

/// `v / 5` rounded toward zero, as `/` on integers does.
pub open spec fn div5_toward_zero(v: int) -> int {
    if v >= 0 {
        v / 5
    } else {
        -((-v) / 5)
    }
}

/// The block that terrain generation puts at height `yw` of a column whose surface is at
/// `elevation`, given whether the grass noise is positive there and three rolls in
/// `0..100`: rough stone deep down (more likely deeper), stone, dirt, grass or sand at the
/// surface, grass below it, and water above it up to the water level; `None` leaves the
/// block as it was.
pub open spec fn column_block(yw: int, elevation: int, grass: bool, deep_roll: int, grass_roll: int, sand_roll: int) -> Option<i16> {
    let e = elevation;
    let depth_bonus = if div5_toward_zero(yw - (e - 8)) > -33 {
        div5_toward_zero(yw - (e - 8))
    } else {
        -33
    };
    if yw <= e - 8 && deep_roll + depth_bonus <= 35 {
        Some(5i16)
    } else if yw <= e - 3 {
        Some(1i16)
    } else if yw <= e - 2 {
        Some(2i16)
    } else if yw == e && yw >= WORLD_GRASS_LEVEL && grass {
        Some(4i16)
    } else if yw == e && grass_roll <= 40 && yw >= WORLD_GRASS_LEVEL - 2 {
        Some(4i16)
    } else if yw == e && yw <= WORLD_WATER_LEVEL {
        Some(6i16)
    } else if yw == e && sand_roll <= 70 && yw <= WORLD_WATER_LEVEL + 1 {
        Some(6i16)
    } else if yw <= e {
        Some(3i16)
    } else if yw <= WORLD_WATER_LEVEL {
        Some(9i16)
    } else {
        None
    }
}

/// What terrain filling leaves in block `(xw, yw, zw)` of a column whose surface is at
/// `e`, where the block held `o`: a block below height 0 beyond the world's radius (its
/// distance from the origin over `MAX_DISTANCE`) stays, and so does a block above both the
/// surface and the water level; every other block becomes what `column_block` gives at its
/// height for some grass noise and rolls.
pub open spec fn terrain_cell(o: i16, n: i16, xw: int, yw: int, zw: int, e: int, sf: Surface) -> bool {
    if !within_distance(xw * xw + yw * yw + zw * zw, MAX_DISTANCE + 1) && yw < 0 {
        n == o
    } else if yw > e && yw > WORLD_WATER_LEVEL {
        n == o
    } else {
        exists|g: bool, r1: int, r2: int, r3: int|
            0 <= r1 < 100 && 0 <= r2 < 100 && 0 <= r3 < 100 && (grass_read(yw, e) ==> (sf.grass)(xw as i32, zw as i32, g))
                && #[trigger] column_block(yw, e, g, r1, r2, r3) == Some(n)
    }
}

/// The terrain pass reads the grass noise of a column only for its surface block, when the
/// surface is at or above the grass level.
pub open spec fn grass_read(yw: int, e: int) -> bool {
    yw == e && yw >= WORLD_GRASS_LEVEL
}

/// Block `i` of the chunk at `pos` after the terrain pass, with column `(x, z)` at surface
/// `es[x * 16 + z]`: a column within the world's radius has the surface height that the
/// terrain gives for it and is filled block by block (see `terrain_cell`); a column beyond
/// it stays.
pub open spec fn terrain_cell_at(old: Seq<i16>, t: Seq<i16>, pos: (i32, i32, i32), es: Seq<i32>, i: int, sf: Surface) -> bool {
    let x = i / 256;
    let y = (i / 16) % 16;
    let z = i % 16;
    let xw = chunk_origin(pos.0) + x;
    let yw = chunk_origin(pos.1) + y;
    let zw = chunk_origin(pos.2) + z;
    if within_distance(xw * xw + zw * zw, MAX_DISTANCE + 1) {
        &&& (sf.height)(xw as i32, zw as i32, es[x * 16 + z])
        &&& terrain_cell(old[i], t[i], xw, yw, zw, es[x * 16 + z] as int, sf)
    } else {
        t[i] == old[i]
    }
}

/// `t` is what the terrain pass makes of the block table `old` of the chunk at `pos`, the
/// surface of column `(x, z)` being at `es[x * 16 + z]`.
pub open spec fn terrain_filled(old: Seq<i16>, t: Seq<i16>, pos: (i32, i32, i32), es: Seq<i32>, sf: Surface) -> bool {
    &&& t.len() == 4096
    &&& es.len() == 256
    &&& forall|i: int| 0 <= i < 4096 ==> #[trigger] terrain_cell_at(old, t, pos, es, i, sf)
}

/// The terrain pass has filled the columns before `(x, z)` (in x, then z order) and left
/// the others.
pub open spec fn terrain_progress(old: Seq<i16>, t: Seq<i16>, pos: (i32, i32, i32), es: Seq<i32>, x: int, z: int, sf: Surface) -> bool {
    &&& t.len() == 4096
    &&& es.len() == 256
    &&& forall|i: int| 0 <= i < 4096 ==> #[trigger] progress_cell(old, t, pos, es, x, z, sf, i)
}

/// Block `i` is filled when its column comes before `(x, z)`, and untouched otherwise.
pub open spec fn progress_cell(old: Seq<i16>, t: Seq<i16>, pos: (i32, i32, i32), es: Seq<i32>, x: int, z: int, sf: Surface, i: int) -> bool {
    if i / 256 < x || (i / 256 == x && i % 16 < z) {
        terrain_cell_at(old, t, pos, es, i, sf)
    } else {
        t[i] == old[i]
    }
}

/// Filling column `(x, z)` (or leaving it, beyond the world's radius) moves the terrain
/// pass on by one column.
#[verifier::spinoff_prover]
proof fn lemma_terrain_column(
    old: Seq<i16>,
    before: Seq<i16>,
    after: Seq<i16>,
    pos: (i32, i32, i32),
    es: Seq<i32>,
    x: int,
    z: int,
    e: i32,
    sf: Surface,
)
    requires
        0 <= x < 16,
        0 <= z < 16,
        terrain_progress(old, before, pos, es, x, z, sf),
        after.len() == 4096,
        forall|i: int| 0 <= i < 4096 && (i / 256 != x || i % 16 != z) ==> #[trigger] after[i] == before[i],
        within_distance(
            (chunk_origin(pos.0) + x) * (chunk_origin(pos.0) + x) + (chunk_origin(pos.2) + z) * (chunk_origin(pos.2) + z),
            MAX_DISTANCE + 1,
        ) ==> (sf.height)((chunk_origin(pos.0) + x) as i32, (chunk_origin(pos.2) + z) as i32, e),
        within_distance(
            (chunk_origin(pos.0) + x) * (chunk_origin(pos.0) + x) + (chunk_origin(pos.2) + z) * (chunk_origin(pos.2) + z),
            MAX_DISTANCE + 1,
        ) ==> forall|y: int| 0 <= y < 16 ==> #[trigger] terrain_cell(
            before[block_index(x, y, z)],
            after[block_index(x, y, z)],
            chunk_origin(pos.0) + x,
            chunk_origin(pos.1) + y,
            chunk_origin(pos.2) + z,
            e as int,
            sf,
        ),
        !within_distance(
            (chunk_origin(pos.0) + x) * (chunk_origin(pos.0) + x) + (chunk_origin(pos.2) + z) * (chunk_origin(pos.2) + z),
            MAX_DISTANCE + 1,
        ) ==> after == before,
    ensures
        terrain_progress(
            old,
            after,
            pos,
            if within_distance(
                (chunk_origin(pos.0) + x) * (chunk_origin(pos.0) + x) + (chunk_origin(pos.2) + z) * (chunk_origin(pos.2) + z),
                MAX_DISTANCE + 1,
            ) {
                es.update(x * 16 + z, e)
            } else {
                es
            },
            x,
            z + 1,
            sf,
        ),
{
    let xw = chunk_origin(pos.0) + x;
    let zw = chunk_origin(pos.2) + z;
    let inside = within_distance(xw * xw + zw * zw, MAX_DISTANCE + 1);
    let es2 = if inside {
        es.update(x * 16 + z, e)
    } else {
        es
    };
    assert(es2.len() == 256);
    assert forall|i: int| 0 <= i < 4096 implies #[trigger] progress_cell(old, after, pos, es2, x, z + 1, sf, i) by {
        let xi = i / 256;
        let yi = (i / 16) % 16;
        let zi = i % 16;
        assert(0 <= xi < 16 && 0 <= zi < 16 && 0 <= yi < 16);
        assert(xi * 16 + zi == x * 16 + z ==> xi == x && zi == z);
        if xi == x && zi == z {
            assert(i == block_index(x, yi, z));
            assert(progress_cell(old, before, pos, es, x, z, sf, i));
            assert(before[i] == old[i]);
            if inside {
                assert(es2[x * 16 + z] == e);
                assert((sf.height)(xw as i32, zw as i32, e));
                assert(terrain_cell(before[block_index(x, yi, z)], after[block_index(x, yi, z)], xw, chunk_origin(pos.1) + yi, zw, e as int, sf));
                assert(terrain_cell_at(old, after, pos, es2, i, sf));
            }
        } else {
            assert(after[i] == before[i]);
            assert(progress_cell(old, before, pos, es, x, z, sf, i));
            if xi < x || (xi == x && zi < z) {
                assert(terrain_cell_at(old, before, pos, es, i, sf));
                assert(es2[xi * 16 + zi] == es[xi * 16 + zi]);
            }
        }
    }
}

/// `m2` is the map after `generate_chunk` at `pos` on `m1`: the chunk is added if missing
/// and flagged; when it was not yet generated, its structures and its neighbours' are
/// pre-generated, and (below row 6) its terrain is filled in (each column within the
/// world's radius by height, from the surface that the sampler gives for it; see
/// `terrain_filled`) and its structures, then the external ones, are drawn over it.
pub open spec fn generated_from(
    m1: Map<(i32, i32, i32), ChunkView>,
    m2: Map<(i32, i32, i32), ChunkView>,
    pos: (i32, i32, i32),
    sf: Surface,
) -> bool {
    let c0 = with_chunk(m1, pos)[pos];
    let ma = with_chunk(m1, pos).insert(pos, with_generated(c0));
    let m2_blocks_restored = m2.insert(pos, with_blocks(m2[pos], c0.blocks));
    if c0.generated {
        m2 == with_chunk(m1, pos)
    } else {
        &&& m2.contains_key(pos)
        &&& (if c0.structres_generated { m2_blocks_restored == ma } else { external_pregenerated(ma, m2_blocks_restored, pos, sf) })
        &&& (if pos.1 > 5 {
            m2[pos].blocks == c0.blocks
        } else {
            exists|t: Seq<i16>, es: Seq<i32>|
                #[trigger] terrain_filled(c0.blocks, t, pos, es, sf) && m2[pos].blocks == painted(
                    painted(t, m2[pos].structures, pos),
                    m2[pos].externals,
                    pos,
                )
        })
    }
}

proof fn lemma_painted_len(blocks: Seq<i16>, structs: Seq<StructureSpec>, cpos: (i32, i32, i32), n: int)
    requires
        blocks.len() == 4096,
    ensures
        paint_structures(blocks, structs, cpos, n).len() == 4096,
    decreases n,
{
    if n > 0 {
        lemma_painted_len(blocks, structs, cpos, n - 1);
        lemma_paint_blocks_len(paint_structures(blocks, structs, cpos, n - 1), structs[n - 1], cpos, structs[n - 1].blocks.len() as int);
    }
}

/// The stride with which `calculate_faces_table` walks each axis: `lod as usize`.
pub open spec fn lod_stride(lod: i32) -> int {
    (lod as usize) as int
}

/// Coordinate `v` is one that the walk with level of detail `lod` visits.
pub open spec fn lod_visits(v: int, lod: i32) -> bool {
    v % lod_stride(lod) == 0
}

/// Bit `bit` of a face mask is cleared when the block at `offset` is air.
pub open spec fn open_face(m: Map<(i32, i32, i32), ChunkView>, pos: (i32, i32, i32), offset: (int, int, int), bit: int) -> int {
    if block_at(m, pos, (offset.0 as i32, offset.1 as i32, offset.2 as i32)) == 0 {
        bit
    } else {
        0
    }
}

/// The face mask of local block `(x, y, z)` of chunk `pos`: all six bits for air; for
/// a solid block, bit 0 cleared when the block `lod` above is air, then below (bit 1),
/// +x (bit 2), -x (bit 3), +z (bit 4) and -z (bit 5).
pub open spec fn face_mask(m: Map<(i32, i32, i32), ChunkView>, pos: (i32, i32, i32), x: int, y: int, z: int, lod: i32) -> u8 {
    if block_at(m, pos, (x as i32, y as i32, z as i32)) == 0 {
        63
    } else {
        (63 - open_face(m, pos, (x, y + lod, z), 1) - open_face(m, pos, (x, y - lod, z), 2) - open_face(m, pos, (x + lod, y, z), 4)
            - open_face(m, pos, (x - lod, y, z), 8) - open_face(m, pos, (x, y, z + lod), 16) - open_face(m, pos, (x, y, z - lod), 32)) as u8
    }
}

/// The face table of chunk `pos`: the face mask of each visited block, 0 elsewhere.
pub open spec fn face_table(m: Map<(i32, i32, i32), ChunkView>, pos: (i32, i32, i32), lod: i32) -> Seq<u8> {
    Seq::new(
        4096,
        |i: int|
            if lod_visits(i / 256, lod) && lod_visits((i / 16) % 16, lod) && lod_visits(i % 16, lod) {
                face_mask(m, pos, i / 256, (i / 16) % 16, i % 16, lod)
            } else {
                0u8
            },
    )
}

/// The six face neighbours of `pos` can each be generated.
pub open spec fn faces_ok(pos: (i32, i32, i32)) -> bool {
    &&& in_i32(pos.0 - 1) && in_i32(pos.0 + 1)
    &&& in_i32(pos.1 - 1) && in_i32(pos.1 + 1)
    &&& in_i32(pos.2 - 1) && in_i32(pos.2 + 1)
    &&& ring_ok((pos.0, (pos.1 + 1) as i32, pos.2))
    &&& ring_ok((pos.0, (pos.1 - 1) as i32, pos.2))
    &&& ring_ok((pos.0, pos.1, (pos.2 - 1) as i32))
    &&& ring_ok((pos.0, pos.1, (pos.2 + 1) as i32))
    &&& ring_ok(((pos.0 + 1) as i32, pos.1, pos.2))
    &&& ring_ok(((pos.0 - 1) as i32, pos.1, pos.2))
}

/// The chunks `d` steps from `pos` along each axis are in `m`, where `d` lies past the
/// face neighbours.
pub open spec fn axis_chunks_present(m: Map<(i32, i32, i32), ChunkView>, pos: (i32, i32, i32), d: int) -> bool {
    (d < -1 || d > 1) ==> {
        &&& in_i32(pos.0 + d) && in_i32(pos.1 + d) && in_i32(pos.2 + d)
        &&& m.contains_key(((pos.0 + d) as i32, pos.1, pos.2))
        &&& m.contains_key((pos.0, (pos.1 + d) as i32, pos.2))
        &&& m.contains_key((pos.0, pos.1, (pos.2 + d) as i32))
    }
}

/// With a level of detail wider than a chunk, the face masks of block `(0, 0, 0)` read
/// the chunks that `lod` and `-lod` blocks away along each axis fall in: those past the
/// face neighbours must be there already.
pub open spec fn far_faces_present(m: Map<(i32, i32, i32), ChunkView>, pos: (i32, i32, i32), lod: i32) -> bool {
    axis_chunks_present(m, pos, lod / 16) && axis_chunks_present(m, pos, -lod / 16)
}

/// Chunks once in the map stay in it.
proof fn lemma_far_faces_kept(m1: Map<(i32, i32, i32), ChunkView>, m2: Map<(i32, i32, i32), ChunkView>, pos: (i32, i32, i32), lod: i32)
    requires
        far_faces_present(m1, pos, lod),
        forall|k: (i32, i32, i32)| #[trigger] m1.contains_key(k) ==> m2.contains_key(k),
    ensures
        far_faces_present(m2, pos, lod),
{
}

/// The six blocks `lod` away from a visited block `(x, y, z)` can all be read once the
/// face neighbours are in the map.
proof fn lemma_face_reads(m: Map<(i32, i32, i32), ChunkView>, pos: (i32, i32, i32), x: int, y: int, z: int, lod: i32)
    requires
        0 <= x < 16,
        0 <= y < 16,
        0 <= z < 16,
        -32 <= lod <= 32,
        (lod < -16 || lod > 16) ==> x == 0 && y == 0 && z == 0,
        faces_ok(pos),
        m.contains_key(pos),
        m.contains_key((pos.0, (pos.1 + 1) as i32, pos.2)),
        m.contains_key((pos.0, (pos.1 - 1) as i32, pos.2)),
        m.contains_key(((pos.0 + 1) as i32, pos.1, pos.2)),
        m.contains_key(((pos.0 - 1) as i32, pos.1, pos.2)),
        m.contains_key((pos.0, pos.1, (pos.2 + 1) as i32)),
        m.contains_key((pos.0, pos.1, (pos.2 - 1) as i32)),
        far_faces_present(m, pos, lod),
    ensures
        block_readable(m, pos, (x as i32, (y + lod) as i32, z as i32)),
        block_readable(m, pos, (x as i32, (y - lod) as i32, z as i32)),
        block_readable(m, pos, ((x + lod) as i32, y as i32, z as i32)),
        block_readable(m, pos, ((x - lod) as i32, y as i32, z as i32)),
        block_readable(m, pos, (x as i32, y as i32, (z + lod) as i32)),
        block_readable(m, pos, (x as i32, y as i32, (z - lod) as i32)),
{
    assert(x / 16 == 0 && y / 16 == 0 && z / 16 == 0);
    if -16 <= lod <= 16 {
        assert(-1 <= (y + lod) / 16 <= 1);
        assert(-1 <= (y - lod) / 16 <= 1);
        assert(-1 <= (x + lod) / 16 <= 1);
        assert(-1 <= (x - lod) / 16 <= 1);
        assert(-1 <= (z + lod) / 16 <= 1);
        assert(-1 <= (z - lod) / 16 <= 1);
    } else {
        assert(-2 <= lod / 16 <= 2);
        assert(-2 <= -lod / 16 <= 2);
    }
}

/// `m2` is `m1` after the six face neighbours of `pos` were generated in the order top,
/// bottom, front, back, right, left.
pub open spec fn six_generated(m1: Map<(i32, i32, i32), ChunkView>, m2: Map<(i32, i32, i32), ChunkView>, pos: (i32, i32, i32), sf: Surface) -> bool {
    exists|a: Map<(i32, i32, i32), ChunkView>, b: Map<(i32, i32, i32), ChunkView>, c: Map<(i32, i32, i32), ChunkView>,
        d: Map<(i32, i32, i32), ChunkView>, e: Map<(i32, i32, i32), ChunkView>|
        #[trigger] generated_from(m1, a, (pos.0, (pos.1 + 1) as i32, pos.2), sf)
        && #[trigger] generated_from(a, b, (pos.0, (pos.1 - 1) as i32, pos.2), sf)
        && #[trigger] generated_from(b, c, (pos.0, pos.1, (pos.2 - 1) as i32), sf)
        && #[trigger] generated_from(c, d, (pos.0, pos.1, (pos.2 + 1) as i32), sf)
        && #[trigger] generated_from(d, e, ((pos.0 + 1) as i32, pos.1, pos.2), sf)
        && #[trigger] generated_from(e, m2, ((pos.0 - 1) as i32, pos.1, pos.2), sf)
}

/// Generation keeps every chunk and adds the generated one.
proof fn lemma_generated_keeps(m1: Map<(i32, i32, i32), ChunkView>, m2: Map<(i32, i32, i32), ChunkView>, pos: (i32, i32, i32), sf: Surface)
    requires
        generated_from(m1, m2, pos, sf),
    ensures
        m2.contains_key(pos),
        forall|k: (i32, i32, i32)| #[trigger] m1.contains_key(k) ==> m2.contains_key(k),
{
    let c0 = with_chunk(m1, pos)[pos];
    let ma = with_chunk(m1, pos).insert(pos, with_generated(c0));
    let r = m2.insert(pos, with_blocks(m2[pos], c0.blocks));
    if !c0.generated {
        assert forall|k: (i32, i32, i32)| #[trigger] m1.contains_key(k) implies m2.contains_key(k) by {
            assert(ma.contains_key(k));
            assert(r.contains_key(k));
        }
    }
}

/// `m2` is `m1` after `calculate_faces_table` at `pos` with `lod`: unchanged when the faces
/// were computed before; otherwise flagged, with the six face neighbours generated, then
/// the face table computed on the result.
pub open spec fn faces_from(m1: Map<(i32, i32, i32), ChunkView>, m2: Map<(i32, i32, i32), ChunkView>, pos: (i32, i32, i32), lod: i32, sf: Surface) -> bool {
    if m1[pos].faces_calculated {
        m2 == m1
    } else {
        exists|mg: Map<(i32, i32, i32), ChunkView>|
            six_generated(m1.insert(pos, with_faces_flag(m1[pos])), mg, pos, sf) && m2 == #[trigger] mg.insert(
                pos,
                with_faces(mg[pos], face_table(mg, pos, lod)),
            )
    }
}

/// `m2` is `m1` after `calculate_ambient_occlusion` at `pos`: unchanged when the masks were
/// computed before, otherwise with the masks of `ao_table` and flagged.
pub open spec fn aot_from(m1: Map<(i32, i32, i32), ChunkView>, m2: Map<(i32, i32, i32), ChunkView>, pos: (i32, i32, i32)) -> bool {
    if m1[pos].aot_calculated {
        m2 == m1
    } else {
        m2 == m1.insert(pos, with_aot(m1[pos], ao_table(m1, pos)))
    }
}

/// The block at `(x, y, z)` of chunk `pos`, or past its edge, is not air.
pub open spec fn solid(m: Map<(i32, i32, i32), ChunkView>, pos: (i32, i32, i32), x: int, y: int, z: int) -> bool {
    block_at(m, pos, (x as i32, y as i32, z as i32)) != 0
}

pub open spec fn readable_at(m: Map<(i32, i32, i32), ChunkView>, pos: (i32, i32, i32), x: int, y: int, z: int) -> bool {
    block_readable(m, pos, (x as i32, y as i32, z as i32))
}

pub open spec fn b2i(b: bool) -> int {
    if b {
        1
    } else {
        0
    }
}

/// Whether the layer above (`yd == 1`) or below (`yd == -1`) local block `(x, y, z)` is
/// looked at: the block is solid and not hidden on every side, and for the layer above, the
/// block right above it is air.
pub open spec fn ao_layer_active(m: Map<(i32, i32, i32), ChunkView>, pos: (i32, i32, i32), x: int, y: int, z: int, yd: int) -> bool {
    let i = block_index(x, y, z);
    &&& m[pos].faces[i] != 63
    &&& m[pos].blocks[i] != 0
    &&& (yd == 1 ==> !solid(m, pos, x, y + 1, z))
}

/// Corner `k` of the layer `yd` of local block `(x, y, z)` is shaded: of its two sides
/// and its corner block in that layer, both sides are solid, or (for the layer above) any
/// of the three is, or (for the layer below) all three are.
pub open spec fn ao_corner(m: Map<(i32, i32, i32), ChunkView>, pos: (i32, i32, i32), x: int, y: int, z: int, yd: int, k: int) -> bool {
    let dz = if k < 2 {
        -1int
    } else {
        1int
    };
    let dx = if k == 0 || k == 3 {
        -1int
    } else {
        1int
    };
    let s1 = solid(m, pos, x, y + yd, z + dz);
    let s2 = solid(m, pos, x + dx, y + yd, z);
    let c = solid(m, pos, x + dx, y + yd, z + dz);
    let level = if s1 && s2 {
        0
    } else {
        3 - (b2i(s1) + b2i(s2) + b2i(c))
    };
    let threshold = if yd == 1 {
        3int
    } else {
        1int
    };
    ao_layer_active(m, pos, x, y, z, yd) && level < threshold
}

/// The occlusion mask of local block `(x, y, z)`: bit `k` for corner `k` of the layer
/// above, bit `4 + k` for corner `k` of the layer below.
pub open spec fn ao_mask(m: Map<(i32, i32, i32), ChunkView>, pos: (i32, i32, i32), x: int, y: int, z: int) -> u8 {
    (b2i(ao_corner(m, pos, x, y, z, 1, 0)) + 2 * b2i(ao_corner(m, pos, x, y, z, 1, 1)) + 4 * b2i(ao_corner(m, pos, x, y, z, 1, 2))
        + 8 * b2i(ao_corner(m, pos, x, y, z, 1, 3)) + 16 * b2i(ao_corner(m, pos, x, y, z, -1, 0)) + 32 * b2i(
        ao_corner(m, pos, x, y, z, -1, 1),
    ) + 64 * b2i(ao_corner(m, pos, x, y, z, -1, 2)) + 128 * b2i(ao_corner(m, pos, x, y, z, -1, 3))) as u8
}

pub open spec fn ao_table(m: Map<(i32, i32, i32), ChunkView>, pos: (i32, i32, i32)) -> Seq<u8> {
    Seq::new(4096, |i: int| ao_mask(m, pos, i / 256, (i / 16) % 16, i % 16))
}

/// The blocks that a layer of the occlusion pass reads can be read.
pub open spec fn ao_layer_readable(m: Map<(i32, i32, i32), ChunkView>, pos: (i32, i32, i32), x: int, y: int, z: int, yd: int) -> bool {
    &&& readable_at(m, pos, x, y + yd, z - 1)
    &&& readable_at(m, pos, x, y + yd, z + 1)
    &&& readable_at(m, pos, x - 1, y + yd, z)
    &&& readable_at(m, pos, x + 1, y + yd, z)
    &&& readable_at(m, pos, x - 1, y + yd, z - 1)
    &&& readable_at(m, pos, x + 1, y + yd, z - 1)
    &&& readable_at(m, pos, x + 1, y + yd, z + 1)
    &&& readable_at(m, pos, x - 1, y + yd, z + 1)
}

/// Every block that the occlusion pass reads for local block `i` of chunk `pos` can be
/// read: for a solid block not hidden on every side, the block above, the layer below, and
/// the layer above when the block above is air.
pub open spec fn ao_cell_readable(m: Map<(i32, i32, i32), ChunkView>, pos: (i32, i32, i32), i: int) -> bool {
    let x = i / 256;
    let y = (i / 16) % 16;
    let z = i % 16;
    (m[pos].faces[i] != 63 && m[pos].blocks[i] != 0) ==> {
        &&& readable_at(m, pos, x, y + 1, z)
        &&& (!solid(m, pos, x, y + 1, z) ==> ao_layer_readable(m, pos, x, y, z, 1))
        &&& ao_layer_readable(m, pos, x, y, z, -1)
    }
}

proof fn lemma_set_bit(b: u8, bit: u8)
    by (bit_vector)
    requires
        b < bit,
        bit == 1 || bit == 2 || bit == 4 || bit == 8 || bit == 16 || bit == 32 || bit == 64 || bit == 128,
    ensures
        b | bit == b + bit,
{
}

proof fn lemma_clear_face_bit(m: u8, a: u8, bit: u8)
    by (bit_vector)
    requires
        m + a == 63,
        a < bit,
        bit == 1 || bit == 2 || bit == 4 || bit == 8 || bit == 16 || bit == 32,
    ensures
        m & ((63 - bit) as u8) == m - bit,
{
}

/// Whether point `(x, y, z)` lies within distance `r` of the origin, as the distance
/// `((x*x + y*y + z*z) as f32).sqrt() as i32` compares to `r`: that distance is below `r`
/// exactly when the squared distance is below `r * r` (see `within_distance`). The sum is
/// taken on `i128`, so it does not overflow.
pub fn distance_below(x: i32, y: i32, z: i32, r: i32) -> (b: bool)
    ensures
        b == within_distance(x * x + y * y + z * z, r as int),
{
    let (a, b, c, d) = (x as i128, y as i128, z as i128, r as i128);
    assert(0 <= a * a <= 0x4000_0000_0000_0000 && 0 <= b * b <= 0x4000_0000_0000_0000 && 0 <= c * c <= 0x4000_0000_0000_0000
        && 0 <= d * d <= 0x4000_0000_0000_0000) by (nonlinear_arith)
        requires
            -0x8000_0000 <= a <= 0x7fff_ffff,
            -0x8000_0000 <= b <= 0x7fff_ffff,
            -0x8000_0000 <= c <= 0x7fff_ffff,
            -0x8000_0000 <= d <= 0x7fff_ffff,
    ;
    a * a + b * b + c * c < d * d
}

impl WorldGenerator {
    /// Once per chunk: flags it as pre-generated and tries `2 n` times, for a raw count `n`
    /// of a roll below 5 plus `|3 (y + 2)|` (the `(n as f32 * 16. / 8.) as i32` of the game,
    /// exact below `2^24`), to place a random structure at a random column whose
    /// surface lies in this chunk, at or above the grass level and within the world's
    /// radius.
    fn pre_generate_structures<E: Fn(i32, i32) -> i32, G: Fn(i32, i32) -> bool>(
        &self,
        chunk_table: &mut ChunkTable,
        chunk_position: (i32, i32, i32),
        terrain: &Terrain<E, G>,
    )
        requires
            terrain.callable(),
            table_wf(old(chunk_table).chunk_map@),
            old(chunk_table).chunk_map@.contains_key(chunk_position),
            chunk_y_ok(chunk_position.1),
        ensures
            table_wf(final(chunk_table).chunk_map@),
            final(chunk_table).chunk_map@.dom() == old(chunk_table).chunk_map@.dom(),
            forall|k: (i32, i32, i32)| k != chunk_position && #[trigger] old(chunk_table).chunk_map@.contains_key(k)
                ==> final(chunk_table).chunk_map@[k] == old(chunk_table).chunk_map@[k],
            pregenerated_from(
                old(chunk_table).chunk_map@[chunk_position],
                final(chunk_table).chunk_map@[chunk_position],
                chunk_position,
                terrain.surface(),
            ),
            final(chunk_table).rendered_chunk_set@ == old(chunk_table).rendered_chunk_set@,
            final(chunk_table).player_position == old(chunk_table).player_position,
            final(chunk_table).prev_player_position == old(chunk_table).prev_player_position,
    {
        let ghost m0 = chunk_table.chunk_map@;
        if chunk_table.get_chunk(chunk_position).unwrap().structers_pre_generated {
            return;
        }
        chunk_table.get_chunk_mut(chunk_position).unwrap().structers_pre_generated = true;
        let ghost m1 = chunk_table.chunk_map@;
        assert(m1.contains_key(chunk_position));
        let raw = (chunk_position.1 + 2) * 3;
        let raw_abs = if raw < 0 {
            -raw
        } else {
            raw
        };
        let cnt = (roll(5) + raw_abs) * 2;
        let mut new_structures: Vec<WorldStructure> = Vec::new();
        let mut attempt: i32 = 0;
        while attempt < cnt
            invariant
                terrain.callable(),
                0 <= cnt <= structure_budget(chunk_position.1),
                attempt <= cnt,
                new_structures@.len() <= attempt,
                chunk_table.chunk_map@ == m1,
                m1.contains_key(chunk_position),
                m1[chunk_position].world_chunk_position == chunk_position,
                chunk_y_ok(chunk_position.1),
                0 <= attempt,
                forall|i: int| 0 <= i < new_structures@.len() ==> placed_structure(#[trigger] new_structures@[i]@, chunk_position, terrain.surface()),
            decreases cnt - attempt,
        {
            let x = roll(CHUNK_SIZE as i32);
            let z = roll(CHUNK_SIZE as i32);
            proof {
                crate::chunk::lemma_chunk_origin(chunk_position.0);
                crate::chunk::lemma_chunk_origin(chunk_position.1);
                crate::chunk::lemma_chunk_origin(chunk_position.2);
            }
            let (xw, yw, zw) = chunk_table.get_chunk(chunk_position).unwrap().calculate_world_positon((x, 0, z));
            let elevation = (terrain.elevation)(xw, zw);
            let near = distance_below(xw, 0, zw, MAX_DISTANCE);
            let index = roll(WorldStructure::get_indexed_length());
            let x_miroor = roll(2) * 2 - 1;
            let z_miroor = roll(2) * 2 - 1;
            let mirror = (x_miroor, 1, z_miroor);
            let swap_axis = if roll(100) < 50 {
                1
            } else {
                -1
            };
            if elevation >= yw && elevation < yw + CHUNK_SIZE as i32 && elevation >= WORLD_GRASS_LEVEL && near {
                let mut structure = WorldStructure::indexed_structure((x, elevation - yw, z), chunk_position, index);
                structure.miroor_multiplier = mirror;
                structure.mirror_axis = swap_axis;
                proof {
                    assert(structure@.blocks == indexed_blocks(index));
                    assert(placed_structure(structure@, chunk_position, terrain.surface()));
                }
                new_structures.push(structure);
            }
            attempt = attempt + 1;
        }
        let ghost added = structures_view(new_structures@);
        assert(added.len() <= structure_budget(chunk_position.1));
        let chunk = chunk_table.get_chunk_mut(chunk_position).unwrap();
        let ghost before = chunk.structure_table@;
        chunk.structure_table.append(&mut new_structures);
        proof {
            let a = m0[chunk_position];
            let b = chunk_table.chunk_map@[chunk_position];
            assert(structures_view(before) == a.structures);
            assert(b.structures =~= a.structures + added);
            assert(b.structures.subrange(0, a.structures.len() as int) =~= a.structures);
            assert forall|i: int| a.structures.len() <= i < b.structures.len()
                implies placed_structure(#[trigger] b.structures[i], chunk_position, terrain.surface()) by {
                assert(b.structures[i] == added[i - a.structures.len()]);
            }
            assert forall|i: int| 0 <= i < b.structures.len() implies {
                &&& structure_ok(#[trigger] b.structures[i])
                &&& b.structures[i].root_chunk_position == chunk_position
            } by {
                if i >= a.structures.len() {
                    lemma_placed_structure_ok(b.structures[i], chunk_position, terrain.surface());
                } else {
                    assert(b.structures[i] == a.structures[i]);
                }
            }
            assert(m0.contains_key(chunk_position));
            assert(chunk_wf(a, chunk_position));
            assert(b.blocks == a.blocks);
            assert(b.rects == a.rects);
            assert(b.externals == a.externals);
            assert(b.entities == a.entities);
            assert(b.faces == a.faces);
            assert(b.world_chunk_position == a.world_chunk_position);
            assert(b.generated == a.generated);
            assert(b == with_structures(a, b.structures, true));
            assert(chunk_wf(b, chunk_position));
            assert forall|k: (i32, i32, i32)| #[trigger] chunk_table.chunk_map@.contains_key(k)
                implies chunk_wf(chunk_table.chunk_map@[k], k) by {
                if k != chunk_position {
                    assert(m0.contains_key(k));
                }
            }
            assert(chunk_table.chunk_map@.dom() =~= m0.dom());
        }
    }

    /// Adds the chunk at `next_position` if it is missing, pre-generates its structures and
    /// appends copies of them to `externals`.
    fn gather_neighbour<E: Fn(i32, i32) -> i32, G: Fn(i32, i32) -> bool>(
        &self,
        chunk_table: &mut ChunkTable,
        next_position: (i32, i32, i32),
        externals: &mut Vec<WorldStructure>,
        terrain: &Terrain<E, G>,
    )
        requires
            terrain.callable(),
            table_wf(old(chunk_table).chunk_map@),
            chunk_y_ok(next_position.1),
        ensures
            table_wf(final(chunk_table).chunk_map@),
            forall|k: (i32, i32, i32)| #[trigger] final(chunk_table).chunk_map@.contains_key(k)
                <==> (old(chunk_table).chunk_map@.contains_key(k) || k == next_position),
            forall|k: (i32, i32, i32)| #[trigger] old(chunk_table).chunk_map@.contains_key(k) && k != next_position
                ==> final(chunk_table).chunk_map@[k] == old(chunk_table).chunk_map@[k],
            pregenerated_from(
                prior(old(chunk_table).chunk_map@, next_position),
                final(chunk_table).chunk_map@[next_position],
                next_position,
                terrain.surface(),
            ),
            final(chunk_table).chunk_map@[next_position].structers_pre_generated,
            structures_view(final(externals)@) == structures_view(old(externals)@)
                + final(chunk_table).chunk_map@[next_position].structures,
            final(chunk_table).rendered_chunk_set@ == old(chunk_table).rendered_chunk_set@,
            final(chunk_table).player_position == old(chunk_table).player_position,
            final(chunk_table).prev_player_position == old(chunk_table).prev_player_position,
    {
        let ghost before = chunk_table.chunk_map@;
        chunk_table.add_chunk(next_position);
        let ghost mid = chunk_table.chunk_map@;
        proof {
            assert forall|k: (i32, i32, i32)| #[trigger] mid.contains_key(k) implies chunk_wf(mid[k], k) by {
                if k != next_position || before.contains_key(k) {
                    assert(before.contains_key(k));
                }
            }
        }
        self.pre_generate_structures(chunk_table, next_position, terrain);
        let ghost after = chunk_table.chunk_map@;
        let neighbour_chunk = chunk_table.get_chunk(next_position).unwrap();
        let count = neighbour_chunk.structure_table.len();
        let ghost ext_before = structures_view(externals@);
        let mut j: usize = 0;
        while j < count
            invariant
                terrain.callable(),
                count == neighbour_chunk.structure_table@.len(),
                0 <= j <= count,
                structures_view(externals@) == ext_before + structures_view(neighbour_chunk.structure_table@).subrange(0, j as int),
            decreases count - j,
        {
            let ghost prev = externals@;
            let copy = neighbour_chunk.structure_table[j].duplicate();
            externals.push(copy);
            proof {
                let src = structures_view(neighbour_chunk.structure_table@);
                assert(src[j as int] == copy@);
                assert(structures_view(externals@) =~= structures_view(prev).push(copy@));
                assert(src.subrange(0, j + 1) =~= src.subrange(0, j as int).push(copy@));
                assert(structures_view(externals@) =~= ext_before + src.subrange(0, j + 1));
            }
            j = j + 1;
        }
        proof {
            assert(structures_view(neighbour_chunk.structure_table@).subrange(0, count as int) =~= after[next_position].structures);
            assert forall|k: (i32, i32, i32)| #[trigger] before.contains_key(k) && k != next_position
                implies after[k] == before[k] by {
                assert(mid.contains_key(k));
                assert(mid[k] == before[k]);
            }
            assert forall|k: (i32, i32, i32)| #[trigger] after.contains_key(k) <==> (before.contains_key(k) || k == next_position) by {
                assert(mid.contains_key(k) <==> (before.contains_key(k) || k == next_position));
            }
            assert(mid[next_position] == prior(before, next_position));
        }
    }

    /// Once per chunk: flags it, pre-generates its own structures and those of its 26
    /// neighbours (adding the neighbours that are missing), and gathers the neighbours'
    /// structures as its external structures.
    fn pre_generate_external_structures<E: Fn(i32, i32) -> i32, G: Fn(i32, i32) -> bool>(
        &self,
        chunk_table: &mut ChunkTable,
        chunk_position: (i32, i32, i32),
        terrain: &Terrain<E, G>,
    )
        requires
            terrain.callable(),
            table_wf(old(chunk_table).chunk_map@),
            old(chunk_table).chunk_map@.contains_key(chunk_position),
            ring_ok(chunk_position),
        ensures
            table_wf(final(chunk_table).chunk_map@),
            old(chunk_table).chunk_map@[chunk_position].structres_generated ==> final(chunk_table).chunk_map@
                == old(chunk_table).chunk_map@,
            !old(chunk_table).chunk_map@[chunk_position].structres_generated ==> external_pregenerated(
                old(chunk_table).chunk_map@,
                final(chunk_table).chunk_map@,
                chunk_position,
                terrain.surface(),
            ),
            final(chunk_table).rendered_chunk_set@ == old(chunk_table).rendered_chunk_set@,
            final(chunk_table).player_position == old(chunk_table).player_position,
            final(chunk_table).prev_player_position == old(chunk_table).prev_player_position,
    {
        let ghost m0 = chunk_table.chunk_map@;
        if chunk_table.get_chunk(chunk_position).unwrap().structres_generated {
            return;
        }
        chunk_table.get_chunk_mut(chunk_position).unwrap().structres_generated = true;
        let ghost m1 = chunk_table.chunk_map@;
        proof {
            assert(m0.contains_key(chunk_position));
            assert(m1 == m0.insert(chunk_position, with_externals(m0[chunk_position], m0[chunk_position].externals, true)));
            assert(table_wf(m1)) by {
                assert forall|k: (i32, i32, i32)| #[trigger] m1.contains_key(k) implies chunk_wf(m1[k], k) by {
                    assert(m0.contains_key(k));
                }
            }
        }
        if !chunk_table.get_chunk(chunk_position).unwrap().structers_pre_generated {
            self.pre_generate_structures(chunk_table, chunk_position, terrain);
        }
        let ghost m2 = chunk_table.chunk_map@;
        proof {
            assert forall|k: (i32, i32, i32)| #[trigger] m0.contains_key(k) && k != chunk_position implies m2[k] == m0[k] by {
                assert(m1.contains_key(k));
            }
            assert(m2.dom() =~= m0.dom());
            assert(pregenerated_from(m1[chunk_position], m2[chunk_position], chunk_position, terrain.surface()));
        }
        let mut externals: Vec<WorldStructure> = Vec::new();
        assert(neighbour_structures(m2, chunk_position, 0) =~= structures_view(externals@));
        let mut t: i32 = 0;
        while t < 27
            invariant
                terrain.callable(),
                0 <= t <= 27,
                ring_ok(chunk_position),
                table_wf(chunk_table.chunk_map@),
                m1.contains_key(chunk_position),
                pregenerated_from(m1[chunk_position], m2[chunk_position], chunk_position, terrain.surface()),
                chunk_table.chunk_map@.contains_key(chunk_position),
                chunk_table.chunk_map@[chunk_position] == m2[chunk_position],
                chunk_table.rendered_chunk_set@ == old(chunk_table).rendered_chunk_set@,
                chunk_table.player_position == old(chunk_table).player_position,
                chunk_table.prev_player_position == old(chunk_table).prev_player_position,
                forall|k: (i32, i32, i32)| #[trigger] chunk_table.chunk_map@.contains_key(k)
                    <==> (m0.contains_key(k) || (in_ring(k, chunk_position) && exists|i: int| 0 <= i < (if t <= 13 { t as int } else { t - 1 }) && neighbour(chunk_position, i) == k)),
                forall|k: (i32, i32, i32)| #[trigger] m0.contains_key(k) && !in_ring(k, chunk_position) && k != chunk_position
                    ==> chunk_table.chunk_map@[k] == m0[k],
                forall|i: int| 0 <= i < (if t <= 13 { t as int } else { t - 1 }) ==> {
                    &&& pregenerated_from(prior(m0, neighbour(chunk_position, i)), #[trigger] chunk_table.chunk_map@[neighbour(chunk_position, i)], neighbour(chunk_position, i), terrain.surface())
                    &&& chunk_table.chunk_map@[neighbour(chunk_position, i)].structers_pre_generated
                },
                forall|i: int| (if t <= 13 { t as int } else { t - 1 }) <= i < 26 ==> (#[trigger] chunk_table.chunk_map@.contains_key(neighbour(chunk_position, i))
                    ==> chunk_table.chunk_map@[neighbour(chunk_position, i)] == m0[neighbour(chunk_position, i)]),
                structures_view(externals@) == neighbour_structures(
                    chunk_table.chunk_map@,
                    chunk_position,
                    if t <= 13 { t as int } else { t - 1 },
                ),
            decreases 27 - t,
        {
            let x = t / 9 - 1;
            let y = (t / 3) % 3 - 1;
            let z = t % 3 - 1;
            if !(x == 0 && y == 0 && z == 0) {
                let ghost done = if t <= 13 { t as int } else { t - 1 };
                let next_position = chunk_position.add((x, y, z));
                assert(next_position == neighbour(chunk_position, done));
                proof {
                    lemma_neighbour(chunk_position, done);
                }
                let ghost before = chunk_table.chunk_map@;
                let ghost ext_before = structures_view(externals@);
                self.gather_neighbour(chunk_table, next_position, &mut externals, terrain);
                let ghost after = chunk_table.chunk_map@;
                proof {
                    assert(next_position != chunk_position);
                    assert forall|k: (i32, i32, i32)| #[trigger] m0.contains_key(k) && !in_ring(k, chunk_position) && k != chunk_position
                        implies after[k] == m0[k] by {
                        assert(before.contains_key(k));
                        assert(k != next_position);
                    }
                    assert forall|i: int| done + 1 <= i < 26 && #[trigger] after.contains_key(neighbour(chunk_position, i))
                        implies after[neighbour(chunk_position, i)] == m0[neighbour(chunk_position, i)] by {
                        lemma_neighbour(chunk_position, i);
                        assert(neighbour(chunk_position, i) != next_position);
                        if after.contains_key(neighbour(chunk_position, i)) {
                            assert(before.contains_key(neighbour(chunk_position, i)));
                        }
                    }
                    assert forall|i: int| 0 <= i < done implies #[trigger] before[neighbour(chunk_position, i)]
                        == after[neighbour(chunk_position, i)] by {
                        lemma_neighbour(chunk_position, i);
                        assert(before.contains_key(neighbour(chunk_position, i)));
                        assert(neighbour(chunk_position, i) != next_position);
                    }
                    lemma_neighbour_structures_frame(before, after, chunk_position, done);
                    assert(structures_view(externals@) == neighbour_structures(after, chunk_position, done + 1));
                    assert forall|k: (i32, i32, i32)| #[trigger] after.contains_key(k)
                        <==> (m0.contains_key(k) || (in_ring(k, chunk_position) && exists|i: int| 0 <= i < done + 1 && neighbour(chunk_position, i) == k)) by {
                        if in_ring(k, chunk_position) && exists|i: int| 0 <= i < done + 1 && neighbour(chunk_position, i) == k {
                            let i = choose|i: int| 0 <= i < done + 1 && neighbour(chunk_position, i) == k;
                            if i < done {
                                assert(before.contains_key(k));
                            }
                        }
                        if before.contains_key(k) && !m0.contains_key(k) {
                            let i = choose|i: int| 0 <= i < done && neighbour(chunk_position, i) == k;
                            assert(0 <= i < done + 1 && neighbour(chunk_position, i) == k);
                        }
                    }
                    assert forall|i: int| 0 <= i < done + 1 implies {
                        &&& pregenerated_from(prior(m0, neighbour(chunk_position, i)), #[trigger] after[neighbour(chunk_position, i)], neighbour(chunk_position, i), terrain.surface())
                        &&& after[neighbour(chunk_position, i)].structers_pre_generated
                    } by {
                        if i < done {
                            lemma_neighbour(chunk_position, i);
                            assert(before.contains_key(neighbour(chunk_position, i)));
                            assert(before[neighbour(chunk_position, i)] == after[neighbour(chunk_position, i)]);
                        }
                        if i == done {
                            if before.contains_key(next_position) {
                                assert(before[next_position] == m0[next_position]);
                                assert(m0.contains_key(next_position));
                            } else {
                                assert(!m0.contains_key(next_position));
                            }
                        }
                    }
                }
            }
            t = t + 1;
        }
        proof {
            assert(t == 27);
        }
        let ghost m3 = chunk_table.chunk_map@;
        chunk_table.get_chunk_mut(chunk_position).unwrap().external_structure_table = externals;
        proof {
            let m4 = chunk_table.chunk_map@;
            let m1_pos = m0[chunk_position];
            assert(pregenerated_from(
                with_externals(m1_pos, m1_pos.externals, true),
                with_externals(m4[chunk_position], m1_pos.externals, true),
                chunk_position,
                terrain.surface(),
            )) by {
                assert(with_externals(m1_pos, m1_pos.externals, true) == m1[chunk_position]);
                assert(with_externals(m4[chunk_position], m1_pos.externals, true) == m2[chunk_position]);
            }
            assert(m4 == m3.insert(chunk_position, with_externals(m3[chunk_position], structures_view(externals@), true)));
            lemma_neighbour_structures_frame(m3, m4, chunk_position, 26);
            assert forall|k: (i32, i32, i32)| #[trigger] m4.contains_key(k) implies chunk_wf(m4[k], k) by {
                if k == chunk_position {
                    assert forall|i: int| 0 <= i < m4[k].externals.len() implies {
                        &&& structure_ok(#[trigger] m4[k].externals[i])
                        &&& adjacent(m4[k].externals[i].root_chunk_position, k)
                    } by {
                        lemma_neighbour_externals_ok(m3, chunk_position, 26, i);
                    }
                }
            }
            assert forall|k: (i32, i32, i32)| #[trigger] in_ring(k, chunk_position) implies m4.contains_key(k) && {
                &&& pregenerated_from(prior(m0, k), m4[k], k, terrain.surface())
                &&& m4[k].structers_pre_generated
            } by {
                lemma_ring_enumerated(chunk_position, k);
                let i = choose|i: int| 0 <= i < 26 && neighbour(chunk_position, i) == k;
                assert(m3[neighbour(chunk_position, i)] == m4[k]);
            }
            assert forall|k: (i32, i32, i32)| #[trigger] m4.contains_key(k) <==> (m0.contains_key(k) || in_ring(k, chunk_position)) by {
                if m4.contains_key(k) && !m0.contains_key(k) {
                    assert(m3.contains_key(k));
                }
            }
            assert(m4[chunk_position].externals == neighbour_structures(m4, chunk_position, 26));
        }
    }

    /// The terrain block for height `yw` of column `(xw, zw)` with surface `elevation`,
    /// drawing rolls and reading the grass noise only where the rule looks at them.
    fn terrain_block<E: Fn(i32, i32) -> i32, G: Fn(i32, i32) -> bool>(&self, terrain: &Terrain<E, G>, xw: i32, zw: i32, yw: i32, elevation: i32) -> (b: Option<i16>)
        requires
            terrain.callable(),
        ensures
            exists|g: bool, r1: int, r2: int, r3: int|
                0 <= r1 < 100 && 0 <= r2 < 100 && 0 <= r3 < 100 && (grass_read(yw as int, elevation as int) ==> (
                terrain.surface().grass)(xw, zw, g)) && b == #[trigger] column_block(yw as int, elevation as int, g, r1, r2, r3),
    {
        let y = yw as i64;
        let e = elevation as i64;
        if y <= e - 8 {
            let r1 = roll(100);
            let q = (y - (e - 8)) / 5;
            let bonus = if q > -33 {
                q
            } else {
                -33
            };
            assert(q == div5_toward_zero(yw - (elevation - 8)));
            if r1 as i64 + bonus <= 35 {
                assert(Some(5i16) == column_block(yw as int, elevation as int, false, r1 as int, 0, 0));
                return Some(5);
            }
            assert(Some(1i16) == column_block(yw as int, elevation as int, false, r1 as int, 0, 0));
            return Some(1);
        }
        assert(column_block(yw as int, elevation as int, false, 99, 99, 99) == column_block(yw as int, elevation as int, false, 99, 99, 99));
        if y <= e - 3 {
            assert(Some(1i16) == column_block(yw as int, elevation as int, false, 99, 0, 0));
            Some(1)
        } else if y <= e - 2 {
            assert(Some(2i16) == column_block(yw as int, elevation as int, false, 99, 0, 0));
            Some(2)
        } else {
            let grass = if yw == elevation && yw >= WORLD_GRASS_LEVEL {
                (terrain.grass_noise_positive)(xw, zw)
            } else {
                false
            };
            assert(grass_read(yw as int, elevation as int) ==> (terrain.surface().grass)(xw, zw, grass));
            if grass {
                assert(Some(4i16) == column_block(yw as int, elevation as int, true, 99, 0, 0));
                return Some(4);
            }
            if yw == elevation && roll(100) <= 40 && yw >= WORLD_GRASS_LEVEL - 2 {
                assert(Some(4i16) == column_block(yw as int, elevation as int, false, 99, 0, 0));
                Some(4)
            } else if yw == elevation && yw <= WORLD_WATER_LEVEL {
                assert(Some(6i16) == column_block(yw as int, elevation as int, false, 99, 99, 0));
                Some(6)
            } else if yw == elevation && roll(100) <= 70 && yw <= WORLD_WATER_LEVEL + 1 {
                assert(Some(6i16) == column_block(yw as int, elevation as int, false, 99, 99, 0));
                Some(6)
            } else if yw <= elevation {
                assert(Some(3i16) == column_block(yw as int, elevation as int, false, 99, 99, 99));
                Some(3)
            } else if yw <= WORLD_WATER_LEVEL {
                assert(Some(9i16) == column_block(yw as int, elevation as int, false, 99, 99, 99));
                Some(9)
            } else {
                assert(None::<i16> == column_block(yw as int, elevation as int, false, 99, 99, 99));
                None
            }
        }
    }

    /// Fills in the terrain of column `(x, z)` of a block table whose lowest block is at
    /// height `y_origin`, the column lying at world `(xw, zw)` with its surface at
    /// `elevation`: each block as `terrain_cell` says, drawing the grass noise from `terrain`
    /// and the rolls at random. The other blocks stay as they were.
    pub fn fill_column<E: Fn(i32, i32) -> i32, G: Fn(i32, i32) -> bool>(
        &self,
        terrain: &Terrain<E, G>,
        blocks: &mut [i16; CHUNK_SIZE_3],
        x: usize,
        z: usize,
        xw: i32,
        zw: i32,
        y_origin: i32,
        elevation: i32,
    )
        requires
            terrain.callable(),
            x < 16,
            z < 16,
            y_origin <= i32::MAX - 15,
        ensures
            forall|i: int| 0 <= i < 4096 && (i / 256 != x || i % 16 != z) ==> #[trigger] final(blocks)@[i] == old(blocks)@[i],
            forall|y: int| 0 <= y < 16 ==> #[trigger] terrain_cell(
                old(blocks)@[block_index(x as int, y, z as int)],
                final(blocks)@[block_index(x as int, y, z as int)],
                xw as int,
                y_origin + y,
                zw as int,
                elevation as int,
                terrain.surface(),
            ),
    {
        let ghost start = blocks@;
        let mut y: usize = 0;
        while y < CHUNK_SIZE
            invariant
                terrain.callable(),
                0 <= x < 16,
                0 <= z < 16,
                0 <= y <= 16,
                y_origin <= i32::MAX - 15,
                start.len() == 4096,
                blocks@.len() == 4096,
                forall|i: int| 0 <= i < 4096 && (i / 256 != x || i % 16 != z || (i / 16) % 16 >= y) ==> #[trigger] blocks@[i] == start[i],
                forall|y2: int| 0 <= y2 < y ==> #[trigger] terrain_cell(
                    start[block_index(x as int, y2, z as int)],
                    blocks@[block_index(x as int, y2, z as int)],
                    xw as int,
                    y_origin + y2,
                    zw as int,
                    elevation as int,
                    terrain.surface(),
                ),
            decreases 16 - y,
        {
            let yw: i32 = y_origin + y as i32;
            let near = distance_below(xw, yw, zw, MAX_DISTANCE + 1);
            let index = x * 256 + y * 16 + z;
            let ghost before = blocks@;
            proof {
                assert(index == block_index(x as int, y as int, z as int));
                assert(index as int / 256 == x && index as int % 16 == z && (index as int / 16) % 16 == y);
                assert(before[index as int] == start[index as int]);
            }
            if near || yw >= 0 {
                let r = self.terrain_block(terrain, xw, zw, yw, elevation);
                let ghost (g, r1, r2, r3) = choose|g: bool, r1: int, r2: int, r3: int|
                    0 <= r1 < 100 && 0 <= r2 < 100 && 0 <= r3 < 100 && (grass_read(yw as int, elevation as int) ==> (
                    terrain.surface().grass)(xw, zw, g)) && r == #[trigger] column_block(yw as int, elevation as int, g, r1, r2, r3);
                proof {
                    law_terrain_layers(yw as int, elevation as int, g, r1, r2, r3);
                }
                if let Some(b) = r {
                    blocks[index] = b;
                    assert(column_block(yw as int, elevation as int, g, r1, r2, r3) == Some(b));
                }
                assert(terrain_cell(start[index as int], blocks@[index as int], xw as int, yw as int, zw as int, elevation as int, terrain.surface()));
            } else {
                assert(terrain_cell(start[index as int], blocks@[index as int], xw as int, yw as int, zw as int, elevation as int, terrain.surface()));
            }
            proof {
                assert forall|i: int| 0 <= i < 4096 && (i / 256 != x || i % 16 != z || (i / 16) % 16 >= y + 1) implies #[trigger] blocks@[i] == start[i] by {
                    if i != index {
                        assert(blocks@[i] == before[i]);
                    }
                }
            }
            y = y + 1;
        }
    }

    /// Generates the chunk at `chunk_position` once: adds it if missing, pre-generates the
    /// structures around it and, for chunks below row 6, fills in the terrain of each column
    /// within the world's radius and draws the structures over it.
    #[verifier::spinoff_prover]
    pub fn generate_chunk<E: Fn(i32, i32) -> i32, G: Fn(i32, i32) -> bool>(&self, chunk_table: &mut ChunkTable, chunk_position: (i32, i32, i32), terrain: &Terrain<E, G>)
        requires
            terrain.callable(),
            table_wf(old(chunk_table).chunk_map@),
            !with_chunk(old(chunk_table).chunk_map@, chunk_position)[chunk_position].generated ==> ring_ok(chunk_position),
        ensures
            table_wf(final(chunk_table).chunk_map@),
            generated_from(old(chunk_table).chunk_map@, final(chunk_table).chunk_map@, chunk_position, terrain.surface()),
            final(chunk_table).rendered_chunk_set@ == old(chunk_table).rendered_chunk_set@,
            final(chunk_table).player_position == old(chunk_table).player_position,
            final(chunk_table).prev_player_position == old(chunk_table).prev_player_position,
    {
        let ghost m0 = chunk_table.chunk_map@;
        let ghost c0 = with_chunk(m0, chunk_position)[chunk_position];
        if chunk_table.get_add_chunk(chunk_position).generated {
            return;
        }
        chunk_table.get_add_chunk_mut(chunk_position).generated = true;
        let ghost ma = chunk_table.chunk_map@;
        proof {
            assert(ma == with_chunk(m0, chunk_position).insert(chunk_position, with_generated(c0)));
            assert forall|k: (i32, i32, i32)| #[trigger] ma.contains_key(k) implies chunk_wf(ma[k], k) by {
                if k != chunk_position {
                    assert(m0.contains_key(k));
                } else if m0.contains_key(k) {
                    assert(chunk_wf(m0[k], k));
                }
            }
        }
        self.pre_generate_external_structures(chunk_table, chunk_position, terrain);
        let ghost mb = chunk_table.chunk_map@;
        proof {
            if !c0.structres_generated {
                assert(mb.contains_key(chunk_position));
            }
            assert(mb.contains_key(chunk_position));
            assert(chunk_wf(mb[chunk_position], chunk_position));
            assert(mb[chunk_position].blocks == c0.blocks) by {
                if !c0.structres_generated {
                    let a = with_externals(ma[chunk_position], ma[chunk_position].externals, true);
                    let b = with_externals(mb[chunk_position], ma[chunk_position].externals, true);
                    assert(pregenerated_from(a, b, chunk_position, terrain.surface()));
                    assert(b.blocks == a.blocks);
                }
            }
            assert(mb.insert(chunk_position, with_blocks(mb[chunk_position], c0.blocks)) =~= mb);
        }
        if chunk_position.1 > 5 {
            return;
        }
        let chunk = chunk_table.get_chunk(chunk_position).unwrap();
        let cpos = chunk.world_chunk_position;
        let mut blocks = chunk.blocks_table;
        proof {
            crate::chunk::lemma_chunk_origin(cpos.0);
            crate::chunk::lemma_chunk_origin(cpos.1);
            crate::chunk::lemma_chunk_origin(cpos.2);
        }
        let x_origin = crate::chunk::chunk_shift(cpos.0);
        let y_origin = crate::chunk::chunk_shift(cpos.1);
        let z_origin = crate::chunk::chunk_shift(cpos.2);
        let ghost mut es: Seq<i32> = Seq::new(256, |i: int| 0i32);
        assert(terrain_progress(c0.blocks, blocks@, chunk_position, es, 0, 0, terrain.surface()));
        let mut x: usize = 0;
        while x < CHUNK_SIZE
            invariant
                terrain.callable(),
                0 <= x <= 16,
                cpos == chunk_position,
                x_origin == chunk_origin(cpos.0),
                y_origin == chunk_origin(cpos.1),
                z_origin == chunk_origin(cpos.2),
                i32::MIN <= x_origin <= i32::MAX - 15,
                i32::MIN <= y_origin <= i32::MAX - 15,
                i32::MIN <= z_origin <= i32::MAX - 15,
                c0.blocks.len() == 4096,
                terrain_progress(c0.blocks, blocks@, chunk_position, es, x as int, 0, terrain.surface()),
            decreases 16 - x,
        {
            let xw: i32 = x_origin + x as i32;
            let mut z: usize = 0;
            while z < CHUNK_SIZE
                invariant
                    terrain.callable(),
                    0 <= x < 16,
                    0 <= z <= 16,
                    cpos == chunk_position,
                    xw == chunk_origin(cpos.0) + x,
                    z_origin == chunk_origin(cpos.2),
                    y_origin == chunk_origin(cpos.1),
                    i32::MIN <= y_origin <= i32::MAX - 15,
                    i32::MIN <= z_origin <= i32::MAX - 15,
                    c0.blocks.len() == 4096,
                    terrain_progress(c0.blocks, blocks@, chunk_position, es, x as int, z as int, terrain.surface()),
                decreases 16 - z,
            {
                let zw: i32 = z_origin + z as i32;
                let ghost before = blocks@;
                let mut e: i32 = 0;
                let inside = distance_below(xw, 0, zw, MAX_DISTANCE + 1);
                if inside {
                    e = (terrain.elevation)(xw, zw);
                    self.fill_column(terrain, &mut blocks, x, z, xw, zw, y_origin, e);
                }
                proof {
                    assert(xw * xw + 0 * 0 + zw * zw == xw * xw + zw * zw);
                    lemma_terrain_column(c0.blocks, before, blocks@, chunk_position, es, x as int, z as int, e, terrain.surface());
                    if inside {
                        es = es.update(x * 16 + z, e);
                    }
                }
                z = z + 1;
            }
            proof {
                assert forall|i: int| 0 <= i < 4096 implies #[trigger] progress_cell(c0.blocks, blocks@, chunk_position, es, x + 1, 0, terrain.surface(), i) by {
                    assert(0 <= i % 16 < 16);
                    assert(progress_cell(c0.blocks, blocks@, chunk_position, es, x as int, 16, terrain.surface(), i));
                }
            }
            x = x + 1;
        }
        proof {
            assert forall|i: int| 0 <= i < 4096 implies #[trigger] terrain_cell_at(c0.blocks, blocks@, chunk_position, es, i, terrain.surface()) by {
                assert(progress_cell(c0.blocks, blocks@, chunk_position, es, 16, 0, terrain.surface(), i));
                assert(i / 256 < 16);
            }
            assert(terrain_filled(c0.blocks, blocks@, chunk_position, es, terrain.surface()));
        }
        let ghost terrain_blocks = blocks@;
        chunk_table.get_chunk_mut(chunk_position).unwrap().blocks_table = blocks;
        let ghost mc = chunk_table.chunk_map@;
        proof {
            assert(mc == mb.insert(chunk_position, with_blocks(mb[chunk_position], terrain_blocks)));
            assert(chunk_wf(mb[chunk_position], chunk_position));
            lemma_structures_fit(mc[chunk_position].structures, chunk_position);
            lemma_structures_fit(mc[chunk_position].externals, chunk_position);
        }
        self.generate_structures(chunk_table.get_chunk_mut(chunk_position).unwrap(), false);
        let ghost md = chunk_table.chunk_map@;
        proof {
            assert(md[chunk_position].externals == mc[chunk_position].externals);
        }
        self.generate_structures(chunk_table.get_chunk_mut(chunk_position).unwrap(), true);
        proof {
            let mf = chunk_table.chunk_map@;
            let own = mb[chunk_position].structures;
            let ext = mb[chunk_position].externals;
            assert(mf[chunk_position].blocks == painted(painted(terrain_blocks, own, chunk_position), ext, chunk_position));
            assert(mf[chunk_position].structures == own && mf[chunk_position].externals == ext);
            assert(terrain_filled(c0.blocks, terrain_blocks, chunk_position, es, terrain.surface()));
            assert(mf.insert(chunk_position, with_blocks(mf[chunk_position], c0.blocks)) =~= mb);
            assert forall|k: (i32, i32, i32)| #[trigger] mf.contains_key(k) implies chunk_wf(mf[k], k) by {
                if k != chunk_position {
                    assert(mb.contains_key(k));
                } else {
                    lemma_painted_len(terrain_blocks, own, chunk_position, own.len() as int);
                    lemma_painted_len(painted(terrain_blocks, own, chunk_position), ext, chunk_position, ext.len() as int);
                }
            }
        }
    }

    /// The face mask of block `block_position` of chunk `chunk_position`.
    fn face_mask_at(&self, chunk_table: &ChunkTable, chunk_position: (i32, i32, i32), block_position: (i32, i32, i32), lod: i32) -> (mask: u8)
        requires
            0 <= block_position.0 < 16,
            0 <= block_position.1 < 16,
            0 <= block_position.2 < 16,
            -32 <= lod <= 32,
            block_readable(chunk_table.chunk_map@, chunk_position, block_position),
            block_readable(chunk_table.chunk_map@, chunk_position, (block_position.0, (block_position.1 + lod) as i32, block_position.2)),
            block_readable(chunk_table.chunk_map@, chunk_position, (block_position.0, (block_position.1 - lod) as i32, block_position.2)),
            block_readable(chunk_table.chunk_map@, chunk_position, ((block_position.0 + lod) as i32, block_position.1, block_position.2)),
            block_readable(chunk_table.chunk_map@, chunk_position, ((block_position.0 - lod) as i32, block_position.1, block_position.2)),
            block_readable(chunk_table.chunk_map@, chunk_position, (block_position.0, block_position.1, (block_position.2 + lod) as i32)),
            block_readable(chunk_table.chunk_map@, chunk_position, (block_position.0, block_position.1, (block_position.2 - lod) as i32)),
        ensures
            mask == face_mask(
                chunk_table.chunk_map@,
                chunk_position,
                block_position.0 as int,
                block_position.1 as int,
                block_position.2 as int,
                lod,
            ),
    {
        let ghost m = chunk_table.chunk_map@;
        let ghost (x, y, z) = (block_position.0 as int, block_position.1 as int, block_position.2 as int);
        let mut mesh_type_mask: u8 = 0b111111;
        if chunk_table.get_block(chunk_position, block_position) == 0 {
            return mesh_type_mask;
        }
        let up = (0, lod, 0).add(block_position);
        let down = (0, -lod, 0).add(block_position);
        let east = (lod, 0, 0).add(block_position);
        let west = (-lod, 0, 0).add(block_position);
        let south = (0, 0, lod).add(block_position);
        let north = (0, 0, -lod).add(block_position);
        let ghost a0 = open_face(m, chunk_position, (x, y + lod, z), 1);
        let ghost a1 = open_face(m, chunk_position, (x, y - lod, z), 2);
        let ghost a2 = open_face(m, chunk_position, (x + lod, y, z), 4);
        let ghost a3 = open_face(m, chunk_position, (x - lod, y, z), 8);
        let ghost a4 = open_face(m, chunk_position, (x, y, z + lod), 16);
        let ghost a5 = open_face(m, chunk_position, (x, y, z - lod), 32);
        if chunk_table.get_block(chunk_position, up) == 0 {
            proof { lemma_clear_face_bit(mesh_type_mask, 0, 1); }
            mesh_type_mask = mesh_type_mask & 0b111110;
        }
        assert(mesh_type_mask + a0 == 63);
        if chunk_table.get_block(chunk_position, down) == 0 {
            proof { lemma_clear_face_bit(mesh_type_mask, a0 as u8, 2); }
            mesh_type_mask = mesh_type_mask & 0b111101;
        }
        assert(mesh_type_mask + a0 + a1 == 63);
        if chunk_table.get_block(chunk_position, east) == 0 {
            proof { lemma_clear_face_bit(mesh_type_mask, (a0 + a1) as u8, 4); }
            mesh_type_mask = mesh_type_mask & 0b111011;
        }
        assert(mesh_type_mask + a0 + a1 + a2 == 63);
        if chunk_table.get_block(chunk_position, west) == 0 {
            proof { lemma_clear_face_bit(mesh_type_mask, (a0 + a1 + a2) as u8, 8); }
            mesh_type_mask = mesh_type_mask & 0b110111;
        }
        assert(mesh_type_mask + a0 + a1 + a2 + a3 == 63);
        if chunk_table.get_block(chunk_position, south) == 0 {
            proof { lemma_clear_face_bit(mesh_type_mask, (a0 + a1 + a2 + a3) as u8, 16); }
            mesh_type_mask = mesh_type_mask & 0b101111;
        }
        assert(mesh_type_mask + a0 + a1 + a2 + a3 + a4 == 63);
        if chunk_table.get_block(chunk_position, north) == 0 {
            proof { lemma_clear_face_bit(mesh_type_mask, (a0 + a1 + a2 + a3 + a4) as u8, 32); }
            mesh_type_mask = mesh_type_mask & 0b011111;
        }
        assert(mesh_type_mask + a0 + a1 + a2 + a3 + a4 + a5 == 63);
        mesh_type_mask
    }

    /// Whether corner `k` of layer `yd` of local block `(x, y, z)` is shaded, for an active layer.
    fn ao_corner_at(&self, chunk_table: &ChunkTable, chunk_position: (i32, i32, i32), pos: (i32, i32, i32), yd: i32, k: i32) -> (shaded: bool)
        requires
            0 <= pos.0 < 16,
            0 <= pos.1 < 16,
            0 <= pos.2 < 16,
            yd == 1 || yd == -1,
            0 <= k < 4,
            ao_layer_active(chunk_table.chunk_map@, chunk_position, pos.0 as int, pos.1 as int, pos.2 as int, yd as int),
            ao_layer_readable(chunk_table.chunk_map@, chunk_position, pos.0 as int, pos.1 as int, pos.2 as int, yd as int),
        ensures
            shaded == ao_corner(chunk_table.chunk_map@, chunk_position, pos.0 as int, pos.1 as int, pos.2 as int, yd as int, k as int),
    {
        let dz: i32 = if k < 2 {
            -1
        } else {
            1
        };
        let dx: i32 = if k == 0 || k == 3 {
            -1
        } else {
            1
        };
        let case = if yd == 1 {
            3
        } else {
            1
        };
        let side1 = chunk_table.get_block(chunk_position, pos.add((0, yd, dz))) != 0;
        let side2 = chunk_table.get_block(chunk_position, pos.add((dx, yd, 0))) != 0;
        let corner = chunk_table.get_block(chunk_position, pos.add((dx, yd, dz))) != 0;
        let ao_type = if side1 && side2 {
            0
        } else {
            3 - ((if side1 {
                1
            } else {
                0
            }) + (if side2 {
                1
            } else {
                0
            }) + (if corner {
                1
            } else {
                0
            }))
        };
        ao_type < case
    }

    /// The occlusion mask of local block `(x, y, z)` of chunk `chunk_position`.
    #[verifier::spinoff_prover]
    fn ao_mask_at(&self, chunk_table: &ChunkTable, chunk_position: (i32, i32, i32), x: usize, y: usize, z: usize) -> (msk: u8)
        requires
            x < 16,
            y < 16,
            z < 16,
            chunk_table.chunk_map@.contains_key(chunk_position),
            chunk_table.chunk_map@[chunk_position].faces.len() == 4096,
            chunk_table.chunk_map@[chunk_position].blocks.len() == 4096,
            ao_cell_readable(chunk_table.chunk_map@, chunk_position, block_index(x as int, y as int, z as int)),
        ensures
            msk == ao_mask(chunk_table.chunk_map@, chunk_position, x as int, y as int, z as int),
    {
        let ghost m = chunk_table.chunk_map@;
        let ghost (xi, yi, zi) = (x as int, y as int, z as int);
        let index: usize = x * 256 + y * 16 + z;
        assert(index / 256 == x && (index / 16) % 16 == y && index % 16 == z);
        let pos = (x as i32, y as i32, z as i32);
        let chunk = chunk_table.get_chunk(chunk_position).unwrap();
        let visible = chunk.faces_table[index] != 63 && chunk.blocks_table[index] != 0;
        let mut msk: u8 = 0;
        let mut upper_open = false;
        if visible {
            upper_open = chunk_table.get_block(chunk_position, pos.add((0, 1, 0))) == 0;
        }
        assert(upper_open == ao_layer_active(m, chunk_position, xi, yi, zi, 1));
        assert(visible == ao_layer_active(m, chunk_position, xi, yi, zi, -1));
        let ghost c = |yd: int, k: int| b2i(ao_corner(m, chunk_position, xi, yi, zi, yd, k));
        if upper_open {
            if self.ao_corner_at(chunk_table, chunk_position, pos, 1, 0) {
                proof { lemma_set_bit(msk, 1); }
                msk = msk | 1;
            }
            assert(msk == c(1, 0));
            if self.ao_corner_at(chunk_table, chunk_position, pos, 1, 1) {
                proof { lemma_set_bit(msk, 2); }
                msk = msk | 2;
            }
            assert(msk == c(1, 0) + 2 * c(1, 1));
            if self.ao_corner_at(chunk_table, chunk_position, pos, 1, 2) {
                proof { lemma_set_bit(msk, 4); }
                msk = msk | 4;
            }
            assert(msk == c(1, 0) + 2 * c(1, 1) + 4 * c(1, 2));
            if self.ao_corner_at(chunk_table, chunk_position, pos, 1, 3) {
                proof { lemma_set_bit(msk, 8); }
                msk = msk | 8;
            }
        }
        assert(msk == c(1, 0) + 2 * c(1, 1) + 4 * c(1, 2) + 8 * c(1, 3));
        let ghost upper = msk as int;
        if visible {
            if self.ao_corner_at(chunk_table, chunk_position, pos, -1, 0) {
                proof { lemma_set_bit(msk, 16); }
                msk = msk | 16;
            }
            assert(msk == upper + 16 * c(-1, 0));
            if self.ao_corner_at(chunk_table, chunk_position, pos, -1, 1) {
                proof { lemma_set_bit(msk, 32); }
                msk = msk | 32;
            }
            assert(msk == upper + 16 * c(-1, 0) + 32 * c(-1, 1));
            if self.ao_corner_at(chunk_table, chunk_position, pos, -1, 2) {
                proof { lemma_set_bit(msk, 64); }
                msk = msk | 64;
            }
            assert(msk == upper + 16 * c(-1, 0) + 32 * c(-1, 1) + 64 * c(-1, 2));
            if self.ao_corner_at(chunk_table, chunk_position, pos, -1, 3) {
                proof { lemma_set_bit(msk, 128); }
                msk = msk | 128;
            }
        }
        assert(msk == upper + 16 * c(-1, 0) + 32 * c(-1, 1) + 64 * c(-1, 2) + 128 * c(-1, 3));
        msk
    }

    /// Once per chunk: computes for every block which corners of the faces above and below it
    /// are shaded (see `ao_mask`).
    pub fn calculate_ambient_occlusion(&self, chunk_table: &mut ChunkTable, chunk_position: (i32, i32, i32))
        requires
            table_wf(old(chunk_table).chunk_map@),
            old(chunk_table).chunk_map@.contains_key(chunk_position),
            !old(chunk_table).chunk_map@[chunk_position].aot_calculated ==> forall|i: int|
                0 <= i < 4096 ==> #[trigger] ao_cell_readable(old(chunk_table).chunk_map@, chunk_position, i),
        ensures
            table_wf(final(chunk_table).chunk_map@),
            aot_from(old(chunk_table).chunk_map@, final(chunk_table).chunk_map@, chunk_position),
            final(chunk_table).rendered_chunk_set@ == old(chunk_table).rendered_chunk_set@,
            final(chunk_table).player_position == old(chunk_table).player_position,
            final(chunk_table).prev_player_position == old(chunk_table).prev_player_position,
    {
        let ghost m0 = chunk_table.chunk_map@;
        if chunk_table.get_chunk(chunk_position).unwrap().aot_calculated {
            return;
        }
        let ghost m1 = chunk_table.chunk_map@;
        proof {
            assert(m0.contains_key(chunk_position));
            assert(chunk_wf(m0[chunk_position], chunk_position));
        }
        let mut ao_mask_table = [0u8; CHUNK_SIZE_3];
        let mut index: usize = 0;
        while index < CHUNK_SIZE_3
            invariant
                chunk_table.chunk_map@ == m1,
                m1.contains_key(chunk_position),
                m1 == m0,
                m1[chunk_position].faces.len() == 4096,
                m1[chunk_position].blocks.len() == 4096,
                forall|i: int| 0 <= i < 4096 ==> #[trigger] ao_cell_readable(m1, chunk_position, i),
                index <= 4096,
                forall|i: int| 0 <= i < index ==> #[trigger] ao_mask_table@[i] == ao_table(m0, chunk_position)[i],
            decreases 4096 - index,
        {
            let x = index / 256;
            let y = (index / 16) % 16;
            let z = index % 16;
            assert(block_index(x as int, y as int, z as int) == index);
            ao_mask_table[index] = self.ao_mask_at(chunk_table, chunk_position, x, y, z);
            index = index + 1;
        }
        let chunk = chunk_table.get_chunk_mut(chunk_position).unwrap();
        chunk.aot_calculated = true;
        chunk.aot_table = ao_mask_table;
        proof {
            let mf = chunk_table.chunk_map@;
            assert(ao_mask_table@ =~= ao_table(m0, chunk_position));
            assert(mf == m0.insert(chunk_position, with_aot(m0[chunk_position], ao_table(m0, chunk_position))));
            assert forall|k: (i32, i32, i32)| #[trigger] mf.contains_key(k) implies chunk_wf(mf[k], k) by {
                assert(m0.contains_key(k));
            }
        }
    }

    /// Once per chunk: generates its six face neighbours, then computes for every block on
    /// the `lod` grid which of its faces are exposed (see `face_mask`). A level of detail
    /// wider than a chunk reads chunks two steps away, which must be in the map already
    /// (see `far_faces_present`).
    pub fn calculate_faces_table<E: Fn(i32, i32) -> i32, G: Fn(i32, i32) -> bool>(
        &self,
        chunk_table: &mut ChunkTable,
        chunk_position: (i32, i32, i32),
        lod: i32,
        terrain: &Terrain<E, G>,
    )
        requires
            terrain.callable(),
            table_wf(old(chunk_table).chunk_map@),
            old(chunk_table).chunk_map@.contains_key(chunk_position),
            faces_ok(chunk_position),
            -32 <= lod <= 32,
            lod != 0,
            far_faces_present(old(chunk_table).chunk_map@, chunk_position, lod),
        ensures
            table_wf(final(chunk_table).chunk_map@),
            faces_from(old(chunk_table).chunk_map@, final(chunk_table).chunk_map@, chunk_position, lod, terrain.surface()),
            final(chunk_table).rendered_chunk_set@ == old(chunk_table).rendered_chunk_set@,
            final(chunk_table).player_position == old(chunk_table).player_position,
            final(chunk_table).prev_player_position == old(chunk_table).prev_player_position,
    {
        let ghost m0 = chunk_table.chunk_map@;
        if chunk_table.get_chunk(chunk_position).unwrap().faces_calculated {
            return;
        }
        chunk_table.get_chunk_mut(chunk_position).unwrap().faces_calculated = true;
        let ghost m1 = chunk_table.chunk_map@;
        proof {
            assert(m1 == m0.insert(chunk_position, with_faces_flag(m0[chunk_position])));
            assert forall|k: (i32, i32, i32)| #[trigger] m1.contains_key(k) implies chunk_wf(m1[k], k) by {
                assert(m0.contains_key(k));
            }
        }
        let top_position = (chunk_position.0, chunk_position.1 + 1, chunk_position.2);
        let bottom_position = (chunk_position.0, chunk_position.1 - 1, chunk_position.2);
        let right_position = (chunk_position.0 + 1, chunk_position.1, chunk_position.2);
        let left_position = (chunk_position.0 - 1, chunk_position.1, chunk_position.2);
        let front_position = (chunk_position.0, chunk_position.1, chunk_position.2 - 1);
        let back_position = (chunk_position.0, chunk_position.1, chunk_position.2 + 1);
        self.generate_chunk(chunk_table, top_position, terrain);
        let ghost ma = chunk_table.chunk_map@;
        self.generate_chunk(chunk_table, bottom_position, terrain);
        let ghost mb = chunk_table.chunk_map@;
        self.generate_chunk(chunk_table, front_position, terrain);
        let ghost mc = chunk_table.chunk_map@;
        self.generate_chunk(chunk_table, back_position, terrain);
        let ghost md = chunk_table.chunk_map@;
        self.generate_chunk(chunk_table, right_position, terrain);
        let ghost me = chunk_table.chunk_map@;
        self.generate_chunk(chunk_table, left_position, terrain);
        let ghost mg = chunk_table.chunk_map@;
        proof {
            lemma_generated_keeps(m1, ma, top_position, terrain.surface());
            lemma_generated_keeps(ma, mb, bottom_position, terrain.surface());
            lemma_generated_keeps(mb, mc, front_position, terrain.surface());
            lemma_generated_keeps(mc, md, back_position, terrain.surface());
            lemma_generated_keeps(md, me, right_position, terrain.surface());
            lemma_generated_keeps(me, mg, left_position, terrain.surface());
            assert(top_position == (chunk_position.0, (chunk_position.1 + 1) as i32, chunk_position.2));
            assert(bottom_position == (chunk_position.0, (chunk_position.1 - 1) as i32, chunk_position.2));
            assert(front_position == (chunk_position.0, chunk_position.1, (chunk_position.2 - 1) as i32));
            assert(back_position == (chunk_position.0, chunk_position.1, (chunk_position.2 + 1) as i32));
            assert(right_position == ((chunk_position.0 + 1) as i32, chunk_position.1, chunk_position.2));
            assert(left_position == ((chunk_position.0 - 1) as i32, chunk_position.1, chunk_position.2));
            assert(generated_from(m1, ma, (chunk_position.0, (chunk_position.1 + 1) as i32, chunk_position.2), terrain.surface()));
            assert(generated_from(ma, mb, (chunk_position.0, (chunk_position.1 - 1) as i32, chunk_position.2), terrain.surface()));
            assert(generated_from(mb, mc, (chunk_position.0, chunk_position.1, (chunk_position.2 - 1) as i32), terrain.surface()));
            assert(generated_from(mc, md, (chunk_position.0, chunk_position.1, (chunk_position.2 + 1) as i32), terrain.surface()));
            assert(generated_from(md, me, ((chunk_position.0 + 1) as i32, chunk_position.1, chunk_position.2), terrain.surface()));
            assert(generated_from(me, mg, ((chunk_position.0 - 1) as i32, chunk_position.1, chunk_position.2), terrain.surface()));
            assert(six_generated(m1, mg, chunk_position, terrain.surface()));
            assert(m1.contains_key(chunk_position));
            assert(ma.contains_key(chunk_position));
            assert(mb.contains_key(chunk_position) && mb.contains_key(top_position));
            assert(mc.contains_key(chunk_position) && mc.contains_key(top_position) && mc.contains_key(bottom_position));
            assert(md.contains_key(chunk_position) && md.contains_key(top_position) && md.contains_key(bottom_position)
                && md.contains_key(front_position));
            assert(me.contains_key(chunk_position) && me.contains_key(top_position) && me.contains_key(bottom_position)
                && me.contains_key(front_position) && me.contains_key(back_position));
            assert(mg.contains_key(chunk_position));
            lemma_far_faces_kept(m0, m1, chunk_position, lod);
            lemma_far_faces_kept(m1, ma, chunk_position, lod);
            lemma_far_faces_kept(ma, mb, chunk_position, lod);
            lemma_far_faces_kept(mb, mc, chunk_position, lod);
            lemma_far_faces_kept(mc, md, chunk_position, lod);
            lemma_far_faces_kept(md, me, chunk_position, lod);
            lemma_far_faces_kept(me, mg, chunk_position, lod);
            assert(mg.contains_key(top_position) && mg.contains_key(bottom_position) && mg.contains_key(front_position)
                && mg.contains_key(back_position) && mg.contains_key(right_position) && mg.contains_key(left_position));
        }
        let mut faces_table = [0u8; CHUNK_SIZE_3];
        let step = lod as usize;
        assert(step >= 1) by (bit_vector)
            requires
                step == lod as usize,
                lod != 0,
        ;
        assert((lod < -16 || lod > 16) ==> step > 16) by (bit_vector)
            requires
                step == lod as usize,
                -32 <= lod <= 32,
        ;
        let mut index: usize = 0;
        while index < CHUNK_SIZE_3
            invariant
                terrain.callable(),
                chunk_table.chunk_map@ == mg,
                step == lod as usize,
                step >= 1,
                (lod < -16 || lod > 16) ==> step > 16,
                -32 <= lod <= 32,
                far_faces_present(mg, chunk_position, lod),
                faces_ok(chunk_position),
                mg.contains_key(chunk_position),
                mg.contains_key((chunk_position.0, (chunk_position.1 + 1) as i32, chunk_position.2)),
                mg.contains_key((chunk_position.0, (chunk_position.1 - 1) as i32, chunk_position.2)),
                mg.contains_key(((chunk_position.0 + 1) as i32, chunk_position.1, chunk_position.2)),
                mg.contains_key(((chunk_position.0 - 1) as i32, chunk_position.1, chunk_position.2)),
                mg.contains_key((chunk_position.0, chunk_position.1, (chunk_position.2 + 1) as i32)),
                mg.contains_key((chunk_position.0, chunk_position.1, (chunk_position.2 - 1) as i32)),
                index <= 4096,
                forall|i: int| 0 <= i < index ==> #[trigger] faces_table@[i] == face_table(mg, chunk_position, lod)[i],
                forall|i: int| index <= i < 4096 ==> #[trigger] faces_table@[i] == 0u8,
            decreases 4096 - index,
        {
            let x = index / 256;
            let y = (index / 16) % 16;
            let z = index % 16;
            if x % step == 0 && y % step == 0 && z % step == 0 {
                let block_position = (x as i32, y as i32, z as i32);
                proof {
                    if lod < -16 || lod > 16 {
                        lemma_small_mod(x as nat, step as nat);
                        lemma_small_mod(y as nat, step as nat);
                        lemma_small_mod(z as nat, step as nat);
                    }
                    lemma_face_reads(mg, chunk_position, x as int, y as int, z as int, lod);
                    assert(block_readable(mg, chunk_position, block_position));
                }
                let mask = self.face_mask_at(chunk_table, chunk_position, block_position, lod);
                faces_table[index] = mask;
            }
            index = index + 1;
        }
        chunk_table.get_chunk_mut(chunk_position).unwrap().faces_table = faces_table;
        proof {
            let mf = chunk_table.chunk_map@;
            assert(faces_table@ =~= face_table(mg, chunk_position, lod));
            assert(mf == mg.insert(chunk_position, with_faces(mg[chunk_position], face_table(mg, chunk_position, lod))));
            assert forall|k: (i32, i32, i32)| #[trigger] mf.contains_key(k) implies chunk_wf(mf[k], k) by {
                assert(mg.contains_key(k));
            }
        }
    }

    /// Meshes the chunk's visible faces into greedy rectangles: for each axis and
    /// orientation (table `axis * 2 + orientation`), layer by layer (see `direction_meshed`).
    pub fn greedy_mesher_calculator(&self, chunk_table: &mut ChunkTable, chunk_positon: (i32, i32, i32))
        requires
            table_wf(old(chunk_table).chunk_map@),
            old(chunk_table).chunk_map@.contains_key(chunk_positon),
        ensures
            table_wf(final(chunk_table).chunk_map@),
            final(chunk_table).chunk_map@ == old(chunk_table).chunk_map@.insert(
                chunk_positon,
                with_rects(old(chunk_table).chunk_map@[chunk_positon], final(chunk_table).chunk_map@[chunk_positon].rects),
            ),
            final(chunk_table).chunk_map@[chunk_positon].rects.len() == 6,
            forall|j: int| 0 <= j < 6 ==> #[trigger] direction_meshed(
                old(chunk_table).chunk_map@[chunk_positon].blocks,
                old(chunk_table).chunk_map@[chunk_positon].faces,
                j / 2,
                j % 2,
                final(chunk_table).chunk_map@[chunk_positon].rects[j],
            ),
            final(chunk_table).rendered_chunk_set@ == old(chunk_table).rendered_chunk_set@,
            final(chunk_table).player_position == old(chunk_table).player_position,
            final(chunk_table).prev_player_position == old(chunk_table).prev_player_position,
    {
        let ghost m0 = chunk_table.chunk_map@;
        let chunk = chunk_table.get_chunk_mut(chunk_positon).unwrap();
        let ghost c0 = chunk@;
        let r0 = mesh_direction(&chunk.blocks_table, &chunk.faces_table, 0, 0);
        let r1 = mesh_direction(&chunk.blocks_table, &chunk.faces_table, 0, 1);
        let r2 = mesh_direction(&chunk.blocks_table, &chunk.faces_table, 1, 0);
        let r3 = mesh_direction(&chunk.blocks_table, &chunk.faces_table, 1, 1);
        let r4 = mesh_direction(&chunk.blocks_table, &chunk.faces_table, 2, 0);
        let r5 = mesh_direction(&chunk.blocks_table, &chunk.faces_table, 2, 1);
        chunk.rects_table = [r0, r1, r2, r3, r4, r5];
        proof {
            let rects = chunk@.rects;
            assert(rects =~= seq![r0@, r1@, r2@, r3@, r4@, r5@]);
            assert(chunk@ == with_rects(c0, rects));
            let mf = chunk_table.chunk_map@;
            assert forall|k: (i32, i32, i32)| #[trigger] mf.contains_key(k) implies chunk_wf(mf[k], k) by {
                assert(m0.contains_key(k));
            }
        }
    }

    /// Writes the blocks of the chunk's structures (or of the structures of its neighbours
    /// that reach into it, when `external`) into its block table.
    pub fn generate_structures(&self, chunk: &mut Chunk, external: bool)
        requires
            structures_fit(
                if external { old(chunk)@.externals } else { old(chunk)@.structures },
                old(chunk).world_chunk_position,
            ),
        ensures
            (*final(chunk))@ == with_blocks(
                (*old(chunk))@,
                painted(
                    old(chunk)@.blocks,
                    if external { old(chunk)@.externals } else { old(chunk)@.structures },
                    old(chunk).world_chunk_position,
                ),
            ),
    {
        let ghost structs = if external { chunk@.externals } else { chunk@.structures };
        let ghost blocks0 = chunk@.blocks;
        let cpos = chunk.world_chunk_position;
        let count = if external {
            chunk.external_structure_table.len()
        } else {
            chunk.structure_table.len()
        };
        let mut i: usize = 0;
        while i < count
            invariant
                0 <= i <= count,
                count == structs.len(),
                cpos == old(chunk).world_chunk_position,
                structs == (if external { chunk@.externals } else { chunk@.structures }),
                structures_fit(structs, cpos),
                chunk@ == with_blocks((*old(chunk))@, paint_structures(blocks0, structs, cpos, i as int)),
                blocks0 == old(chunk)@.blocks,
            decreases count - i,
        {
            let nblocks = if external {
                chunk.external_structure_table[i].blocks.len()
            } else {
                chunk.structure_table[i].blocks.len()
            };
            let ghost s = structs[i as int];
            let ghost start = chunk@.blocks;
            assert(chunk.blocks_table@.len() == 4096);
            let mut j: usize = 0;
            while j < nblocks
                invariant
                    0 <= i < count,
                    0 <= j <= nblocks,
                    count == structs.len(),
                    nblocks == s.blocks.len(),
                    s == structs[i as int],
                    cpos == old(chunk).world_chunk_position,
                    structs == (if external { chunk@.externals } else { chunk@.structures }),
                    structures_fit(structs, cpos),
                    start == paint_structures(blocks0, structs, cpos, i as int),
                    start.len() == 4096,
                    chunk@ == with_blocks((*old(chunk))@, paint_blocks(start, s, cpos, j as int)),
                    blocks0 == old(chunk)@.blocks,
                decreases nblocks - j,
            {
                let (root_position, root_chunk_position, miroor_multiplier, mirror_axis, block) = if external {
                    let ws = &chunk.external_structure_table[i];
                    (ws.root, ws.root_chunk_position, ws.miroor_multiplier, ws.mirror_axis, ws.blocks[j])
                } else {
                    let ws = &chunk.structure_table[i];
                    (ws.root, ws.root_chunk_position, ws.miroor_multiplier, ws.mirror_axis, ws.blocks[j])
                };
                proof {
                    assert(block == s.blocks[j as int]);
                    assert(chunk.blocks_table@.len() == 4096);
                    assert(block_fits(structs[i as int], structs[i as int].blocks[j as int], cpos));
                    lemma_paint_blocks_len(start, s, cpos, j as int);
                }
                let new_local_position = block.0.product(miroor_multiplier).swap_axes(mirror_axis);
                let new_position = root_position.add(new_local_position).add(
                    root_chunk_position.sub(cpos).times(CHUNK_SIZE as i32),
                );
                if !(new_position.0 >= CHUNK_SIZE as i32 || new_position.0 < 0 || new_position.1 >= CHUNK_SIZE as i32
                    || new_position.1 < 0 || new_position.2 >= CHUNK_SIZE as i32 || new_position.2 < 0) {
                    proof {
                        let x = new_position.0;
                        let y = new_position.1;
                        assert(x << 8i32 == x * 256 && y << 4i32 == y * 16) by (bit_vector)
                            requires
                                0 <= x < 16,
                                0 <= y < 16,
                        ;
                    }
                    let new_index = ((new_position.0 << CHUNK_SHIFT_2) + (new_position.1 << CHUNK_SHIFT) + new_position.2) as usize;
                    chunk.blocks_table[new_index] = block.1;
                }
                j = j + 1;
            }
            proof {
                assert(chunk@.blocks == paint_structures(blocks0, structs, cpos, i + 1));
            }
            i = i + 1;
        }
    }
}

/// Terrain generation puts each block type in its layer of the column: rough stone and
/// stone at least three blocks under the surface, dirt two under it, grass only at the
/// surface and at or above height 1, sand only at the surface and at or below height -5,
/// grass below the surface on the top layers, water only above the surface and at or below
/// the water level; above both the surface and the water level it leaves the block.
pub proof fn law_terrain_layers(yw: int, e: int, grass: bool, r1: int, r2: int, r3: int)
    ensures
        column_block(yw, e, grass, r1, r2, r3) == Some(5i16) ==> yw <= e - 8,
        column_block(yw, e, grass, r1, r2, r3) == Some(1i16) ==> yw <= e - 3,
        column_block(yw, e, grass, r1, r2, r3) == Some(2i16) ==> yw == e - 2,
        column_block(yw, e, grass, r1, r2, r3) == Some(4i16) ==> yw == e && yw >= WORLD_GRASS_LEVEL - 2,
        column_block(yw, e, grass, r1, r2, r3) == Some(6i16) ==> yw == e && yw <= WORLD_WATER_LEVEL + 1,
        column_block(yw, e, grass, r1, r2, r3) == Some(3i16) ==> e - 1 <= yw <= e,
        column_block(yw, e, grass, r1, r2, r3) == Some(9i16) ==> e < yw <= WORLD_WATER_LEVEL,
        column_block(yw, e, grass, r1, r2, r3) is None <==> (yw > e && yw > WORLD_WATER_LEVEL),
        yw == e && yw <= WORLD_WATER_LEVEL ==> column_block(yw, e, grass, r1, r2, r3) == Some(6i16),
        e < yw <= WORLD_WATER_LEVEL ==> column_block(yw, e, grass, r1, r2, r3) == Some(9i16),
        yw == e && column_block(yw, e, grass, r1, r2, r3) == Some(3i16) ==> yw > WORLD_WATER_LEVEL,
        column_block(yw, e, grass, r1, r2, r3) == Some(4i16) ==> yw > WORLD_WATER_LEVEL,
        yw <= e - 8 ==> column_block(yw, e, grass, r1, r2, r3) == Some(5i16) || column_block(yw, e, grass, r1, r2, r3) == Some(1i16),
        e - 7 <= yw <= e - 3 ==> column_block(yw, e, grass, r1, r2, r3) == Some(1i16),
        yw == e - 2 ==> column_block(yw, e, grass, r1, r2, r3) == Some(2i16),
        yw == e - 1 ==> column_block(yw, e, grass, r1, r2, r3) == Some(3i16),
        yw == e && WORLD_WATER_LEVEL + 1 < yw < WORLD_GRASS_LEVEL - 2 ==> column_block(yw, e, grass, r1, r2, r3) == Some(3i16),
        yw == e && yw >= WORLD_GRASS_LEVEL && grass ==> column_block(yw, e, grass, r1, r2, r3) == Some(4i16),
{
}

/// Within the world's radius, the terrain pass makes the surface block of a column at or
/// below the water level sand (6), fills the blocks above it up to the water level with
/// water (9), and leaves every block above both the surface and the water level.
pub proof fn law_underwater_columns(
    old: Seq<i16>,
    t: Seq<i16>,
    pos: (i32, i32, i32),
    es: Seq<i32>,
    sf: Surface,
    x: int,
    y: int,
    z: int,
)
    requires
        terrain_filled(old, t, pos, es, sf),
        0 <= x < 16,
        0 <= y < 16,
        0 <= z < 16,
    ensures
        ({
            let (xw, yw, zw) = (chunk_origin(pos.0) + x, chunk_origin(pos.1) + y, chunk_origin(pos.2) + z);
            let e = es[x * 16 + z] as int;
            let i = x * 256 + y * 16 + z;
            &&& within_distance(xw * xw + yw * yw + zw * zw, MAX_DISTANCE + 1) && yw == e && e <= WORLD_WATER_LEVEL ==> t[i] == 6
            &&& within_distance(xw * xw + yw * yw + zw * zw, MAX_DISTANCE + 1) && e < yw <= WORLD_WATER_LEVEL ==> t[i] == 9
            &&& yw > e && yw > WORLD_WATER_LEVEL ==> t[i] == old[i]
        }),
{
    let (xw, yw, zw) = (chunk_origin(pos.0) + x, chunk_origin(pos.1) + y, chunk_origin(pos.2) + z);
    let i = x * 256 + y * 16 + z;
    assert(i / 256 == x && (i / 16) % 16 == y && i % 16 == z);
    assert(terrain_cell_at(old, t, pos, es, i, sf));
    let e = es[x * 16 + z] as int;
    if within_distance(xw * xw + yw * yw + zw * zw, MAX_DISTANCE + 1) {
        assert(xw * xw + zw * zw <= xw * xw + yw * yw + zw * zw) by (nonlinear_arith);
        assert(terrain_cell(old[i], t[i], xw, yw, zw, e, sf));
        if yw <= WORLD_WATER_LEVEL && e <= yw {
            let (g, r1, r2, r3) = choose|g: bool, r1: int, r2: int, r3: int|
                0 <= r1 < 100 && 0 <= r2 < 100 && 0 <= r3 < 100 && (grass_read(yw, e) ==> (sf.grass)(xw as i32, zw as i32, g))
                    && #[trigger] column_block(yw, e, g, r1, r2, r3) == Some(t[i]);
            law_terrain_layers(yw, e, g, r1, r2, r3);
        }
    }
}

} // verus!
