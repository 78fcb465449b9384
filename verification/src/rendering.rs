use vstd::prelude::*;

use crate::chunk::{chunk_origin, chunk_shift, lemma_chunk_origin, with_spawned, Chunk, ChunkView, CHUNK_SIZE};
use crate::chunk_loader::tried_before;
use crate::chunk_table::{with_chunk, ChunkTable};
use crate::rings::{lemma_faces_keeps_spawned, lemma_generated_keeps_spawned, lemma_faces_rings, lemma_generated_rings, lemma_ring_readable, lemma_rings_insert, lemma_rings_with_chunk, rings_closed};
use crate::world_generator::{
    ao_cell_readable, aot_from, chunk_wf, faces_from, faces_ok, generated_from, ring_ok, table_wf, Surface, Terrain, WorldGenerator,
};
use crate::chunk_table::{sq_dist, sq_dist_fits, sq_dist_i32};
use crate::coords::{in_i32, I32x3Extension};
use crate::point_set::PointSet;
use crate::seq_facts::{lemma_push_contains, lemma_push_no_duplicates};

verus! {

/// The sRGB colour of each block type, by index.
pub struct BlockColorTable {
    pub colors: Vec<(u8, u8, u8)>,
}

pub open spec fn rgb(r: u8, g: u8, b: u8) -> (u8, u8, u8) {
    (r, g, b)
}

/// Air, stone, dirt, grass, grass, rough stone, sand, wood, leaves, water, birch wood,
/// birch leaves, dark oak wood, dark oak leaves.
pub open spec fn block_colors() -> Seq<(u8, u8, u8)> {
    seq![rgb(127, 127, 127), rgb(127, 127, 127), rgb(129, 93, 41), rgb(106, 153, 85), rgb(50, 144, 113),
        rgb(103, 103, 105), rgb(220, 201, 124), rgb(73, 61, 40), rgb(41, 150, 46), rgb(0, 122, 204),
        rgb(136, 136, 136), rgb(185, 175, 24), rgb(64, 44, 25), rgb(141, 56, 33)]
}

impl Default for BlockColorTable {
    fn default() -> (t: Self)
        ensures
            t.colors@ == block_colors(),
    {
        let colors = vec![(127, 127, 127), (127, 127, 127), (129, 93, 41), (106, 153, 85), (50, 144, 113),
            (103, 103, 105), (220, 201, 124), (73, 61, 40), (41, 150, 46), (0, 122, 204),
            (136, 136, 136), (185, 175, 24), (64, 44, 25), (141, 56, 33)];
        assert(colors@ =~= block_colors());
        BlockColorTable { colors }
    }
}

/// `p` lies in the box of half-width `dst` around `center` that the scan walks:
/// offsets from `-dst` up to `dst - 1` on each axis.
pub open spec fn in_scan_box(p: (i32, i32, i32), center: (i32, i32, i32), dst: int) -> bool {
    &&& -dst <= p.0 - center.0 < dst
    &&& -dst <= p.1 - center.1 < dst
    &&& -dst <= p.2 - center.2 < dst
}

/// `p` comes before `q` in the scan: by x offset, then z, then y.
pub open spec fn scanned_before(p: (i32, i32, i32), q: (i32, i32, i32), center: (i32, i32, i32)) -> bool {
    tried_before(p.0 - center.0, p.2 - center.2, p.1 - center.1, q.0 - center.0, q.2 - center.2, q.1 - center.1)
}

/// `p` is one of the points that the scan adds: in the box, within `distance` of `center`
/// and not visited before.
pub open spec fn scan_picks(
    p: (i32, i32, i32),
    center: (i32, i32, i32),
    distance: i32,
    visited: Set<(i32, i32, i32)>,
) -> bool {
    &&& in_scan_box(p, center, distance + 10)
    &&& sq_dist(p, center) <= distance * distance
    &&& !visited.contains(p)
}

/// `found` is what the scan returns: without duplicates, every point it picks, in scan order.
pub open spec fn scan_result(
    found: Seq<(i32, i32, i32)>,
    center: (i32, i32, i32),
    distance: i32,
    visited: Set<(i32, i32, i32)>,
) -> bool {
    &&& found.no_duplicates()
    &&& forall|i: int| 0 <= i < found.len() ==> scan_picks(#[trigger] found[i], center, distance, visited)
    &&& forall|p: (i32, i32, i32)| #[trigger] scan_picks(p, center, distance, visited) ==> found.contains(p)
    &&& forall|i: int, j: int| 0 <= i < j < found.len() ==> scanned_before(#[trigger] found[i], #[trigger] found[j], center)
}

/// The scan over the box computes without overflow.
pub open spec fn scan_fits(center: (i32, i32, i32), distance: i32) -> bool {
    let dst = distance + 10;
    &&& distance <= i32::MAX - 10
    &&& dst > 0 ==> {
        &&& in_i32(center.0 - dst) && in_i32(center.0 + dst - 1)
        &&& in_i32(center.1 - dst) && in_i32(center.1 + dst - 1)
        &&& in_i32(center.2 - dst) && in_i32(center.2 + dst - 1)
        &&& dst * dst * 3 <= i32::MAX
    }
}

proof fn lemma_scan_square(o: int, dst: int)
    requires
        -dst <= o < dst,
    ensures
        0 <= o * o <= dst * dst,
{
    assert(0 <= o * o <= dst * dst) by (nonlinear_arith)
        requires
            -dst <= o < dst,
    ;
}

/// Adds to `visited` and returns, in scan order, every point of the box of half-width
/// `distance + 10` around `center` that lies within `distance` of it and was not visited.
pub fn bfs_distance_points_generator(
    center: (i32, i32, i32),
    visited: &mut PointSet,
    distance: i32,
) -> (found: Vec<(i32, i32, i32)>)
    requires
        scan_fits(center, distance),
    ensures
        scan_result(found@, center, distance, old(visited)@),
        final(visited)@ == old(visited)@.union(found@.to_set()),
{
    let ghost visited0 = visited@;
    let mut new_position_set: Vec<(i32, i32, i32)> = Vec::new();
    let dst = distance + 10;
    if dst <= 0 {
        assert forall|p: (i32, i32, i32)| #[trigger] scan_picks(p, center, distance, visited0) implies new_position_set@.contains(p) by {
        }
        assert(visited@ =~= visited0.union(new_position_set@.to_set()));
        return new_position_set;
    }
    assert(0 <= distance * distance <= i32::MAX) by (nonlinear_arith)
        requires
            dst == distance + 10,
            dst > 0,
            dst * dst * 3 <= i32::MAX,
    {
        if distance >= 0 {
            assert(distance * distance <= dst * dst);
        } else {
            assert(distance * distance <= 81);
        }
    }
    let limit = distance * distance;
    let mut ox: i32 = -dst;
    while ox < dst
        invariant
            dst == distance + 10,
            dst > 0,
            scan_fits(center, distance),
            limit == distance * distance,
            -dst <= ox <= dst,
            new_position_set@.no_duplicates(),
            forall|i: int| 0 <= i < new_position_set@.len() ==> #[trigger] scan_picks(new_position_set@[i], center, distance, visited0),
            forall|i: int| 0 <= i < new_position_set@.len() ==> tried_before(
                new_position_set@[i].0 - center.0, new_position_set@[i].2 - center.2, new_position_set@[i].1 - center.1,
                ox as int, -dst, -dst),
            forall|i: int, j: int| 0 <= i < j < new_position_set@.len() ==> scanned_before(#[trigger] new_position_set@[i], #[trigger] new_position_set@[j], center),
            forall|p: (i32, i32, i32)| #[trigger] scan_picks(p, center, distance, visited0)
                && tried_before(p.0 - center.0, p.2 - center.2, p.1 - center.1, ox as int, -dst, -dst) ==> new_position_set@.contains(p),
            visited@ == visited0.union(new_position_set@.to_set()),
        decreases dst - ox,
    {
        let mut oz: i32 = -dst;
        while oz < dst
            invariant
                dst == distance + 10,
                dst > 0,
                scan_fits(center, distance),
                limit == distance * distance,
                -dst <= ox < dst,
                -dst <= oz <= dst,
                new_position_set@.no_duplicates(),
                forall|i: int| 0 <= i < new_position_set@.len() ==> #[trigger] scan_picks(new_position_set@[i], center, distance, visited0),
                forall|i: int| 0 <= i < new_position_set@.len() ==> tried_before(
                    new_position_set@[i].0 - center.0, new_position_set@[i].2 - center.2, new_position_set@[i].1 - center.1,
                    ox as int, oz as int, -dst),
                forall|i: int, j: int| 0 <= i < j < new_position_set@.len() ==> scanned_before(#[trigger] new_position_set@[i], #[trigger] new_position_set@[j], center),
                forall|p: (i32, i32, i32)| #[trigger] scan_picks(p, center, distance, visited0)
                    && tried_before(p.0 - center.0, p.2 - center.2, p.1 - center.1, ox as int, oz as int, -dst) ==> new_position_set@.contains(p),
                visited@ == visited0.union(new_position_set@.to_set()),
            decreases dst - oz,
        {
            let mut oy: i32 = -dst;
            while oy < dst
                invariant
                    dst == distance + 10,
                    dst > 0,
                    scan_fits(center, distance),
                    limit == distance * distance,
                    -dst <= ox < dst,
                    -dst <= oz < dst,
                    -dst <= oy <= dst,
                    new_position_set@.no_duplicates(),
                    forall|i: int| 0 <= i < new_position_set@.len() ==> #[trigger] scan_picks(new_position_set@[i], center, distance, visited0),
                    forall|i: int| 0 <= i < new_position_set@.len() ==> tried_before(
                        new_position_set@[i].0 - center.0, new_position_set@[i].2 - center.2, new_position_set@[i].1 - center.1,
                        ox as int, oz as int, oy as int),
                    forall|i: int, j: int| 0 <= i < j < new_position_set@.len() ==> scanned_before(#[trigger] new_position_set@[i], #[trigger] new_position_set@[j], center),
                    forall|p: (i32, i32, i32)| #[trigger] scan_picks(p, center, distance, visited0)
                        && tried_before(p.0 - center.0, p.2 - center.2, p.1 - center.1, ox as int, oz as int, oy as int)
                        ==> new_position_set@.contains(p),
                    visited@ == visited0.union(new_position_set@.to_set()),
                decreases dst - oy,
            {
                let new_point = center.add((ox, oy, oz));
                proof {
                    lemma_scan_square(ox as int, dst as int);
                    lemma_scan_square(oy as int, dst as int);
                    lemma_scan_square(oz as int, dst as int);
                    assert(sq_dist_fits(new_point, center));
                }
                let ghost found_before = new_position_set@;
                let ghost visited_before = visited@;
                let in_range = sq_dist_i32(new_point, center) <= limit;
                if in_range && !visited.contains(&new_point) {
                    proof {
                        if found_before.contains(new_point) {
                            let i = choose|i: int| 0 <= i < found_before.len() && #[trigger] found_before[i] == new_point;
                            assert(tried_before(new_point.0 - center.0, new_point.2 - center.2, new_point.1 - center.1,
                                ox as int, oz as int, oy as int));
                        }
                        lemma_push_no_duplicates(found_before, new_point);
                        found_before.lemma_push_to_set_commute(new_point);
                    }
                    new_position_set.push(center.add((ox, oy, oz)));
                    visited.insert(center.add((ox, oy, oz)));
                    proof {
                        assert(new_position_set@ == found_before.push(new_point));
                        assert(visited@ =~= visited0.union(new_position_set@.to_set()));
                    }
                }
                proof {
                    assert forall|p: (i32, i32, i32)| #[trigger] scan_picks(p, center, distance, visited0)
                        && tried_before(p.0 - center.0, p.2 - center.2, p.1 - center.1, ox as int, oz as int, oy + 1)
                        implies new_position_set@.contains(p) by {
                        lemma_push_contains(found_before, new_point, p);
                        if p == new_point {
                            assert(!visited_before.contains(p)) by {
                                if visited_before.contains(p) {
                                    assert(found_before.to_set().contains(p));
                                }
                            }
                        }
                    }
                }
                oy = oy + 1;
            }
            oz = oz + 1;
        }
        ox = ox + 1;
    }
    new_position_set
}

/// A block that the renderer shows: its world position, its type (which picks its
/// material), its occlusion mask (which picks its mesh), and whether it gets a collider.
#[derive(Clone, Copy, Debug)]
pub struct BlockSpawn {
    pub position: (i32, i32, i32),
    pub block_type: i16,
    pub aot_mask: u8,
    pub collider: bool,
}

/// Block `i` of `c` is shown: it is not air and not hidden on every side.
pub open spec fn shows_block(c: ChunkView, i: int) -> bool {
    c.blocks[i] != 0 && c.faces[i] != 63
}

/// How block `i` of `c` is shown: at its world position, with a collider when it is on
/// the chunk's top layer or has air right above it.
pub open spec fn block_spawn(c: ChunkView, i: int) -> BlockSpawn {
    let x = i / 256;
    let y = (i / 16) % 16;
    let z = i % 16;
    BlockSpawn {
        position: (
            (chunk_origin(c.world_chunk_position.0) + x) as i32,
            (chunk_origin(c.world_chunk_position.1) + y) as i32,
            (chunk_origin(c.world_chunk_position.2) + z) as i32,
        ),
        block_type: c.blocks[i],
        aot_mask: c.aot[i],
        collider: y == 15 || c.blocks[i + 16] == 0,
    }
}

/// The shown blocks among the first `n` of `c`, in table order.
pub open spec fn block_spawns(c: ChunkView, n: int) -> Seq<BlockSpawn>
    decreases n,
{
    if n <= 0 {
        Seq::empty()
    } else if shows_block(c, n - 1) {
        block_spawns(c, n - 1).push(block_spawn(c, n - 1))
    } else {
        block_spawns(c, n - 1)
    }
}

/// The blocks of `chunk` to show, in table order (x, then y, then z).
pub fn spawn_plan(chunk: &Chunk) -> (plan: Vec<BlockSpawn>)
    ensures
        plan@ == block_spawns(chunk@, 4096),
{
    proof {
        lemma_chunk_origin(chunk.world_chunk_position.0);
        lemma_chunk_origin(chunk.world_chunk_position.1);
        lemma_chunk_origin(chunk.world_chunk_position.2);
    }
    let ox = chunk_shift(chunk.world_chunk_position.0);
    let oy = chunk_shift(chunk.world_chunk_position.1);
    let oz = chunk_shift(chunk.world_chunk_position.2);
    let mut plan: Vec<BlockSpawn> = Vec::new();
    let mut index: usize = 0;
    while index < 4096
        invariant
            index <= 4096,
            ox == chunk_origin(chunk.world_chunk_position.0),
            oy == chunk_origin(chunk.world_chunk_position.1),
            oz == chunk_origin(chunk.world_chunk_position.2),
            ox <= i32::MAX - 15,
            oy <= i32::MAX - 15,
            oz <= i32::MAX - 15,
            plan@ == block_spawns(chunk@, index as int),
        decreases 4096 - index,
    {
        let x = index / 256;
        let y = (index / 16) % 16;
        let z = index % 16;
        let block_type = chunk.blocks_table[index];
        let mesh_type_mask = chunk.faces_table[index];
        if block_type != 0 && mesh_type_mask != 63 {
            let collider = y == CHUNK_SIZE - 1 || chunk.blocks_table[index + CHUNK_SIZE] == 0;
            let b = BlockSpawn {
                position: (ox + x as i32, oy + y as i32, oz + z as i32),
                block_type,
                aot_mask: chunk.aot_table[index],
                collider,
            };
            assert(b == block_spawn(chunk@, index as int));
            plan.push(b);
        }
        index += 1;
    }
    plan
}

/// `p` is a player position around which spawning stays in range: the coordinates of every
/// chunk that a pass touches (up to 19 rows from `p`) fit in `i32` with room, and every row
/// it touches has its structure count exact in `f32` (see `chunk_y_ok`).
pub open spec fn spawn_fits(p: (i32, i32, i32)) -> bool {
    &&& -0x10_0000 <= p.0 <= 0x10_0000
    &&& -5_592_386 <= p.1 <= 5_592_382
    &&& -0x10_0000 <= p.2 <= 0x10_0000
}

/// `m2` is `m1` after spawning the chunk at `p`, and `shown` the blocks that it shows:
/// nothing is done for a chunk that is spawned already (but it is added if missing);
/// otherwise the chunk is generated, its faces (at full detail) and occlusion masks are
/// computed, its blocks are shown, and it is marked spawned with no entities.
pub open spec fn spawn_step(
    m1: Map<(i32, i32, i32), ChunkView>,
    m2: Map<(i32, i32, i32), ChunkView>,
    p: (i32, i32, i32),
    shown: Seq<BlockSpawn>,
    sf: Surface,
) -> bool {
    let m0 = with_chunk(m1, p);
    if m0[p].spawned {
        m2 == m0 && shown == Seq::<BlockSpawn>::empty()
    } else {
        exists|ma: Map<(i32, i32, i32), ChunkView>, mb: Map<(i32, i32, i32), ChunkView>, mc: Map<(i32, i32, i32), ChunkView>|
            #![trigger generated_from(m0, ma, p, sf), faces_from(ma, mb, p, 1, sf), aot_from(mb, mc, p)]
            generated_from(m0, ma, p, sf) && faces_from(ma, mb, p, 1, sf) && aot_from(mb, mc, p)
                && shown == block_spawns(mc[p], 4096) && m2 == mc.insert(p, with_spawned(mc[p]))
    }
}

/// `ms` and `outs` trace the spawning of the chunks of `found` in order, from `m1` to
/// `m2`: `ms[i]` is the map before chunk `i`, and `outs[i]` the blocks it shows.
pub open spec fn spawn_trace(
    m1: Map<(i32, i32, i32), ChunkView>,
    m2: Map<(i32, i32, i32), ChunkView>,
    found: Seq<(i32, i32, i32)>,
    ms: Seq<Map<(i32, i32, i32), ChunkView>>,
    outs: Seq<Seq<BlockSpawn>>,
    sf: Surface,
) -> bool {
    &&& ms.len() == found.len() + 1
    &&& outs.len() == found.len()
    &&& ms[0] == m1
    &&& ms[found.len() as int] == m2
    &&& forall|i: int| 0 <= i < found.len() ==> #[trigger] spawn_step(ms[i], ms[i + 1], found[i], outs[i], sf)
}

/// `m2` is `m1` after spawning the chunks of `found` in order, and `shown` the blocks
/// they show, chunk after chunk.
pub open spec fn spawn_run(
    m1: Map<(i32, i32, i32), ChunkView>,
    m2: Map<(i32, i32, i32), ChunkView>,
    found: Seq<(i32, i32, i32)>,
    shown: Seq<BlockSpawn>,
    sf: Surface,
) -> bool {
    exists|ms: Seq<Map<(i32, i32, i32), ChunkView>>, outs: Seq<Seq<BlockSpawn>>|
        #[trigger] spawn_trace(m1, m2, found, ms, outs, sf) && shown == outs.flatten()
}

/// Spawning around `center` stays within the bounds that chunk generation needs.
proof fn lemma_spawn_bounds(center: (i32, i32, i32), q: (i32, i32, i32))
    requires
        spawn_fits(center),
        in_scan_box(q, center, 17),
    ensures
        ring_ok(q),
        faces_ok(q),
{
    assert(chunk_origin(q.1) == q.1 * 16);
    assert(chunk_origin((q.1 - 1) as i32) == (q.1 - 1) * 16);
    assert(chunk_origin((q.1 + 1) as i32) == (q.1 + 1) * 16);
    assert(chunk_origin((q.1 - 2) as i32) == (q.1 - 2) * 16);
    assert(chunk_origin((q.1 + 2) as i32) == (q.1 + 2) * 16);
}

/// Every block that the occlusion pass reads around a chunk with its whole ring in the map
/// can be read.
proof fn lemma_ao_readable(m: Map<(i32, i32, i32), ChunkView>, p: (i32, i32, i32))
    requires
        rings_closed(m),
        m.contains_key(p),
        m[p].structres_generated,
        ring_ok(p),
    ensures
        forall|i: int| 0 <= i < 4096 ==> #[trigger] ao_cell_readable(m, p, i),
{
    assert forall|i: int| 0 <= i < 4096 implies #[trigger] ao_cell_readable(m, p, i) by {
        let x = i / 256;
        let y = (i / 16) % 16;
        let z = i % 16;
        assert forall|dx: int, dy: int, dz: int| -1 <= dx <= 1 && -1 <= dy <= 1 && -1 <= dz <= 1
            implies #[trigger] crate::world_generator::readable_at(m, p, x + dx, y + dy, z + dz) by {
            lemma_ring_readable(m, p, x + dx, y + dy, z + dz);
        }
        assert(crate::world_generator::readable_at(m, p, x + 0, y + 1, z + 0));
        assert(crate::world_generator::readable_at(m, p, x + 0, y + 1, z + -1));
        assert(crate::world_generator::readable_at(m, p, x + 0, y + 1, z + 1));
        assert(crate::world_generator::readable_at(m, p, x + -1, y + 1, z + 0));
        assert(crate::world_generator::readable_at(m, p, x + 1, y + 1, z + 0));
        assert(crate::world_generator::readable_at(m, p, x + -1, y + 1, z + -1));
        assert(crate::world_generator::readable_at(m, p, x + 1, y + 1, z + -1));
        assert(crate::world_generator::readable_at(m, p, x + 1, y + 1, z + 1));
        assert(crate::world_generator::readable_at(m, p, x + -1, y + 1, z + 1));
        assert(crate::world_generator::readable_at(m, p, x + 0, y + -1, z + -1));
        assert(crate::world_generator::readable_at(m, p, x + 0, y + -1, z + 1));
        assert(crate::world_generator::readable_at(m, p, x + -1, y + -1, z + 0));
        assert(crate::world_generator::readable_at(m, p, x + 1, y + -1, z + 0));
        assert(crate::world_generator::readable_at(m, p, x + -1, y + -1, z + -1));
        assert(crate::world_generator::readable_at(m, p, x + 1, y + -1, z + -1));
        assert(crate::world_generator::readable_at(m, p, x + 1, y + -1, z + 1));
        assert(crate::world_generator::readable_at(m, p, x + -1, y + -1, z + 1));
    }
}

/// One spawn step keeps every chunk, keeps spawned chunks spawned, and leaves its chunk
/// spawned.
proof fn lemma_step_spawns(m1: Map<(i32, i32, i32), ChunkView>, m2: Map<(i32, i32, i32), ChunkView>, p: (i32, i32, i32), shown: Seq<BlockSpawn>, sf: Surface)
    requires
        spawn_step(m1, m2, p, shown, sf),
    ensures
        m2.contains_key(p),
        m2[p].spawned,
        forall|k: (i32, i32, i32)| #[trigger] m1.contains_key(k) ==> m2.contains_key(k) && (m1[k].spawned ==> m2[k].spawned),
{
    let m0 = with_chunk(m1, p);
    assert forall|k: (i32, i32, i32)| #[trigger] m1.contains_key(k) implies m0.contains_key(k) && (m1[k].spawned ==> m0[k].spawned) by {
    }
    if !m0[p].spawned {
        let (ma, mb, mc) = choose|ma: Map<(i32, i32, i32), ChunkView>, mb: Map<(i32, i32, i32), ChunkView>, mc: Map<(i32, i32, i32), ChunkView>|
            #![trigger generated_from(m0, ma, p, sf), faces_from(ma, mb, p, 1, sf), aot_from(mb, mc, p)]
            generated_from(m0, ma, p, sf) && faces_from(ma, mb, p, 1, sf) && aot_from(mb, mc, p)
                && shown == block_spawns(mc[p], 4096) && m2 == mc.insert(p, with_spawned(mc[p]));
        lemma_generated_keeps_spawned(m0, ma, p, sf);
        assert(m0.contains_key(p));
        lemma_faces_keeps_spawned(ma, mb, p, 1, sf);
        assert forall|k: (i32, i32, i32)| #[trigger] m1.contains_key(k) implies m2.contains_key(k) && (m1[k].spawned ==> m2[k].spawned) by {
            assert(m0.contains_key(k));
            assert(ma.contains_key(k));
            assert(mb.contains_key(k));
            assert(mc.contains_key(k));
        }
        assert(ma.contains_key(p));
        assert(mb.contains_key(p));
        assert(mc.contains_key(p));
    }
}

/// After the first `j` steps of a trace, the chunks of those steps are spawned, and so is
/// every chunk that was spawned before.
proof fn lemma_trace_spawns(
    m1: Map<(i32, i32, i32), ChunkView>,
    m2: Map<(i32, i32, i32), ChunkView>,
    found: Seq<(i32, i32, i32)>,
    ms: Seq<Map<(i32, i32, i32), ChunkView>>,
    outs: Seq<Seq<BlockSpawn>>,
    j: int,
    sf: Surface,
)
    requires
        spawn_trace(m1, m2, found, ms, outs, sf),
        0 <= j <= found.len(),
    ensures
        forall|i: int| 0 <= i < j ==> ms[j].contains_key(#[trigger] found[i]) && ms[j][found[i]].spawned,
        forall|k: (i32, i32, i32)| #[trigger] m1.contains_key(k) && m1[k].spawned ==> ms[j].contains_key(k) && ms[j][k].spawned,
    decreases j,
{
    if j > 0 {
        lemma_trace_spawns(m1, m2, found, ms, outs, j - 1, sf);
        assert(spawn_step(ms[j - 1], ms[j - 1 + 1], found[j - 1], outs[j - 1], sf));
        lemma_step_spawns(ms[j - 1], ms[j], found[j - 1], outs[j - 1], sf);
        assert forall|i: int| 0 <= i < j implies ms[j].contains_key(#[trigger] found[i]) && ms[j][found[i]].spawned by {
            if i < j - 1 {
                assert(ms[j - 1].contains_key(found[i]));
            }
        }
        assert forall|k: (i32, i32, i32)| #[trigger] m1.contains_key(k) && m1[k].spawned implies ms[j].contains_key(k) && ms[j][k].spawned by {
            assert(ms[j - 1].contains_key(k));
        }
    }
}

/// After a spawn pass every chunk that the scan found is in the map and spawned, and every
/// chunk that was spawned before still is.
pub proof fn law_spawn_pass_spawns(
    m1: Map<(i32, i32, i32), ChunkView>,
    m2: Map<(i32, i32, i32), ChunkView>,
    found: Seq<(i32, i32, i32)>,
    shown: Seq<BlockSpawn>,
    sf: Surface,
)
    requires
        spawn_run(m1, m2, found, shown, sf),
    ensures
        forall|i: int| 0 <= i < found.len() ==> m2.contains_key(#[trigger] found[i]) && m2[found[i]].spawned,
        forall|k: (i32, i32, i32)| #[trigger] m1.contains_key(k) && m1[k].spawned ==> m2.contains_key(k) && m2[k].spawned,
{
    let (ms, outs) = choose|ms: Seq<Map<(i32, i32, i32), ChunkView>>, outs: Seq<Seq<BlockSpawn>>|
        #[trigger] spawn_trace(m1, m2, found, ms, outs, sf) && shown == outs.flatten();
    lemma_trace_spawns(m1, m2, found, ms, outs, found.len() as int, sf);
}

/// One pass of the spawner: records the player's position as the previous one, scans the
/// chunks within the render distance (120 blocks, 7 chunks) around it that were not yet
/// rendered, and spawns each of them in scan order (see `spawn_step`). Returns the blocks
/// to show, chunk after chunk.
pub fn spawn_chunk<E: Fn(i32, i32) -> i32, G: Fn(i32, i32) -> bool>(chunk_table: &mut ChunkTable, generator: &WorldGenerator, terrain: &Terrain<E, G>) -> (shown: Vec<BlockSpawn>)
    requires
        terrain.callable(),
        table_wf(old(chunk_table).chunk_map@),
        rings_closed(old(chunk_table).chunk_map@),
        spawn_fits(old(chunk_table).player_position),
    ensures
        table_wf(final(chunk_table).chunk_map@),
        rings_closed(final(chunk_table).chunk_map@),
        final(chunk_table).player_position == old(chunk_table).player_position,
        final(chunk_table).prev_player_position == old(chunk_table).player_position,
        exists|found: Seq<(i32, i32, i32)>|
            scan_result(found, old(chunk_table).player_position, 7, old(chunk_table).rendered_chunk_set@)
                && final(chunk_table).rendered_chunk_set@ == old(chunk_table).rendered_chunk_set@.union(found.to_set())
                && #[trigger] spawn_run(old(chunk_table).chunk_map@, final(chunk_table).chunk_map@, found, shown@, terrain.surface()),
{
    let player_position = chunk_table.player_position;
    chunk_table.prev_player_position = player_position;
    let render_distance: i32 = 120 / CHUNK_SIZE as i32;
    let ghost m_start = chunk_table.chunk_map@;
    let ghost rendered0 = chunk_table.rendered_chunk_set@;
    let points = bfs_distance_points_generator(player_position, &mut chunk_table.rendered_chunk_set, render_distance);
    let ghost rendered1 = chunk_table.rendered_chunk_set@;
    let mut shown: Vec<BlockSpawn> = Vec::new();
    let mut i: usize = 0;
    let ghost mut ms: Seq<Map<(i32, i32, i32), ChunkView>> = seq![m_start];
    let ghost mut outs: Seq<Seq<BlockSpawn>> = Seq::empty();
    assert(points@.take(0) =~= Seq::<(i32, i32, i32)>::empty());
    while i < points.len()
        invariant
            terrain.callable(),
            render_distance == 7,
            spawn_fits(player_position),
            scan_result(points@, player_position, render_distance, rendered0),
            i <= points@.len(),
            table_wf(chunk_table.chunk_map@),
            rings_closed(chunk_table.chunk_map@),
            spawn_trace(m_start, chunk_table.chunk_map@, points@.take(i as int), ms, outs, terrain.surface()),
            shown@ == outs.flatten(),
            chunk_table.player_position == player_position,
            chunk_table.prev_player_position == player_position,
            chunk_table.rendered_chunk_set@ == rendered1,
        decreases points@.len() - i,
    {
        let position = points[i];
        let ghost m1 = chunk_table.chunk_map@;
        let ghost s1 = shown@;
        let ghost mut step_shown: Seq<BlockSpawn> = Seq::empty();
        proof {
            assert(scan_picks(points@[i as int], player_position, render_distance, rendered0));
            lemma_spawn_bounds(player_position, position);
        }
        let already = chunk_table.get_add_chunk(position).spawned;
        let ghost m0 = chunk_table.chunk_map@;
        proof {
            lemma_rings_with_chunk(m1, position);
            assert forall|k: (i32, i32, i32)| #[trigger] m0.contains_key(k) implies chunk_wf(m0[k], k) by {
                if k != position || m1.contains_key(position) {
                    assert(m1.contains_key(k));
                }
            }
        }
        if !already {
            generator.generate_chunk(chunk_table, position, terrain);
            let ghost ma = chunk_table.chunk_map@;
            proof {
                lemma_generated_rings(m0, ma, position, terrain.surface());
            }
            generator.calculate_faces_table(chunk_table, position, 1, terrain);
            let ghost mb = chunk_table.chunk_map@;
            proof {
                lemma_faces_rings(ma, mb, position, 1, terrain.surface());
                assert(mb[position].structres_generated);
                lemma_ao_readable(mb, position);
            }
            generator.calculate_ambient_occlusion(chunk_table, position);
            let ghost mc = chunk_table.chunk_map@;
            proof {
                if !mb[position].aot_calculated {
                    lemma_rings_insert(mb, position, mc[position]);
                }
            }
            let mut plan = spawn_plan(chunk_table.get_chunk(position).unwrap());
            let ghost planned = plan@;
            shown.append(&mut plan);
            let chunk = chunk_table.get_chunk_mut(position).unwrap();
            chunk.entities_table = Vec::new();
            chunk.spawned = true;
            proof {
                let m2 = chunk_table.chunk_map@;
                assert(m2 == mc.insert(position, with_spawned(mc[position])));
                lemma_rings_insert(mc, position, with_spawned(mc[position]));
                assert forall|k: (i32, i32, i32)| #[trigger] m2.contains_key(k) implies chunk_wf(m2[k], k) by {
                    assert(mc.contains_key(k));
                }
                assert(spawn_step(m1, m2, position, planned, terrain.surface()));
                step_shown = planned;
            }
        } else {
            proof {
                assert(spawn_step(m1, m0, position, Seq::<BlockSpawn>::empty(), terrain.surface()));
                assert(shown@ =~= s1 + Seq::<BlockSpawn>::empty());
            }
        }
        proof {
            let found = points@.take(i + 1);
            assert(found.drop_last() =~= points@.take(i as int));
            assert(found.last() == position);
            let ms2 = ms.push(chunk_table.chunk_map@);
            let outs2 = outs.push(step_shown);
            outs.lemma_flatten_push(step_shown);
            assert forall|j: int| 0 <= j < found.len() implies #[trigger] spawn_step(ms2[j], ms2[j + 1], found[j], outs2[j], terrain.surface()) by {
                if j < i {
                    assert(spawn_step(ms[j], ms[j + 1], points@.take(i as int)[j], outs[j], terrain.surface()));
                }
            }
            ms = ms2;
            outs = outs2;
        }
        i += 1;
    }
    proof {
        assert(points@.take(points@.len() as int) =~= points@);
        assert(spawn_trace(m_start, chunk_table.chunk_map@, points@, ms, outs, terrain.surface()));
        assert(spawn_run(m_start, chunk_table.chunk_map@, points@, shown@, terrain.surface()));
        assert(chunk_table.rendered_chunk_set@ == rendered0.union(points@.to_set()));
        assert(scan_result(points@, player_position, 7, rendered0));
    }
    shown
}

/// Scanning again with the same center and distance, right after a scan, finds nothing:
/// every point the second scan could pick was picked and marked by the first, so the
/// visited set stays as the first scan left it.
pub proof fn law_scan_twice(
    found1: Seq<(i32, i32, i32)>,
    found2: Seq<(i32, i32, i32)>,
    center: (i32, i32, i32),
    distance: i32,
    visited: Set<(i32, i32, i32)>,
)
    requires
        scan_result(found1, center, distance, visited),
        scan_result(found2, center, distance, visited.union(found1.to_set())),
    ensures
        found2.len() == 0,
        visited.union(found1.to_set()).union(found2.to_set()) == visited.union(found1.to_set()),
{
    if found2.len() > 0 {
        let p = found2[0];
        assert(scan_picks(p, center, distance, visited.union(found1.to_set())));
        assert(scan_picks(p, center, distance, visited));
        assert(found1.contains(p));
        assert(found1.to_set().contains(p));
    }
    assert(found2.to_set() =~= Set::<(i32, i32, i32)>::empty());
    assert(visited.union(found1.to_set()).union(found2.to_set()) =~= visited.union(found1.to_set()));
}

} // verus!
