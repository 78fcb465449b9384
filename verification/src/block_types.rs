use vstd::prelude::*;

use crate::chunk::{fresh_chunk, ChunkView};
use crate::chunk_table::with_chunk;
use crate::world_generator::{
    column_block, external_pregenerated, generated_from, in_ring, lemma_neighbour, lemma_paint_blocks_len, neighbour,
    neighbour_structures, paint_blocks, paint_structures, painted, placed_structure, pregenerated_from, prior, ring_ok,
    terrain_cell, terrain_cell_at, terrain_filled, Surface,
};
use crate::world_structure::{
    big_tree_blocks, bush_blocks, indexed_blocks, logs_blocks, recoloured, small_bush_blocks, tree_blocks, StructureBlock,
    StructureSpec,
};

verus! {

/// One of the 14 block types: air, stone, dirt, grass, grass, rough stone, sand, wood,
/// leaves, water, birch wood, birch leaves, dark oak wood, dark oak leaves.
pub open spec fn known_block(b: i16) -> bool {
    0 <= b <= 13
}

/// Every block of a structure is of a known type.
pub open spec fn known_blocks(s: Seq<StructureBlock>) -> bool {
    forall|j: int| 0 <= j < s.len() ==> known_block(#[trigger] s[j].1)
}

/// Every structure of `ss` has blocks of known types.
pub open spec fn known_structures(ss: Seq<StructureSpec>) -> bool {
    forall|i: int| 0 <= i < ss.len() ==> known_blocks(#[trigger] ss[i].blocks)
}

/// Every block of `blocks` is of a known type.
pub open spec fn known_table(blocks: Seq<i16>) -> bool {
    forall|i: int| 0 <= i < blocks.len() ==> known_block(#[trigger] blocks[i])
}

/// Every chunk of `m` holds blocks of known types only, in its table and in its own and
/// external structures.
pub open spec fn block_types_known(m: Map<(i32, i32, i32), ChunkView>) -> bool {
    forall|k: (i32, i32, i32)| #[trigger] m.contains_key(k) ==> {
        &&& known_table(m[k].blocks)
        &&& known_structures(m[k].structures)
        &&& known_structures(m[k].externals)
    }
}

/// The structures that generation places are made of wood and leaves (types 7 to 13).
proof fn lemma_indexed_known(index: i32)
    ensures
        known_blocks(indexed_blocks(index)),
{
    let t = tree_blocks();
    assert forall|j: int| 0 <= j < t.len() implies 7 <= #[trigger] t[j].1 <= 8 by {
    }
    let b = big_tree_blocks();
    assert forall|j: int| 0 <= j < b.len() implies 7 <= #[trigger] b[j].1 <= 8 by {
    }
    let r3 = recoloured(t, 3);
    assert forall|j: int| 0 <= j < r3.len() implies known_block(#[trigger] r3[j].1) by {
        assert(7 <= t[j].1 <= 8);
    }
    let r5 = recoloured(t, 5);
    assert forall|j: int| 0 <= j < r5.len() implies known_block(#[trigger] r5[j].1) by {
        assert(7 <= t[j].1 <= 8);
    }
    let u = bush_blocks();
    assert forall|j: int| 0 <= j < u.len() implies 7 <= #[trigger] u[j].1 <= 8 by {
    }
    let v = small_bush_blocks();
    assert forall|j: int| 0 <= j < v.len() implies 7 <= #[trigger] v[j].1 <= 8 by {
    }
    let w = logs_blocks();
    assert forall|j: int| 0 <= j < w.len() implies 7 <= #[trigger] w[j].1 <= 8 by {
    }
}

/// Drawing a structure of known types keeps a table of known types.
proof fn lemma_paint_blocks_known(blocks: Seq<i16>, s: StructureSpec, cpos: (i32, i32, i32), n: int)
    requires
        blocks.len() == 4096,
        known_table(blocks),
        known_blocks(s.blocks),
        n <= s.blocks.len(),
    ensures
        known_table(paint_blocks(blocks, s, cpos, n)),
    decreases n,
{
    if n > 0 {
        lemma_paint_blocks_known(blocks, s, cpos, n - 1);
        lemma_paint_blocks_len(blocks, s, cpos, n - 1);
        assert(known_block(s.blocks[n - 1].1));
    }
}

/// Drawing structures of known types keeps a table of known types.
proof fn lemma_paint_known(blocks: Seq<i16>, structs: Seq<StructureSpec>, cpos: (i32, i32, i32), n: int)
    requires
        blocks.len() == 4096,
        known_table(blocks),
        known_structures(structs),
        n <= structs.len(),
    ensures
        known_table(paint_structures(blocks, structs, cpos, n)),
        paint_structures(blocks, structs, cpos, n).len() == 4096,
    decreases n,
{
    if n > 0 {
        lemma_paint_known(blocks, structs, cpos, n - 1);
        let prev = paint_structures(blocks, structs, cpos, n - 1);
        assert(known_blocks(structs[n - 1].blocks));
        lemma_paint_blocks_known(prev, structs[n - 1], cpos, structs[n - 1].blocks.len() as int);
        lemma_paint_blocks_len(prev, structs[n - 1], cpos, structs[n - 1].blocks.len() as int);
    }
}

/// The structures gathered from neighbours with known structures are known.
proof fn lemma_neighbours_known(m: Map<(i32, i32, i32), ChunkView>, pos: (i32, i32, i32), n: int)
    requires
        forall|t: int| 0 <= t < n ==> known_structures(m[#[trigger] neighbour(pos, t)].structures),
    ensures
        known_structures(neighbour_structures(m, pos, n)),
    decreases n,
{
    if n > 0 {
        lemma_neighbours_known(m, pos, n - 1);
        let a = neighbour_structures(m, pos, n - 1);
        let b = m[neighbour(pos, n - 1)].structures;
        assert(known_structures(b));
        assert forall|i: int| 0 <= i < (a + b).len() implies known_blocks(#[trigger] (a + b)[i].blocks) by {
            if i < a.len() {
                assert((a + b)[i] == a[i]);
            } else {
                assert((a + b)[i] == b[i - a.len()]);
            }
        }
    }
}

/// Pre-generation adds only placed structures, which are of known types.
proof fn lemma_pregenerated_known(a: ChunkView, b: ChunkView, pos: (i32, i32, i32), sf: Surface)
    requires
        pregenerated_from(a, b, pos, sf),
        known_structures(a.structures),
    ensures
        known_structures(b.structures),
        b.blocks == a.blocks,
        b.externals == a.externals,
{
    if !a.structers_pre_generated {
        assert forall|i: int| 0 <= i < b.structures.len() implies known_blocks(#[trigger] b.structures[i].blocks) by {
            if i < a.structures.len() {
                assert(b.structures.subrange(0, a.structures.len() as int)[i] == b.structures[i]);
            } else {
                assert(placed_structure(b.structures[i], pos, sf));
                let index = choose|index: i32| 0 <= index < 8 && b.structures[i].blocks == #[trigger] indexed_blocks(index);
                lemma_indexed_known(index);
            }
        }
    }
}

/// Terrain filling puts only known block types in a table of known types.
proof fn lemma_terrain_known(old: Seq<i16>, t: Seq<i16>, pos: (i32, i32, i32), es: Seq<i32>, sf: Surface)
    requires
        old.len() == 4096,
        known_table(old),
        terrain_filled(old, t, pos, es, sf),
    ensures
        known_table(t),
{
    assert forall|i: int| 0 <= i < t.len() implies known_block(#[trigger] t[i]) by {
        assert(terrain_cell_at(old, t, pos, es, i, sf));
        assert(known_block(old[i]));
        let x = i / 256;
        let y = (i / 16) % 16;
        let z = i % 16;
        let xw = crate::chunk::chunk_origin(pos.0) + x;
        let yw = crate::chunk::chunk_origin(pos.1) + y;
        let zw = crate::chunk::chunk_origin(pos.2) + z;
        let e = es[x * 16 + z] as int;
        if t[i] != old[i] {
            assert(terrain_cell(old[i], t[i], xw, yw, zw, e, sf));
            let (g, r1, r2, r3) = choose|g: bool, r1: int, r2: int, r3: int|
                0 <= r1 < 100 && 0 <= r2 < 100 && 0 <= r3 < 100 && #[trigger] column_block(yw, e, g, r1, r2, r3) == Some(t[i]);
            assert(column_block(yw, e, g, r1, r2, r3) == Some(t[i]));
        }
    }
}

/// The blocks of a generated chunk after terrain and structures are of known types.
proof fn lemma_generated_blocks_known(c0: ChunkView, c2: ChunkView, pos: (i32, i32, i32), sf: Surface)
    requires
        c0.blocks.len() == 4096,
        known_table(c0.blocks),
        known_structures(c2.structures),
        known_structures(c2.externals),
        pos.1 > 5 ==> c2.blocks == c0.blocks,
        pos.1 <= 5 ==> exists|t: Seq<i16>, es: Seq<i32>|
            #[trigger] terrain_filled(c0.blocks, t, pos, es, sf) && c2.blocks == painted(
                painted(t, c2.structures, pos),
                c2.externals,
                pos,
            ),
    ensures
        known_table(c2.blocks),
{
    if pos.1 <= 5 {
        let (t, es) = choose|t: Seq<i16>, es: Seq<i32>|
            #[trigger] terrain_filled(c0.blocks, t, pos, es, sf) && c2.blocks == painted(
                painted(t, c2.structures, pos),
                c2.externals,
                pos,
            );
        lemma_terrain_known(c0.blocks, t, pos, es, sf);
        lemma_paint_known(t, c2.structures, pos, c2.structures.len() as int);
        lemma_paint_known(painted(t, c2.structures, pos), c2.externals, pos, c2.externals.len() as int);
    }
}

/// Generation keeps the block types known: given a table whose blocks and structures are
/// all of the 14 block types, every chunk holds blocks of those types after generating a
/// chunk (so a block type always indexes the colour and material tables).
pub proof fn law_generation_keeps_block_types(m1: Map<(i32, i32, i32), ChunkView>, m2: Map<(i32, i32, i32), ChunkView>, pos: (i32, i32, i32), sf: Surface)
    requires
        crate::world_generator::table_wf(m1),
        block_types_known(m1),
        !with_chunk(m1, pos)[pos].generated ==> ring_ok(pos),
        generated_from(m1, m2, pos, sf),
    ensures
        block_types_known(m2),
{
    let m0 = with_chunk(m1, pos);
    let c0 = m0[pos];
    assert(block_types_known(m0)) by {
        if !m1.contains_key(pos) {
            assert forall|k: (i32, i32, i32)| #[trigger] m0.contains_key(k) implies {
                &&& known_table(m0[k].blocks)
                &&& known_structures(m0[k].structures)
                &&& known_structures(m0[k].externals)
            } by {
                if k == pos {
                    assert(m0[k] == fresh_chunk(pos));
                } else {
                    assert(m1.contains_key(k));
                }
            }
        }
    }
    assert(m0.contains_key(pos));
    assert(c0.blocks.len() == 4096) by {
        if m1.contains_key(pos) {
            assert(crate::world_generator::chunk_wf(m1[pos], pos));
        }
    }
    let ma = m0.insert(pos, crate::chunk::with_generated(c0));
    let m2r = m2.insert(pos, crate::chunk::with_blocks(m2[pos], c0.blocks));
    if c0.generated {
        assert(m2 == m0);
    } else if c0.structres_generated {
        assert(m2r == ma);
        assert(m2r[pos] == ma[pos]);
        lemma_generated_blocks_known(c0, m2[pos], pos, sf);
        assert forall|k: (i32, i32, i32)| #[trigger] m2.contains_key(k) implies {
            &&& known_table(m2[k].blocks)
            &&& known_structures(m2[k].structures)
            &&& known_structures(m2[k].externals)
        } by {
            assert(m2r.contains_key(k));
            if k != pos {
                assert(m2r[k] == ma[k]);
                assert(m0.contains_key(k));
            }
        }
    } else {
        assert(external_pregenerated(ma, m2r, pos, sf));
        assert forall|k: (i32, i32, i32)| #[trigger] in_ring(k, pos) implies {
            &&& m2.contains_key(k)
            &&& known_table(m2[k].blocks)
            &&& known_structures(m2[k].structures)
            &&& known_structures(m2[k].externals)
        } by {
            assert(k != pos);
            assert(m2r.contains_key(k));
            assert(m2r[k] == m2[k]);
            let p = prior(ma, k);
            if ma.contains_key(k) {
                assert(ma[k] == m0[k]);
                assert(m0.contains_key(k));
            } else {
                assert(p == fresh_chunk(k));
            }
            assert(pregenerated_from(p, m2r[k], k, sf));
            lemma_pregenerated_known(p, m2r[k], k, sf);
        }
        assert forall|t: int| 0 <= t < 26 implies known_structures(m2r[#[trigger] neighbour(pos, t)].structures) by {
            lemma_neighbour(pos, t);
            assert(m2r[neighbour(pos, t)] == m2[neighbour(pos, t)]);
        }
        lemma_neighbours_known(m2r, pos, 26);
        assert(m2[pos].externals == m2r[pos].externals);
        let a = crate::chunk::with_externals(ma[pos], ma[pos].externals, true);
        let b = crate::chunk::with_externals(m2r[pos], ma[pos].externals, true);
        assert(pregenerated_from(a, b, pos, sf));
        lemma_pregenerated_known(a, b, pos, sf);
        assert(m2[pos].structures == b.structures);
        lemma_generated_blocks_known(c0, m2[pos], pos, sf);
        assert forall|k: (i32, i32, i32)| #[trigger] m2.contains_key(k) implies {
            &&& known_table(m2[k].blocks)
            &&& known_structures(m2[k].structures)
            &&& known_structures(m2[k].externals)
        } by {
            if k != pos && !in_ring(k, pos) {
                assert(m2r.contains_key(k));
                assert(ma.contains_key(k));
                assert(m2r[k] == ma[k]);
                assert(m0.contains_key(k));
            }
        }
    }
}

} // verus!
