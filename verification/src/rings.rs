use vstd::prelude::*;

use crate::chunk::{fresh_chunk, ChunkView};
use crate::chunk_table::{as_pos, chunk_of, target_chunk, with_chunk};
use crate::coords::in_i32;
use crate::world_generator::{aot_from, external_pregenerated, faces_from, Surface, generated_from, in_ring, readable_at, six_generated};

verus! {

/// What chunk generation keeps true of the chunk map: every generated chunk had the
/// structures of its neighbours gathered, and every chunk that had them gathered has all
/// 26 neighbours in the map.
pub open spec fn rings_closed(m: Map<(i32, i32, i32), ChunkView>) -> bool {
    &&& forall|k: (i32, i32, i32)| #[trigger] m.contains_key(k) && m[k].generated ==> m[k].structres_generated
    &&& forall|k: (i32, i32, i32), r: (i32, i32, i32)| #![trigger m.contains_key(k), in_ring(r, k)]
        m.contains_key(k) && m[k].structres_generated && in_ring(r, k) ==> m.contains_key(r)
}

/// Replacing a chunk by one with the same generation flags keeps the rings closed.
pub proof fn lemma_rings_insert(m: Map<(i32, i32, i32), ChunkView>, k: (i32, i32, i32), c: ChunkView)
    requires
        rings_closed(m),
        m.contains_key(k),
        c.generated == m[k].generated,
        c.structres_generated == m[k].structres_generated,
    ensures
        rings_closed(m.insert(k, c)),
{
    let m2 = m.insert(k, c);
    assert forall|q: (i32, i32, i32), r: (i32, i32, i32)| #![trigger m2.contains_key(q), in_ring(r, q)]
        m2.contains_key(q) && m2[q].structres_generated && in_ring(r, q) implies m2.contains_key(r) by {
        assert(m.contains_key(q) && m[q].structres_generated);
    }
}

/// Adding a fresh chunk keeps the rings closed.
pub proof fn lemma_rings_with_chunk(m: Map<(i32, i32, i32), ChunkView>, p: (i32, i32, i32))
    requires
        rings_closed(m),
    ensures
        rings_closed(with_chunk(m, p)),
{
    let m2 = with_chunk(m, p);
    assert forall|q: (i32, i32, i32), r: (i32, i32, i32)| #![trigger m2.contains_key(q), in_ring(r, q)]
        m2.contains_key(q) && m2[q].structres_generated && in_ring(r, q) implies m2.contains_key(r) by {
        if !m.contains_key(p) && q == p {
            assert(m2[q] == fresh_chunk(p));
        } else {
            assert(m.contains_key(q) && m[q].structres_generated);
        }
    }
}

/// Generating a chunk keeps the rings closed, leaves the chunk generated, and keeps the
/// generation flag of every other chunk.
pub proof fn lemma_generated_rings(m1: Map<(i32, i32, i32), ChunkView>, m2: Map<(i32, i32, i32), ChunkView>, pos: (i32, i32, i32), sf: Surface)
    requires
        rings_closed(m1),
        generated_from(m1, m2, pos, sf),
    ensures
        rings_closed(m2),
        m2.contains_key(pos),
        m2[pos].generated,
        forall|k: (i32, i32, i32)| #[trigger] m1.contains_key(k) ==> m2.contains_key(k),
        forall|k: (i32, i32, i32)| #[trigger] m1.contains_key(k) && k != pos ==> m2[k].generated == m1[k].generated,
{
    let m0 = with_chunk(m1, pos);
    let c0 = m0[pos];
    let ma = m0.insert(pos, crate::chunk::with_generated(c0));
    let m2r = m2.insert(pos, crate::chunk::with_blocks(m2[pos], c0.blocks));
    if c0.generated {
        assert(m1.contains_key(pos));
        assert(m0 == m1);
    } else if c0.structres_generated {
        assert(m1.contains_key(pos));
        assert(m0 == m1);
        assert(m2r == ma);
        assert forall|k: (i32, i32, i32)| #[trigger] m2.contains_key(k) <==> m1.contains_key(k) by {
            assert(m2r.contains_key(k) == ma.contains_key(k));
        }
        assert forall|k: (i32, i32, i32)| k != pos && #[trigger] m1.contains_key(k) implies m2[k] == m1[k] by {
            assert(m2r[k] == ma[k]);
        }
        assert(m2r[pos] == ma[pos]);
        assert forall|k: (i32, i32, i32)| #[trigger] m2.contains_key(k) && m2[k].generated implies m2[k].structres_generated by {
            if k != pos {
                assert(m1.contains_key(k));
            }
        }
        assert forall|k: (i32, i32, i32), r: (i32, i32, i32)| #![trigger m2.contains_key(k), in_ring(r, k)]
            m2.contains_key(k) && m2[k].structres_generated && in_ring(r, k) implies m2.contains_key(r) by {
            assert(m1.contains_key(k));
            assert(m1[k].structres_generated);
            assert(m1.contains_key(r));
        }
    } else {
        assert(external_pregenerated(ma, m2r, pos, sf));
        assert(m2r[pos].generated == m2[pos].generated);
        assert forall|k: (i32, i32, i32)| #[trigger] m2.contains_key(k) <==> (ma.contains_key(k) || in_ring(k, pos)) by {
            assert(m2r.contains_key(k) == m2.contains_key(k));
        }
        assert forall|k: (i32, i32, i32)| k != pos && #[trigger] m1.contains_key(k) && !in_ring(k, pos) implies m2[k] == m1[k] by {
            assert(ma.contains_key(k));
            assert(m2r[k] == ma[k]);
        }
        assert forall|k: (i32, i32, i32)| #[trigger] in_ring(k, pos) implies {
            &&& m2[k].generated == (m1.contains_key(k) && m1[k].generated)
            &&& m2[k].structres_generated == (m1.contains_key(k) && m1[k].structres_generated)
        } by {
            assert(k != pos);
            assert(m2r[k] == m2[k]);
            if m1.contains_key(k) {
                assert(ma.contains_key(k) && ma[k] == m1[k]);
            } else {
                assert(!ma.contains_key(k));
            }
        }
        assert forall|k: (i32, i32, i32)| #[trigger] m2.contains_key(k) && m2[k].generated implies m2[k].structres_generated by {
            if k != pos && !in_ring(k, pos) {
                assert(m1.contains_key(k));
            }
        }
        assert forall|k: (i32, i32, i32), r: (i32, i32, i32)| #![trigger m2.contains_key(k), in_ring(r, k)]
            m2.contains_key(k) && m2[k].structres_generated && in_ring(r, k) implies m2.contains_key(r) by {
            if k != pos {
                assert(m1.contains_key(k));
                assert(m1[k].structres_generated);
                assert(m1.contains_key(r));
            }
        }
    }
}

/// Computing a chunk's faces keeps the rings closed and its generation flag.
pub proof fn lemma_faces_rings(m1: Map<(i32, i32, i32), ChunkView>, m2: Map<(i32, i32, i32), ChunkView>, pos: (i32, i32, i32), lod: i32, sf: Surface)
    requires
        rings_closed(m1),
        m1.contains_key(pos),
        faces_from(m1, m2, pos, lod, sf),
        in_i32(pos.0 - 1) && in_i32(pos.0 + 1),
        in_i32(pos.1 - 1) && in_i32(pos.1 + 1),
        in_i32(pos.2 - 1) && in_i32(pos.2 + 1),
    ensures
        rings_closed(m2),
        m2.contains_key(pos),
        m2[pos].generated == m1[pos].generated,
        m2[pos].structres_generated || !m1[pos].generated,
{
    if !m1[pos].faces_calculated {
        let mg = choose|mg: Map<(i32, i32, i32), ChunkView>|
            six_generated(m1.insert(pos, crate::chunk::with_faces_flag(m1[pos])), mg, pos, sf) && m2 == #[trigger] mg.insert(
                pos,
                crate::chunk::with_faces(mg[pos], crate::world_generator::face_table(mg, pos, lod)),
            );
        let m0 = m1.insert(pos, crate::chunk::with_faces_flag(m1[pos]));
        lemma_rings_insert(m1, pos, crate::chunk::with_faces_flag(m1[pos]));
        let (a, b, c, d, e) = choose|a: Map<(i32, i32, i32), ChunkView>, b: Map<(i32, i32, i32), ChunkView>, c: Map<(i32, i32, i32), ChunkView>,
            d: Map<(i32, i32, i32), ChunkView>, e: Map<(i32, i32, i32), ChunkView>|
            #[trigger] generated_from(m0, a, (pos.0, (pos.1 + 1) as i32, pos.2), sf)
            && #[trigger] generated_from(a, b, (pos.0, (pos.1 - 1) as i32, pos.2), sf)
            && #[trigger] generated_from(b, c, (pos.0, pos.1, (pos.2 - 1) as i32), sf)
            && #[trigger] generated_from(c, d, (pos.0, pos.1, (pos.2 + 1) as i32), sf)
            && #[trigger] generated_from(d, e, ((pos.0 + 1) as i32, pos.1, pos.2), sf)
            && #[trigger] generated_from(e, mg, ((pos.0 - 1) as i32, pos.1, pos.2), sf);
        lemma_generated_rings(m0, a, (pos.0, (pos.1 + 1) as i32, pos.2), sf);
        lemma_generated_rings(a, b, (pos.0, (pos.1 - 1) as i32, pos.2), sf);
        lemma_generated_rings(b, c, (pos.0, pos.1, (pos.2 - 1) as i32), sf);
        lemma_generated_rings(c, d, (pos.0, pos.1, (pos.2 + 1) as i32), sf);
        lemma_generated_rings(d, e, ((pos.0 + 1) as i32, pos.1, pos.2), sf);
        lemma_generated_rings(e, mg, ((pos.0 - 1) as i32, pos.1, pos.2), sf);
        assert(m0.contains_key(pos));
        assert(mg.contains_key(pos));
        assert(mg[pos].generated == m1[pos].generated);
        lemma_rings_insert(mg, pos, crate::chunk::with_faces(mg[pos], crate::world_generator::face_table(mg, pos, lod)));
    }
}

/// The flags that chunk generation leaves alone: spawned, faces computed, masks computed.
pub open spec fn same_flags(a: ChunkView, b: ChunkView) -> bool {
    &&& a.spawned == b.spawned
    &&& a.faces_calculated == b.faces_calculated
    &&& a.aot_calculated == b.aot_calculated
}

/// Generating a chunk keeps every chunk of the map, with its spawned, faces and masks
/// flags, and leaves the chunk generated.
pub proof fn lemma_generated_keeps_spawned(m1: Map<(i32, i32, i32), ChunkView>, m2: Map<(i32, i32, i32), ChunkView>, pos: (i32, i32, i32), sf: Surface)
    requires
        generated_from(m1, m2, pos, sf),
    ensures
        forall|k: (i32, i32, i32)| #[trigger] m1.contains_key(k) ==> m2.contains_key(k) && same_flags(m1[k], m2[k]),
        m2.contains_key(pos),
        m2[pos].generated,
        same_flags(with_chunk(m1, pos)[pos], m2[pos]),
{
    let m0 = with_chunk(m1, pos);
    let c0 = m0[pos];
    let ma = m0.insert(pos, crate::chunk::with_generated(c0));
    let m2r = m2.insert(pos, crate::chunk::with_blocks(m2[pos], c0.blocks));
    if c0.generated {
        assert(m1.contains_key(pos));
        assert(m0 == m1);
    } else if c0.structres_generated {
        assert(m2r == ma);
        assert(m2r[pos] == ma[pos]);
        assert forall|k: (i32, i32, i32)| #[trigger] m1.contains_key(k) implies m2.contains_key(k) && same_flags(m1[k], m2[k]) by {
            assert(ma.contains_key(k));
            assert(m2r.contains_key(k));
            if k != pos {
                assert(m2r[k] == ma[k]);
            } else {
                assert(m2r[pos] == ma[pos]);
            }
        }
    } else {
        assert(external_pregenerated(ma, m2r, pos, sf));
        assert(same_flags(m2r[pos], m2[pos]) && m2r[pos].generated == m2[pos].generated);
        assert forall|k: (i32, i32, i32)| #[trigger] m1.contains_key(k) implies m2.contains_key(k) && same_flags(m1[k], m2[k]) by {
            assert(ma.contains_key(k));
            assert(m2r.contains_key(k));
            if k == pos {
            } else if in_ring(k, pos) {
                assert(m2r[k] == m2[k]);
                assert(ma[k] == m1[k]);
            } else {
                assert(m2r[k] == ma[k]);
            }
        }
    }
}

/// Computing a chunk's faces keeps every chunk of the map, every spawned chunk spawned,
/// and leaves the chunk's faces computed.
pub proof fn lemma_faces_keeps_spawned(m1: Map<(i32, i32, i32), ChunkView>, m2: Map<(i32, i32, i32), ChunkView>, pos: (i32, i32, i32), lod: i32, sf: Surface)
    requires
        m1.contains_key(pos),
        faces_from(m1, m2, pos, lod, sf),
    ensures
        forall|k: (i32, i32, i32)| #[trigger] m1.contains_key(k) ==> m2.contains_key(k) && (m1[k].spawned ==> m2[k].spawned),
        m2.contains_key(pos),
        m2[pos].faces_calculated,
{
    if !m1[pos].faces_calculated {
        let mg = choose|mg: Map<(i32, i32, i32), ChunkView>|
            six_generated(m1.insert(pos, crate::chunk::with_faces_flag(m1[pos])), mg, pos, sf) && m2 == #[trigger] mg.insert(
                pos,
                crate::chunk::with_faces(mg[pos], crate::world_generator::face_table(mg, pos, lod)),
            );
        let m0 = m1.insert(pos, crate::chunk::with_faces_flag(m1[pos]));
        let (a, b, c, d, e) = choose|a: Map<(i32, i32, i32), ChunkView>, b: Map<(i32, i32, i32), ChunkView>, c: Map<(i32, i32, i32), ChunkView>,
            d: Map<(i32, i32, i32), ChunkView>, e: Map<(i32, i32, i32), ChunkView>|
            #[trigger] generated_from(m0, a, (pos.0, (pos.1 + 1) as i32, pos.2), sf)
            && #[trigger] generated_from(a, b, (pos.0, (pos.1 - 1) as i32, pos.2), sf)
            && #[trigger] generated_from(b, c, (pos.0, pos.1, (pos.2 - 1) as i32), sf)
            && #[trigger] generated_from(c, d, (pos.0, pos.1, (pos.2 + 1) as i32), sf)
            && #[trigger] generated_from(d, e, ((pos.0 + 1) as i32, pos.1, pos.2), sf)
            && #[trigger] generated_from(e, mg, ((pos.0 - 1) as i32, pos.1, pos.2), sf);
        lemma_generated_keeps_spawned(m0, a, (pos.0, (pos.1 + 1) as i32, pos.2), sf);
        lemma_generated_keeps_spawned(a, b, (pos.0, (pos.1 - 1) as i32, pos.2), sf);
        lemma_generated_keeps_spawned(b, c, (pos.0, pos.1, (pos.2 - 1) as i32), sf);
        lemma_generated_keeps_spawned(c, d, (pos.0, pos.1, (pos.2 + 1) as i32), sf);
        lemma_generated_keeps_spawned(d, e, ((pos.0 + 1) as i32, pos.1, pos.2), sf);
        lemma_generated_keeps_spawned(e, mg, ((pos.0 - 1) as i32, pos.1, pos.2), sf);
        assert(m0.contains_key(pos) && a.contains_key(pos) && b.contains_key(pos) && c.contains_key(pos) && d.contains_key(pos)
            && e.contains_key(pos) && mg.contains_key(pos));
        assert(mg[pos].faces_calculated);
        assert forall|k: (i32, i32, i32)| #[trigger] m1.contains_key(k) implies m2.contains_key(k) && (m1[k].spawned ==> m2[k].spawned) by {
            assert(m0.contains_key(k));
            assert(a.contains_key(k));
            assert(b.contains_key(k));
            assert(c.contains_key(k));
            assert(d.contains_key(k));
            assert(e.contains_key(k));
            assert(mg.contains_key(k));
        }
    }
}

/// Around a chunk whose neighbours are all in the map, every block within one block of
/// the chunk can be read.
pub proof fn lemma_ring_readable(m: Map<(i32, i32, i32), ChunkView>, p: (i32, i32, i32), x: int, y: int, z: int)
    requires
        rings_closed(m),
        m.contains_key(p),
        m[p].structres_generated,
        in_i32(p.0 - 1) && in_i32(p.0 + 1),
        in_i32(p.1 - 1) && in_i32(p.1 + 1),
        in_i32(p.2 - 1) && in_i32(p.2 + 1),
        -1 <= x <= 16,
        -1 <= y <= 16,
        -1 <= z <= 16,
    ensures
        readable_at(m, p, x, y, z),
{
    let offset = (x as i32, y as i32, z as i32);
    let t = target_chunk(p, offset);
    assert(-1 <= chunk_of(x) <= 1 && -1 <= chunk_of(y) <= 1 && -1 <= chunk_of(z) <= 1);
    let q = as_pos(t);
    if q != p {
        assert(in_ring(q, p));
    }
}

/// Generating a chunk a second time changes nothing.
pub proof fn law_generate_once(
    m1: Map<(i32, i32, i32), ChunkView>,
    m2: Map<(i32, i32, i32), ChunkView>,
    m3: Map<(i32, i32, i32), ChunkView>,
    pos: (i32, i32, i32),
    sf: Surface,
)
    requires
        generated_from(m1, m2, pos, sf),
        generated_from(m2, m3, pos, sf),
    ensures
        m3 == m2,
{
    lemma_generated_keeps_spawned(m1, m2, pos, sf);
    assert(with_chunk(m2, pos) == m2);
}

/// Computing a chunk's faces a second time changes nothing, whatever the level of detail.
pub proof fn law_faces_once(
    m1: Map<(i32, i32, i32), ChunkView>,
    m2: Map<(i32, i32, i32), ChunkView>,
    m3: Map<(i32, i32, i32), ChunkView>,
    pos: (i32, i32, i32),
    lod: i32,
    lod2: i32,
    sf: Surface,
)
    requires
        m1.contains_key(pos),
        faces_from(m1, m2, pos, lod, sf),
        faces_from(m2, m3, pos, lod2, sf),
    ensures
        m3 == m2,
{
    lemma_faces_keeps_spawned(m1, m2, pos, lod, sf);
}

/// Computing a chunk's occlusion masks a second time changes nothing.
pub proof fn law_ao_once(
    m1: Map<(i32, i32, i32), ChunkView>,
    m2: Map<(i32, i32, i32), ChunkView>,
    m3: Map<(i32, i32, i32), ChunkView>,
    pos: (i32, i32, i32),
)
    requires
        m1.contains_key(pos),
        aot_from(m1, m2, pos),
        aot_from(m2, m3, pos),
    ensures
        m3 == m2,
{
}

} // verus!
