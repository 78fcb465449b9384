use vstd::prelude::*;

use crate::chunk::ChunkView;
use crate::chunk_table::block_at;
use crate::world_generator::{ao_corner, ao_layer_active, ao_mask, b2i, face_mask, solid};

verus! {

/// The offset from a block to its neighbour on side `k` of a face mask, `lod` blocks
/// away: up, down, +x, -x, +z, -z.
pub open spec fn side_offset(k: int, lod: int) -> (int, int, int) {
    if k == 0 {
        (0, lod, 0)
    } else if k == 1 {
        (0, -lod, 0)
    } else if k == 2 {
        (lod, 0, 0)
    } else if k == 3 {
        (-lod, 0, 0)
    } else if k == 4 {
        (0, 0, lod)
    } else {
        (0, 0, -lod)
    }
}

proof fn lemma_six_bits(b0: bool, b1: bool, b2: bool, b3: bool, b4: bool, b5: bool, v: u8)
    requires
        v == (63 - b2i(b0) - 2 * b2i(b1) - 4 * b2i(b2) - 8 * b2i(b3) - 16 * b2i(b4) - 32 * b2i(b5)) as u8,
    ensures
        (v & 1 == 0) == b0,
        (v & 2 == 0) == b1,
        (v & 4 == 0) == b2,
        (v & 8 == 0) == b3,
        (v & 16 == 0) == b4,
        (v & 32 == 0) == b5,
        v & 64 == 0,
        v & 128 == 0,
{
    let c0: u8 = if b0 { 1 } else { 0 };
    let c1: u8 = if b1 { 2 } else { 0 };
    let c2: u8 = if b2 { 4 } else { 0 };
    let c3: u8 = if b3 { 8 } else { 0 };
    let c4: u8 = if b4 { 16 } else { 0 };
    let c5: u8 = if b5 { 32 } else { 0 };
    assert(v == 63u8 - c0 - c1 - c2 - c3 - c4 - c5);
    assert({
        &&& (v & 1 == 0) == (c0 == 1)
        &&& (v & 2 == 0) == (c1 == 2)
        &&& (v & 4 == 0) == (c2 == 4)
        &&& (v & 8 == 0) == (c3 == 8)
        &&& (v & 16 == 0) == (c4 == 16)
        &&& (v & 32 == 0) == (c5 == 32)
        &&& v & 64 == 0
        &&& v & 128 == 0
    }) by (bit_vector)
        requires
            v == 63u8 - c0 - c1 - c2 - c3 - c4 - c5,
            c0 == 0 || c0 == 1,
            c1 == 0 || c1 == 2,
            c2 == 0 || c2 == 4,
            c3 == 0 || c3 == 8,
            c4 == 0 || c4 == 16,
            c5 == 0 || c5 == 32,
    ;
}

/// The face mask of a block says which of its faces are hidden: an air block hides all
/// six; for a solid block, the bit of side `k` is clear exactly when the block `lod` away
/// on that side is air, so that face is drawn.
pub proof fn law_face_mask_bits(m: Map<(i32, i32, i32), ChunkView>, pos: (i32, i32, i32), x: int, y: int, z: int, lod: i32, k: int)
    requires
        0 <= k < 6,
    ensures
        block_at(m, pos, (x as i32, y as i32, z as i32)) == 0 ==> face_mask(m, pos, x, y, z, lod) == 63,
        block_at(m, pos, (x as i32, y as i32, z as i32)) != 0 ==> {
            let d = side_offset(k, lod as int);
            (face_mask(m, pos, x, y, z, lod) & (1u8 << (k as u8)) == 0) == !solid(m, pos, x + d.0, y + d.1, z + d.2)
        },
        face_mask(m, pos, x, y, z, lod) < 64,
{
    let l = lod as int;
    let b0 = !solid(m, pos, x, y + l, z);
    let b1 = !solid(m, pos, x, y - l, z);
    let b2 = !solid(m, pos, x + l, y, z);
    let b3 = !solid(m, pos, x - l, y, z);
    let b4 = !solid(m, pos, x, y, z + l);
    let b5 = !solid(m, pos, x, y, z - l);
    let v = face_mask(m, pos, x, y, z, lod);
    if block_at(m, pos, (x as i32, y as i32, z as i32)) != 0 {
        lemma_six_bits(b0, b1, b2, b3, b4, b5, v);
        assert(1u8 << 0u8 == 1 && 1u8 << 1u8 == 2 && 1u8 << 2u8 == 4 && 1u8 << 3u8 == 8 && 1u8 << 4u8 == 16 && 1u8 << 5u8 == 32)
            by (bit_vector);
        assert(v & 64 == 0 && v & 128 == 0 ==> v < 64) by (bit_vector);
    }
}

proof fn lemma_eight_bits(b: Seq<bool>, v: u8)
    requires
        b.len() == 8,
        v == (b2i(b[0]) + 2 * b2i(b[1]) + 4 * b2i(b[2]) + 8 * b2i(b[3]) + 16 * b2i(b[4]) + 32 * b2i(b[5]) + 64 * b2i(b[6])
            + 128 * b2i(b[7])) as u8,
    ensures
        forall|k: int| 0 <= k < 8 ==> (v & (1u8 << (k as u8)) != 0) == #[trigger] b[k],
{
    let c0: u8 = if b[0] { 1 } else { 0 };
    let c1: u8 = if b[1] { 2 } else { 0 };
    let c2: u8 = if b[2] { 4 } else { 0 };
    let c3: u8 = if b[3] { 8 } else { 0 };
    let c4: u8 = if b[4] { 16 } else { 0 };
    let c5: u8 = if b[5] { 32 } else { 0 };
    let c6: u8 = if b[6] { 64 } else { 0 };
    let c7: u8 = if b[7] { 128 } else { 0 };
    assert(v == c0 + c1 + c2 + c3 + c4 + c5 + c6 + c7);
    assert({
        &&& (v & (1u8 << 0u8) != 0) == (c0 == 1)
        &&& (v & (1u8 << 1u8) != 0) == (c1 == 2)
        &&& (v & (1u8 << 2u8) != 0) == (c2 == 4)
        &&& (v & (1u8 << 3u8) != 0) == (c3 == 8)
        &&& (v & (1u8 << 4u8) != 0) == (c4 == 16)
        &&& (v & (1u8 << 5u8) != 0) == (c5 == 32)
        &&& (v & (1u8 << 6u8) != 0) == (c6 == 64)
        &&& (v & (1u8 << 7u8) != 0) == (c7 == 128)
    }) by (bit_vector)
        requires
            v == c0 + c1 + c2 + c3 + c4 + c5 + c6 + c7,
            c0 == 0 || c0 == 1,
            c1 == 0 || c1 == 2,
            c2 == 0 || c2 == 4,
            c3 == 0 || c3 == 8,
            c4 == 0 || c4 == 16,
            c5 == 0 || c5 == 32,
            c6 == 0 || c6 == 64,
            c7 == 0 || c7 == 128,
    ;
    assert forall|k: int| 0 <= k < 8 implies (v & (1u8 << (k as u8)) != 0) == #[trigger] b[k] by {
        if k == 0 {
        } else if k == 1 {
        } else if k == 2 {
        } else if k == 3 {
        } else if k == 4 {
        } else if k == 5 {
        } else if k == 6 {
        } else {
        }
    }
}

/// The occlusion mask of a block has bit `k` set exactly when corner `k` of the layer
/// above it is shaded, and bit `4 + k` exactly when corner `k` of the layer below is.
pub proof fn law_ao_mask_bits(m: Map<(i32, i32, i32), ChunkView>, pos: (i32, i32, i32), x: int, y: int, z: int, k: int)
    requires
        0 <= k < 4,
    ensures
        (ao_mask(m, pos, x, y, z) & (1u8 << (k as u8)) != 0) == ao_corner(m, pos, x, y, z, 1, k),
        (ao_mask(m, pos, x, y, z) & (1u8 << ((4 + k) as u8)) != 0) == ao_corner(m, pos, x, y, z, -1, k),
{
    let b = seq![
        ao_corner(m, pos, x, y, z, 1, 0),
        ao_corner(m, pos, x, y, z, 1, 1),
        ao_corner(m, pos, x, y, z, 1, 2),
        ao_corner(m, pos, x, y, z, 1, 3),
        ao_corner(m, pos, x, y, z, -1, 0),
        ao_corner(m, pos, x, y, z, -1, 1),
        ao_corner(m, pos, x, y, z, -1, 2),
        ao_corner(m, pos, x, y, z, -1, 3),
    ];
    lemma_eight_bits(b, ao_mask(m, pos, x, y, z));
    assert(b[k] == ao_corner(m, pos, x, y, z, 1, k));
    assert(b[4 + k] == ao_corner(m, pos, x, y, z, -1, k));
}

/// Which corners the occlusion mask of block `(x, y, z)` shades, by the blocks on each
/// corner's own side. Bits 0 to 3 are the corners of the top face, at `(-x, -z)`,
/// `(+x, -z)`, `(+x, +z)` and `(-x, +z)`: with the top open, a corner is shaded when any
/// of the three blocks next to it in the layer above is solid (the two beside it and the
/// one across it). Bits 4 to 7 are the same corners of the layer below: shaded when both
/// blocks beside the corner there are solid.
pub proof fn law_ao_corner_sides(m: Map<(i32, i32, i32), ChunkView>, pos: (i32, i32, i32), x: int, y: int, z: int)
    ensures
        ({
            let a = ao_mask(m, pos, x, y, z);
            let up = ao_layer_active(m, pos, x, y, z, 1);
            let down = ao_layer_active(m, pos, x, y, z, -1);
            &&& (a & 1u8 != 0) == (up && (solid(m, pos, x - 1, y + 1, z) || solid(m, pos, x, y + 1, z - 1) || solid(m, pos, x - 1, y + 1, z - 1)))
            &&& (a & 2u8 != 0) == (up && (solid(m, pos, x + 1, y + 1, z) || solid(m, pos, x, y + 1, z - 1) || solid(m, pos, x + 1, y + 1, z - 1)))
            &&& (a & 4u8 != 0) == (up && (solid(m, pos, x + 1, y + 1, z) || solid(m, pos, x, y + 1, z + 1) || solid(m, pos, x + 1, y + 1, z + 1)))
            &&& (a & 8u8 != 0) == (up && (solid(m, pos, x - 1, y + 1, z) || solid(m, pos, x, y + 1, z + 1) || solid(m, pos, x - 1, y + 1, z + 1)))
            &&& (a & 16u8 != 0) == (down && solid(m, pos, x - 1, y - 1, z) && solid(m, pos, x, y - 1, z - 1))
            &&& (a & 32u8 != 0) == (down && solid(m, pos, x + 1, y - 1, z) && solid(m, pos, x, y - 1, z - 1))
            &&& (a & 64u8 != 0) == (down && solid(m, pos, x + 1, y - 1, z) && solid(m, pos, x, y - 1, z + 1))
            &&& (a & 128u8 != 0) == (down && solid(m, pos, x - 1, y - 1, z) && solid(m, pos, x, y - 1, z + 1))
        }),
{
    assert(1u8 << 0u8 == 1u8 && 1u8 << 1u8 == 2u8 && 1u8 << 2u8 == 4u8 && 1u8 << 3u8 == 8u8) by (bit_vector);
    assert(1u8 << 4u8 == 16u8 && 1u8 << 5u8 == 32u8 && 1u8 << 6u8 == 64u8 && 1u8 << 7u8 == 128u8) by (bit_vector);
    law_ao_mask_bits(m, pos, x, y, z, 0);
    law_ao_mask_bits(m, pos, x, y, z, 1);
    law_ao_mask_bits(m, pos, x, y, z, 2);
    law_ao_mask_bits(m, pos, x, y, z, 3);
    assert(4 + 0 == 4 && 4 + 1 == 5 && 4 + 2 == 6 && 4 + 3 == 7);
}

} // verus!
