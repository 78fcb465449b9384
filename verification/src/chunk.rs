use vstd::prelude::*;

use crate::coords::{in_i32, wrap_i32};
use crate::world_structure::{StructureSpec, WorldStructure};

verus! {

pub const CHUNK_SIZE: usize = 16;
pub const CHUNK_SHIFT: i32 = 4;

pub const CHUNK_SIZE_2: usize = CHUNK_SIZE * CHUNK_SIZE;
pub const CHUNK_SIZE_3: usize = CHUNK_SIZE * CHUNK_SIZE * CHUNK_SIZE;
pub const CHUNK_SHIFT_2: i32 = CHUNK_SHIFT * 2;

/// A greedy-meshed rectangle: its corner `(x, y, z)` and its extents minus one.
pub type Rect = (i32, i32, i32, i32, i32);

/// A cube of 16 x 16 x 16 blocks and what has been computed of it.
/// Entities are kept by their bits, as `u64`.
pub struct Chunk {
    pub world_chunk_position: (i32, i32, i32),
    pub blocks_table: [i16; CHUNK_SIZE_3],
    pub structure_table: Vec<WorldStructure>,
    pub entities_table: Vec<u64>,
    pub spawned: bool,
    pub faces_calculated: bool,
    pub aot_calculated: bool,
    pub faces_table: [u8; CHUNK_SIZE_3],
    pub aot_table: [u8; CHUNK_SIZE_3],
    pub rects_table: [Vec<Rect>; 6],
    pub external_structure_table: Vec<WorldStructure>,
    pub structers_pre_generated: bool,
    pub structres_generated: bool,
    pub generated: bool,
}

/// A chunk as plain values.
#[verifier::ext_equal]
pub struct ChunkView {
    pub world_chunk_position: (i32, i32, i32),
    pub blocks: Seq<i16>,
    pub structures: Seq<StructureSpec>,
    pub entities: Seq<u64>,
    pub spawned: bool,
    pub faces_calculated: bool,
    pub aot_calculated: bool,
    pub faces: Seq<u8>,
    pub aot: Seq<u8>,
    pub rects: Seq<Seq<Rect>>,
    pub externals: Seq<StructureSpec>,
    pub structers_pre_generated: bool,
    pub structres_generated: bool,
    pub generated: bool,
}

pub open spec fn structures_view(v: Seq<WorldStructure>) -> Seq<StructureSpec> {
    v.map_values(|s: WorldStructure| s@)
}

impl View for Chunk {
    type V = ChunkView;

    open spec fn view(&self) -> ChunkView {
        ChunkView {
            world_chunk_position: self.world_chunk_position,
            blocks: self.blocks_table@,
            structures: structures_view(self.structure_table@),
            entities: self.entities_table@,
            spawned: self.spawned,
            faces_calculated: self.faces_calculated,
            aot_calculated: self.aot_calculated,
            faces: self.faces_table@,
            aot: self.aot_table@,
            rects: self.rects_table@.map_values(|r: Vec<Rect>| r@),
            externals: structures_view(self.external_structure_table@),
            structers_pre_generated: self.structers_pre_generated,
            structres_generated: self.structres_generated,
            generated: self.generated,
        }
    }
}

/// `c` with its block table replaced by `blocks`.
pub open spec fn with_blocks(c: ChunkView, blocks: Seq<i16>) -> ChunkView {
    ChunkView { blocks: blocks, ..c }
}

/// `c` with its own structures replaced and its pre-generation flag set to `flag`.
pub open spec fn with_structures(c: ChunkView, structures: Seq<StructureSpec>, flag: bool) -> ChunkView {
    ChunkView { structures: structures, structers_pre_generated: flag, ..c }
}

/// `c` with its external structures and their flag replaced.
pub open spec fn with_externals(c: ChunkView, externals: Seq<StructureSpec>, flag: bool) -> ChunkView {
    ChunkView { externals: externals, structres_generated: flag, ..c }
}

/// `c` flagged as generated.
pub open spec fn with_generated(c: ChunkView) -> ChunkView {
    ChunkView { generated: true, ..c }
}

/// `c` with its face table replaced.
pub open spec fn with_faces(c: ChunkView, faces: Seq<u8>) -> ChunkView {
    ChunkView { faces: faces, ..c }
}

/// `c` with its face flag set.
pub open spec fn with_faces_flag(c: ChunkView) -> ChunkView {
    ChunkView { faces_calculated: true, ..c }
}

/// `c` with its rectangle tables replaced.
pub open spec fn with_rects(c: ChunkView, rects: Seq<Seq<Rect>>) -> ChunkView {
    ChunkView { rects: rects, ..c }
}

/// `c` marked as spawned, with no entities.
pub open spec fn with_spawned(c: ChunkView) -> ChunkView {
    ChunkView { spawned: true, entities: Seq::empty(), ..c }
}

/// `c` with its occlusion table replaced and flagged as computed.
pub open spec fn with_aot(c: ChunkView, aot: Seq<u8>) -> ChunkView {
    ChunkView { aot: aot, aot_calculated: true, ..c }
}

/// The index of local block `(x, y, z)` in a chunk's tables.
pub open spec fn block_index(x: int, y: int, z: int) -> int {
    x * 256 + y * 16 + z
}

/// `(x, y, z)` is a block of a chunk.
pub open spec fn in_chunk(x: int, y: int, z: int) -> bool {
    0 <= x < 16 && 0 <= y < 16 && 0 <= z < 16
}

/// A chunk at `position` on which nothing has been computed yet.
pub open spec fn fresh_chunk(position: (i32, i32, i32)) -> ChunkView {
    ChunkView {
        world_chunk_position: position,
        blocks: Seq::new(4096, |i: int| 0i16),
        structures: Seq::empty(),
        entities: Seq::empty(),
        spawned: false,
        faces_calculated: false,
        aot_calculated: false,
        faces: Seq::new(4096, |i: int| 0u8),
        aot: Seq::new(4096, |i: int| 0u8),
        rects: Seq::new(6, |i: int| Seq::<Rect>::empty()),
        externals: Seq::empty(),
        structers_pre_generated: false,
        structres_generated: false,
        generated: false,
    }
}

/// The first world coordinate of chunk coordinate `c`: `c << 4` on `i32`.
pub open spec fn chunk_origin(c: i32) -> int {
    wrap_i32(c * 16)
}

/// `c << CHUNK_SHIFT`.
pub fn chunk_shift(c: i32) -> (r: i32)
    ensures
        r == chunk_origin(c),
        r % 16 == 0,
        r <= i32::MAX - 15,
{
    let r = c << CHUNK_SHIFT;
    assert(r == (c * 16) as i32 && r & 15 == 0) by (bit_vector)
        requires
            r == c << 4i32,
    ;
    assert(r & 15 == 0 ==> r % 16 == 0) by (bit_vector);
    r
}

/// Chunk origins are multiples of 16 that leave room for the chunk's 16 blocks.
pub proof fn lemma_chunk_origin(c: i32)
    ensures
        chunk_origin(c) % 16 == 0,
        i32::MIN <= chunk_origin(c) <= i32::MAX - 15,
{
    let r = c << 4i32;
    assert(r == (c * 16) as i32 && r & 15 == 0) by (bit_vector)
        requires
            r == c << 4i32,
    ;
    assert(r & 15 == 0 ==> r % 16 == 0) by (bit_vector);
}

impl Default for Chunk {
    fn default() -> (c: Self)
        ensures
            c@ == fresh_chunk((0, 0, 0)),
    {
        let c = Chunk {
            world_chunk_position: (0, 0, 0),
            blocks_table: [0; CHUNK_SIZE_3],
            faces_table: [0; CHUNK_SIZE_3],
            aot_table: [0; CHUNK_SIZE_3],
            entities_table: Vec::new(),
            structure_table: Vec::new(),
            external_structure_table: Vec::new(),
            spawned: false,
            generated: false,
            structres_generated: false,
            structers_pre_generated: false,
            faces_calculated: false,
            aot_calculated: false,
            rects_table: [Vec::new(), Vec::new(), Vec::new(), Vec::new(), Vec::new(), Vec::new()],
        };
        assert(c@.blocks =~= fresh_chunk((0, 0, 0)).blocks);
        assert(c@.faces =~= fresh_chunk((0, 0, 0)).faces);
        assert(c@.aot =~= fresh_chunk((0, 0, 0)).aot);
        assert(c@.rects =~= fresh_chunk((0, 0, 0)).rects);
        assert(c@.structures =~= Seq::empty());
        assert(c@.externals =~= Seq::empty());
        c
    }
}

impl Chunk {
    pub fn from_position(position: (i32, i32, i32)) -> (c: Self)
        ensures
            c@ == fresh_chunk(position),
    {
        let mut c = Chunk::default();
        c.world_chunk_position = position;
        c
    }

    pub fn calculate_world_positon(&self, indeces: (i32, i32, i32)) -> (r: (i32, i32, i32))
        requires
            in_i32(chunk_origin(self.world_chunk_position.0) + indeces.0),
            in_i32(chunk_origin(self.world_chunk_position.1) + indeces.1),
            in_i32(chunk_origin(self.world_chunk_position.2) + indeces.2),
        ensures
            r.0 == chunk_origin(self.world_chunk_position.0) + indeces.0,
            r.1 == chunk_origin(self.world_chunk_position.1) + indeces.1,
            r.2 == chunk_origin(self.world_chunk_position.2) + indeces.2,
    {
        (
            chunk_shift(self.world_chunk_position.0) + indeces.0,
            chunk_shift(self.world_chunk_position.1) + indeces.1,
            chunk_shift(self.world_chunk_position.2) + indeces.2,
        )
    }
}

} // verus!
