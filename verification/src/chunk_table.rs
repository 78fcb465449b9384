use vstd::prelude::*;

use crate::chunk::{block_index, fresh_chunk, Chunk, ChunkView, CHUNK_SIZE, CHUNK_SIZE_2};
use crate::chunk_map::ChunkMap;
use crate::coords::{in_i32, I32x3Extension};
use crate::point_set::PointSet;
use crate::seq_facts::{lemma_push_contains, lemma_push_no_duplicates};

verus! {

/// Squared Euclidean distance between `p` and `c`.
pub open spec fn sq_dist(p: (i32, i32, i32), c: (i32, i32, i32)) -> int {
    (p.0 - c.0) * (p.0 - c.0) + (p.1 - c.1) * (p.1 - c.1) + (p.2 - c.2) * (p.2 - c.2)
}

/// `sq_dist(p, c)` can be computed on `i32` without overflow.
pub open spec fn sq_dist_fits(p: (i32, i32, i32), c: (i32, i32, i32)) -> bool {
    &&& in_i32(p.0 - c.0)
    &&& in_i32(p.1 - c.1)
    &&& in_i32(p.2 - c.2)
    &&& sq_dist(p, c) <= i32::MAX
}

/// `(p.0-c.0)*(p.0-c.0) + (p.1-c.1)*(p.1-c.1) + (p.2-c.2)*(p.2-c.2)` on `i32`.
pub fn sq_dist_i32(p: (i32, i32, i32), c: (i32, i32, i32)) -> (r: i32)
    requires
        sq_dist_fits(p, c),
    ensures
        r == sq_dist(p, c),
{
    let a = p.0 - c.0;
    let b = p.1 - c.1;
    let d = p.2 - c.2;
    assert(0 <= a * a && 0 <= b * b && 0 <= d * d) by (nonlinear_arith);
    a * a + b * b + d * d
}

/// The map with a fresh chunk added at `pos` unless one is there.
pub open spec fn with_chunk(m: Map<(i32, i32, i32), ChunkView>, pos: (i32, i32, i32)) -> Map<(i32, i32, i32), ChunkView> {
    if m.contains_key(pos) {
        m
    } else {
        m.insert(pos, fresh_chunk(pos))
    }
}

/// Floor of `v / 16`, and `v mod 16`.
pub open spec fn chunk_of(v: int) -> int {
    v / 16
}

/// The chunk that holds the block at `offset` from chunk `root`.
pub open spec fn target_chunk(root: (i32, i32, i32), offset: (i32, i32, i32)) -> (int, int, int) {
    (root.0 + chunk_of(offset.0 as int), root.1 + chunk_of(offset.1 as int), root.2 + chunk_of(offset.2 as int))
}

pub open spec fn as_pos(t: (int, int, int)) -> (i32, i32, i32) {
    (t.0 as i32, t.1 as i32, t.2 as i32)
}

/// `get_block` can read the block at `offset` from chunk `root`: the offset is one that
/// `f32` holds exactly, the target position fits in `i32` and its chunk is in the map.
pub open spec fn block_readable(m: Map<(i32, i32, i32), ChunkView>, root: (i32, i32, i32), offset: (i32, i32, i32)) -> bool {
    &&& -0x100_0000 < offset.0 < 0x100_0000
    &&& -0x100_0000 < offset.1 < 0x100_0000
    &&& -0x100_0000 < offset.2 < 0x100_0000
    &&& in_i32(target_chunk(root, offset).0)
    &&& in_i32(target_chunk(root, offset).1)
    &&& in_i32(target_chunk(root, offset).2)
    &&& m.contains_key(as_pos(target_chunk(root, offset)))
}

/// The block at `offset` from chunk `root`: offsets past the chunk's edge fall in its
/// neighbours.
pub open spec fn block_at(m: Map<(i32, i32, i32), ChunkView>, root: (i32, i32, i32), offset: (i32, i32, i32)) -> i16 {
    m[as_pos(target_chunk(root, offset))].blocks[block_index((offset.0 as int) % 16, (offset.1 as int) % 16, (offset.2 as int) % 16)]
}

pub proof fn lemma_pos_mod_16(v: int)
    ensures
        crate::coords::pos_mod(v, 16) == v % 16,
        0 <= v % 16 < 16,
{
}

/// `c` marked as not spawned.
pub open spec fn unspawned(c: ChunkView) -> ChunkView {
    ChunkView { spawned: false, ..c }
}

/// The rendered positions farther than `distance` from `center`.
pub open spec fn out_of_range(rendered: Set<(i32, i32, i32)>, center: (i32, i32, i32), distance: i32) -> Set<(i32, i32, i32)> {
    rendered.filter(|p: (i32, i32, i32)| sq_dist(p, center) > distance * distance)
}

/// A block inside the chunk itself is read from the chunk's own table.
pub proof fn law_block_at_local(m: Map<(i32, i32, i32), ChunkView>, root: (i32, i32, i32), x: i32, y: i32, z: i32)
    requires
        0 <= x < 16,
        0 <= y < 16,
        0 <= z < 16,
    ensures
        block_at(m, root, (x, y, z)) == m[root].blocks[block_index(x as int, y as int, z as int)],
        target_chunk(root, (x, y, z)) == (root.0 as int, root.1 as int, root.2 as int),
{
    assert(as_pos(target_chunk(root, (x, y, z))) == root);
}

/// What is left of a rendered set once the chunks out of range are taken out lies within
/// `distance` of `center`, and holds every rendered chunk within it.
pub proof fn law_rendered_in_range(rendered: Set<(i32, i32, i32)>, center: (i32, i32, i32), distance: i32)
    ensures
        forall|p: (i32, i32, i32)| #[trigger] rendered.difference(out_of_range(rendered, center, distance)).contains(p)
            <==> (rendered.contains(p) && sq_dist(p, center) <= distance * distance),
{
}

/// The chunks of the world and which of them are rendered.
pub struct ChunkTable {
    pub player_position: (i32, i32, i32),
    pub prev_player_position: (i32, i32, i32),
    pub chunk_map: ChunkMap,
    pub rendered_chunk_set: PointSet,
}

impl Default for ChunkTable {
    fn default() -> (t: Self)
        ensures
            t.chunk_map@ == Map::<(i32, i32, i32), ChunkView>::empty(),
            t.rendered_chunk_set@ == Set::<(i32, i32, i32)>::empty(),
            t.player_position == (0i32, 0i32, 0i32),
            t.prev_player_position == (0i32, 2137i32, 0i32),
    {
        let t = ChunkTable {
            chunk_map: ChunkMap::new(),
            player_position: (0, 0, 0),
            prev_player_position: (0, 2137, 0),
            rendered_chunk_set: PointSet::new(),
        };
        assert(t.chunk_map@ =~= Map::<(i32, i32, i32), ChunkView>::empty());
        t
    }
}

/// `floor(v / 16)`, which `(v as f32 / 16.).floor() as i32` gives for `|v| < 2^24`.
fn floor_div_16(v: i32) -> (r: i32)
    ensures
        r == chunk_of(v as int),
{
    if v >= 0 {
        v / 16
    } else {
        let u = -(v + 1);
        let q = -(u / 16) - 1;
        assert(q == (v as int) / 16);
        q
    }
}

impl ChunkTable {
    pub fn add_chunk(&mut self, position: (i32, i32, i32))
        ensures
            final(self).chunk_map@ == with_chunk(old(self).chunk_map@, position),
            final(self).rendered_chunk_set@ == old(self).rendered_chunk_set@,
            final(self).player_position == old(self).player_position,
            final(self).prev_player_position == old(self).prev_player_position,
    {
        if !self.has_chunk(position) {
            self.chunk_map.insert(position, Chunk::from_position(position));
        }
    }

    pub fn get_add_chunk(&mut self, position: (i32, i32, i32)) -> (c: &Chunk)
        ensures
            final(self).chunk_map@ == with_chunk(old(self).chunk_map@, position),
            c@ == with_chunk(old(self).chunk_map@, position)[position],
            final(self).rendered_chunk_set@ == old(self).rendered_chunk_set@,
            final(self).player_position == old(self).player_position,
            final(self).prev_player_position == old(self).prev_player_position,
    {
        if self.chunk_map.contains_key(&position) {
            return self.chunk_map.get(&position).unwrap();
        }
        self.chunk_map.insert(position, Chunk::from_position(position));
        self.chunk_map.get(&position).unwrap()
    }

    pub fn get_add_chunk_mut(&mut self, position: (i32, i32, i32)) -> (c: &mut Chunk)
        ensures
            (*c)@ == with_chunk(old(self).chunk_map@, position)[position],
            final(self).chunk_map@ == with_chunk(old(self).chunk_map@, position).insert(position, (*final(c))@),
            final(self).rendered_chunk_set@ == old(self).rendered_chunk_set@,
            final(self).player_position == old(self).player_position,
            final(self).prev_player_position == old(self).prev_player_position,
    {
        if !self.chunk_map.contains_key(&position) {
            self.chunk_map.insert(position, Chunk::from_position(position));
        }
        self.chunk_map.get_mut(&position).unwrap()
    }

    pub fn get_chunk(&self, position: (i32, i32, i32)) -> (c: Option<&Chunk>)
        ensures
            c is Some <==> self.chunk_map@.contains_key(position),
            c is Some ==> c.unwrap()@ == self.chunk_map@[position],
    {
        self.chunk_map.get(&position)
    }

    pub fn get_chunk_mut(&mut self, position: (i32, i32, i32)) -> (c: Option<&mut Chunk>)
        ensures
            c is Some <==> old(self).chunk_map@.contains_key(position),
            c is Some ==> (*c.unwrap())@ == old(self).chunk_map@[position],
            c is Some ==> final(self).chunk_map@ == old(self).chunk_map@.insert(position, (*final(c.unwrap()))@),
            c is None ==> final(self).chunk_map@ == old(self).chunk_map@,
            final(self).rendered_chunk_set@ == old(self).rendered_chunk_set@,
            final(self).player_position == old(self).player_position,
            final(self).prev_player_position == old(self).prev_player_position,
    {
        self.chunk_map.get_mut(&position)
    }

    pub fn has_chunk(&self, position: (i32, i32, i32)) -> (b: bool)
        ensures
            b == self.chunk_map@.contains_key(position),
    {
        self.chunk_map.contains_key(&position)
    }

    /// Takes the rendered chunks farther than `distance` from `center` out of the rendered
    /// set, marks them as not spawned, and returns their positions (in the set's order).
    /// Their entities stay in `entities_table`, for the caller to despawn.
    pub fn update_rendered_chunks(&mut self, center: (i32, i32, i32), distance: i32) -> (removed: Vec<(i32, i32, i32)>)
        requires
            distance * distance <= i32::MAX,
            forall|p: (i32, i32, i32)| #[trigger] old(self).rendered_chunk_set@.contains(p) ==> sq_dist_fits(p, center),
            forall|p: (i32, i32, i32)|
                #[trigger] out_of_range(old(self).rendered_chunk_set@, center, distance).contains(p)
                    ==> old(self).chunk_map@.contains_key(p),
        ensures
            removed@.no_duplicates(),
            removed@.to_set() == out_of_range(old(self).rendered_chunk_set@, center, distance),
            final(self).rendered_chunk_set@ == old(self).rendered_chunk_set@.difference(
                out_of_range(old(self).rendered_chunk_set@, center, distance),
            ),
            final(self).chunk_map@.dom() == old(self).chunk_map@.dom(),
            forall|k: (i32, i32, i32)| #[trigger] old(self).chunk_map@.contains_key(k) ==> final(self).chunk_map@[k] == (
                if out_of_range(old(self).rendered_chunk_set@, center, distance).contains(k) {
                    unspawned(old(self).chunk_map@[k])
                } else {
                    old(self).chunk_map@[k]
                }),
            final(self).player_position == old(self).player_position,
            final(self).prev_player_position == old(self).prev_player_position,
    {
        let ghost far = out_of_range(self.rendered_chunk_set@, center, distance);
        let ghost old_map = self.chunk_map@;
        let ghost old_set = self.rendered_chunk_set@;
        let points = self.rendered_chunk_set.to_vec();
        assert(distance * distance >= 0) by (nonlinear_arith);
        let limit = distance * distance;
        let mut to_delete_position_set: Vec<(i32, i32, i32)> = Vec::new();
        let n = points.len();
        for i in 0..n
            invariant
                n == points@.len(),
                points@.no_duplicates(),
                points@.to_set() == old_set,
                far == out_of_range(old_set, center, distance),
                limit == distance * distance,
                forall|p: (i32, i32, i32)| #[trigger] old_set.contains(p) ==> sq_dist_fits(p, center),
                to_delete_position_set@.no_duplicates(),
                forall|q: (i32, i32, i32)| #[trigger] to_delete_position_set@.contains(q)
                    <==> (points@.subrange(0, i as int).contains(q) && far.contains(q)),
        {
            let point = points[i];
            assert(points@.subrange(0, i + 1) =~= points@.subrange(0, i as int).push(point));
            assert(old_set.contains(point)) by {
                assert(points@.contains(point));
            }
            assert(!points@.subrange(0, i as int).contains(point)) by {
                if points@.subrange(0, i as int).contains(point) {
                    let j = choose|j: int| 0 <= j < i && #[trigger] points@.subrange(0, i as int)[j] == point;
                    assert(points@[j] == points@[i as int]);
                }
            }
            let ghost prev = to_delete_position_set@;
            let d2 = sq_dist_i32(point, center);
            assert(far.contains(point) == (d2 > limit));
            if d2 > limit {
                proof {
                    if prev.contains(point) {
                        assert(points@.subrange(0, i as int).contains(point));
                    }
                    lemma_push_no_duplicates(prev, point);
                }
                to_delete_position_set.push(point);
            }
            assert(to_delete_position_set@ == if far.contains(point) { prev.push(point) } else { prev });
            assert forall|q: (i32, i32, i32)| #[trigger] to_delete_position_set@.contains(q)
                <==> (points@.subrange(0, i + 1).contains(q) && far.contains(q)) by {
                lemma_push_contains(prev, point, q);
                lemma_push_contains(points@.subrange(0, i as int), point, q);
            }
        }
        assert(points@.subrange(0, n as int) == points@);
        assert forall|q: (i32, i32, i32)| to_delete_position_set@.to_set().contains(q) <==> far.contains(q) by {
            if far.contains(q) {
                assert(old_set.contains(q));
                assert(points@.to_set().contains(q));
            }
        }
        assert(to_delete_position_set@.to_set() =~= far);
        let m = to_delete_position_set.len();
        for j in 0..m
            invariant
                m == to_delete_position_set@.len(),
                to_delete_position_set@.to_set() == far,
                far == out_of_range(old_set, center, distance),
                forall|p: (i32, i32, i32)| #[trigger] far.contains(p) ==> old_map.contains_key(p),
                self.chunk_map@.dom() == old_map.dom(),
                forall|k: (i32, i32, i32)| #[trigger] old_map.contains_key(k) ==> self.chunk_map@[k] == (
                    if to_delete_position_set@.subrange(0, j as int).contains(k) {
                        unspawned(old_map[k])
                    } else {
                        old_map[k]
                    }),
                self.rendered_chunk_set@ == old_set.difference(to_delete_position_set@.subrange(0, j as int).to_set()),
                self.player_position == old(self).player_position,
                self.prev_player_position == old(self).prev_player_position,
        {
            let point = to_delete_position_set[j];
            assert(far.contains(point)) by {
                assert(to_delete_position_set@.contains(point));
            }
            let ghost before = self.chunk_map@;
            let chunk = self.get_chunk_mut(point).unwrap();
            chunk.spawned = false;
            self.rendered_chunk_set.remove(&point);
            assert(self.chunk_map@ == before.insert(point, unspawned(before[point])));
            assert forall|k: (i32, i32, i32)| #[trigger] old_map.contains_key(k) implies self.chunk_map@[k] == (
                if to_delete_position_set@.subrange(0, j + 1).contains(k) {
                    unspawned(old_map[k])
                } else {
                    old_map[k]
                }) by {
                assert(to_delete_position_set@.subrange(0, j + 1)[j as int] == point);
                if to_delete_position_set@.subrange(0, j + 1).contains(k) && k != point {
                    let t = choose|t: int| 0 <= t < j + 1 && #[trigger] to_delete_position_set@.subrange(0, j + 1)[t] == k;
                    assert(to_delete_position_set@.subrange(0, j as int)[t] == k);
                }
                if to_delete_position_set@.subrange(0, j as int).contains(k) {
                    let t = choose|t: int| 0 <= t < j && #[trigger] to_delete_position_set@.subrange(0, j as int)[t] == k;
                    assert(to_delete_position_set@.subrange(0, j + 1)[t] == k);
                }
            }
            assert(to_delete_position_set@.subrange(0, j + 1).to_set() =~= to_delete_position_set@.subrange(0, j as int).to_set().insert(point)) by {
                assert(to_delete_position_set@.subrange(0, j + 1) =~= to_delete_position_set@.subrange(0, j as int).push(point));
                to_delete_position_set@.subrange(0, j as int).lemma_push_to_set_commute(point);
            }
            assert(self.rendered_chunk_set@ =~= old_set.difference(to_delete_position_set@.subrange(0, j + 1).to_set()));
        }
        assert(to_delete_position_set@.subrange(0, m as int) == to_delete_position_set@);
        proof {
            assert forall|k: (i32, i32, i32)| to_delete_position_set@.contains(k) <==> far.contains(k) by {
                assert(to_delete_position_set@.to_set().contains(k) <==> to_delete_position_set@.contains(k));
            }
        }
        to_delete_position_set
    }

    /// The block at `offset` from chunk `root_chunk`, which may lie in a neighbouring chunk.
    pub fn get_block(&self, root_chunk: (i32, i32, i32), offset: (i32, i32, i32)) -> (b: i16)
        requires
            block_readable(self.chunk_map@, root_chunk, offset),
        ensures
            b == block_at(self.chunk_map@, root_chunk, offset),
    {
        let chunk_offset = (floor_div_16(offset.0), floor_div_16(offset.1), floor_div_16(offset.2));
        let new_offset = offset.pos_modulo((CHUNK_SIZE as i32));
        proof {
            lemma_pos_mod_16(offset.0 as int);
            lemma_pos_mod_16(offset.1 as int);
            lemma_pos_mod_16(offset.2 as int);
            assert(CHUNK_SIZE_2 == 256);
        }
        let index = new_offset.0 * (CHUNK_SIZE_2 as i32) + new_offset.1 * (CHUNK_SIZE as i32) + new_offset.2;
        self.chunk_map.get(&root_chunk.add(chunk_offset)).unwrap().blocks_table[index as usize]
    }
}

} // verus!
