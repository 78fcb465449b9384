use vstd::prelude::*;

use crate::chunk_table::{sq_dist, sq_dist_fits, sq_dist_i32};
use crate::coords::in_i32;
use crate::point_set::PointSet;
use crate::seq_facts::{lemma_push_contains, lemma_push_no_duplicates};
use vstd::set::set;

verus! {

/// The radius, in chunks, that a `ChunkLoader` renders around its center.
pub open spec fn loader_radius() -> int {
    10
}

/// `p` lies within the loader's radius of `center`.
pub open spec fn in_sphere(p: (i32, i32, i32), center: (i32, i32, i32)) -> bool {
    sq_dist(p, center) <= loader_radius() * loader_radius()
}

/// `q` is `p` or one of its 26 neighbours.
pub open spec fn adjacent(q: (i32, i32, i32), p: (i32, i32, i32)) -> bool {
    &&& -1 <= q.0 - p.0 <= 1
    &&& -1 <= q.1 - p.1 <= 1
    &&& -1 <= q.2 - p.2 <= 1
}

/// Every neighbour of `p` that lies in the sphere around `center` is in `s`.
pub open spec fn closed_at(s: Set<(i32, i32, i32)>, p: (i32, i32, i32), center: (i32, i32, i32)) -> bool {
    forall|q: (i32, i32, i32)| #[trigger] adjacent(q, p) && in_sphere(q, center) ==> s.contains(q)
}

pub open spec fn abs(v: int) -> int {
    if v < 0 {
        -v
    } else {
        v
    }
}

/// The neighbours of `p` and their squared distances to `center` all fit in `i32`.
pub open spec fn neighbourhood_fits(p: (i32, i32, i32), center: (i32, i32, i32)) -> bool {
    &&& in_i32(p.0 - 1) && in_i32(p.0 + 1)
    &&& in_i32(p.1 - 1) && in_i32(p.1 + 1)
    &&& in_i32(p.2 - 1) && in_i32(p.2 + 1)
    &&& in_i32(abs(p.0 - center.0) + 1)
    &&& in_i32(abs(p.1 - center.1) + 1)
    &&& in_i32(abs(p.2 - center.2) + 1)
    &&& (abs(p.0 - center.0) + 1) * (abs(p.0 - center.0) + 1) + (abs(p.1 - center.1) + 1) * (abs(p.1 - center.1)
        + 1) + (abs(p.2 - center.2) + 1) * (abs(p.2 - center.2) + 1) <= i32::MAX
}

/// `center` is far enough from the ends of `i32` for every point of its sphere to have
/// a neighbourhood that fits.
pub open spec fn center_margin(center: (i32, i32, i32)) -> bool {
    &&& i32::MIN + 11 <= center.0 <= i32::MAX - 11
    &&& i32::MIN + 11 <= center.1 <= i32::MAX - 11
    &&& i32::MIN + 11 <= center.2 <= i32::MAX - 11
}

/// The point at index `i` of `found` was reached from the seeds: it is the center with
/// which an empty set starts, or a neighbour of a seed or of an earlier point.
pub open spec fn discovered(
    found: Seq<(i32, i32, i32)>,
    seeds: Set<(i32, i32, i32)>,
    center: (i32, i32, i32),
    i: int,
) -> bool {
    ||| (i == 0 && seeds == Set::<(i32, i32, i32)>::empty() && found[0] == center)
    ||| (exists|q: (i32, i32, i32)| #[trigger] seeds.contains(q) && adjacent(found[i], q))
    ||| (exists|j: int| 0 <= j < i && adjacent(found[i], #[trigger] found[j]))
}

proof fn lemma_square_bound(d: int, e: int)
    requires
        -1 <= e <= 1,
    ensures
        (d + e) * (d + e) <= (abs(d) + 1) * (abs(d) + 1),
        0 <= (d + e) * (d + e),
{
    assert((d + e) * (d + e) <= (abs(d) + 1) * (abs(d) + 1)) by (nonlinear_arith)
        requires
            -1 <= e <= 1,
            abs(d) == (if d < 0 { -d } else { d }),
    ;
    assert(0 <= (d + e) * (d + e)) by (nonlinear_arith);
}

/// The squared distance of every neighbour of `p` fits in `i32`.
proof fn lemma_neighbour_fits(p: (i32, i32, i32), q: (i32, i32, i32), center: (i32, i32, i32))
    requires
        neighbourhood_fits(p, center),
        adjacent(q, p),
    ensures
        sq_dist_fits(q, center),
{
    lemma_square_bound(p.0 - center.0, q.0 - p.0);
    lemma_square_bound(p.1 - center.1, q.1 - p.1);
    lemma_square_bound(p.2 - center.2, q.2 - p.2);
}

proof fn lemma_axis_bound(d: int)
    requires
        d * d <= 100,
    ensures
        -10 <= d <= 10,
{
    if d > 10 {
        assert(d * d > 100) by (nonlinear_arith)
            requires
                d > 10,
        ;
    }
    if d < -10 {
        assert(d * d > 100) by (nonlinear_arith)
            requires
                d < -10,
        ;
    }
}

/// Each coordinate of a point of the sphere is within the radius of the center's.
proof fn lemma_sphere_box(p: (i32, i32, i32), center: (i32, i32, i32))
    requires
        in_sphere(p, center),
    ensures
        -10 <= p.0 - center.0 <= 10,
        -10 <= p.1 - center.1 <= 10,
        -10 <= p.2 - center.2 <= 10,
{
    let a = p.0 - center.0;
    let b = p.1 - center.1;
    let c = p.2 - center.2;
    assert(0 <= a * a && 0 <= b * b && 0 <= c * c) by (nonlinear_arith);
    lemma_axis_bound(a);
    lemma_axis_bound(b);
    lemma_axis_bound(c);
}

proof fn lemma_sphere_neighbourhood_fits(p: (i32, i32, i32), center: (i32, i32, i32))
    requires
        in_sphere(p, center),
        center_margin(center),
    ensures
        neighbourhood_fits(p, center),
{
    lemma_sphere_box(p, center);
    let a = abs(p.0 - center.0) + 1;
    let b = abs(p.1 - center.1) + 1;
    let c = abs(p.2 - center.2) + 1;
    assert(a * a + b * b + c * c <= 363) by (nonlinear_arith)
        requires
            0 <= a <= 11,
            0 <= b <= 11,
            0 <= c <= 11,
    ;
}

/// The index of a point of the box around `center` among the box's 21^3 points.
spec fn box_slot(p: (i32, i32, i32), center: (i32, i32, i32)) -> int {
    (p.0 - center.0 + 10) * 441 + (p.1 - center.1 + 10) * 21 + (p.2 - center.2 + 10)
}

/// A sequence of distinct points of the sphere has at most 21^3 elements.
proof fn lemma_sphere_count(s: Seq<(i32, i32, i32)>, center: (i32, i32, i32))
    requires
        s.no_duplicates(),
        forall|i: int| 0 <= i < s.len() ==> in_sphere(#[trigger] s[i], center),
    ensures
        s.len() <= 9261,
{
    let slots = s.map_values(|p: (i32, i32, i32)| box_slot(p, center));
    assert forall|i: int| 0 <= i < s.len() implies 0 <= #[trigger] slots[i] < 9261 by {
        lemma_sphere_box(s[i], center);
    }
    assert forall|i: int, j: int| 0 <= i < s.len() && 0 <= j < s.len() && i != j
        implies slots[i] != slots[j] by {
        lemma_sphere_box(s[i], center);
        lemma_sphere_box(s[j], center);
        assert(s[i] != s[j]);
    }
    assert(slots.no_duplicates());
    slots.unique_seq_to_set();
    vstd::set_lib::lemma_int_range(0, 9261);
    assert(slots.to_set().subset_of(vstd::set_lib::set_int_range(0, 9261)));
    vstd::set_lib::lemma_len_subset(slots.to_set(), vstd::set_lib::set_int_range(0, 9261));
}

/// `(dx, dz, dy)` comes before `(ox, oz, oy)` in the order in which offsets are tried.
pub open spec fn tried_before(dx: int, dz: int, dy: int, ox: int, oz: int, oy: int) -> bool {
    ||| dx < ox
    ||| (dx == ox && dz < oz)
    ||| (dx == ox && dz == oz && dy < oy)
}

/// The part of `s` from index `n` on.
pub open spec fn tail(s: Seq<(i32, i32, i32)>, n: int) -> Seq<(i32, i32, i32)> {
    s.subrange(n, s.len() as int)
}

/// Adds to `set`, `queue` and `found` every neighbour of `point` in the sphere that `set`
/// lacks, in the order offsets are tried.
fn expand_point(
    set: &mut PointSet,
    point: (i32, i32, i32),
    center: (i32, i32, i32),
    distance: i32,
    queue: &mut std::collections::VecDeque<(i32, i32, i32)>,
    found: &mut Vec<(i32, i32, i32)>,
)
    requires
        distance == 10,
        neighbourhood_fits(point, center),
        old(found)@.no_duplicates(),
        forall|i: int| 0 <= i < old(found)@.len() ==> old(set)@.contains(#[trigger] old(found)@[i]),
    ensures
        final(found)@.len() >= old(found)@.len(),
        final(found)@.subrange(0, old(found)@.len() as int) == old(found)@,
        final(queue)@ == old(queue)@ + tail(final(found)@, old(found)@.len() as int),
        final(set)@ == old(set)@.union(tail(final(found)@, old(found)@.len() as int).to_set()),
        final(found)@.no_duplicates(),
        forall|i: int| 0 <= i < final(found)@.len() ==> final(set)@.contains(#[trigger] final(found)@[i]),
        forall|i: int| old(found)@.len() <= i < final(found)@.len() ==> {
            &&& in_sphere(#[trigger] final(found)@[i], center)
            &&& adjacent(final(found)@[i], point)
            &&& !old(set)@.contains(final(found)@[i])
        },
        closed_at(final(set)@, point, center),
{
    let ghost n = found@.len();
    let ghost set0 = set@;
    let ghost queue0 = queue@;
    let mut ox: i32 = -1;
    while ox < 2
        invariant
            -1 <= ox <= 2,
            distance == 10,
            neighbourhood_fits(point, center),
            found@.len() >= n,
            found@.subrange(0, n as int) == old(found)@,
            queue@ == queue0 + tail(found@, n as int),
            set@ == set0.union(tail(found@, n as int).to_set()),
            found@.no_duplicates(),
            forall|i: int| 0 <= i < found@.len() ==> set@.contains(#[trigger] found@[i]),
            forall|i: int| n <= i < found@.len() ==> {
                &&& in_sphere(#[trigger] found@[i], center)
                &&& adjacent(found@[i], point)
                &&& !set0.contains(found@[i])
            },
            forall|q: (i32, i32, i32)| #[trigger] adjacent(q, point) && in_sphere(q, center)
                && tried_before(q.0 - point.0, q.2 - point.2, q.1 - point.1, ox as int, -1, -1) ==> set@.contains(q),
        decreases 2 - ox,
    {
        let mut oz: i32 = -1;
        while oz < 2
            invariant
                -1 <= ox < 2,
                -1 <= oz <= 2,
                distance == 10,
                neighbourhood_fits(point, center),
                found@.len() >= n,
                found@.subrange(0, n as int) == old(found)@,
                queue@ == queue0 + tail(found@, n as int),
                set@ == set0.union(tail(found@, n as int).to_set()),
                found@.no_duplicates(),
                forall|i: int| 0 <= i < found@.len() ==> set@.contains(#[trigger] found@[i]),
                forall|i: int| n <= i < found@.len() ==> {
                    &&& in_sphere(#[trigger] found@[i], center)
                    &&& adjacent(found@[i], point)
                    &&& !set0.contains(found@[i])
                },
                forall|q: (i32, i32, i32)| #[trigger] adjacent(q, point) && in_sphere(q, center)
                    && tried_before(q.0 - point.0, q.2 - point.2, q.1 - point.1, ox as int, oz as int, -1) ==> set@.contains(q),
            decreases 2 - oz,
        {
            let mut oy: i32 = -1;
            while oy < 2
                invariant
                    -1 <= ox < 2,
                    -1 <= oz < 2,
                    -1 <= oy <= 2,
                    distance == 10,
                    neighbourhood_fits(point, center),
                    found@.len() >= n,
                    found@.subrange(0, n as int) == old(found)@,
                    queue@ == queue0 + tail(found@, n as int),
                    set@ == set0.union(tail(found@, n as int).to_set()),
                    found@.no_duplicates(),
                    forall|i: int| 0 <= i < found@.len() ==> set@.contains(#[trigger] found@[i]),
                    forall|i: int| n <= i < found@.len() ==> {
                        &&& in_sphere(#[trigger] found@[i], center)
                        &&& adjacent(found@[i], point)
                        &&& !set0.contains(found@[i])
                    },
                    forall|q: (i32, i32, i32)| #[trigger] adjacent(q, point) && in_sphere(q, center)
                        && tried_before(q.0 - point.0, q.2 - point.2, q.1 - point.1, ox as int, oz as int, oy as int)
                        ==> set@.contains(q),
                decreases 2 - oy,
            {
                let new_point: (i32, i32, i32) = (point.0 + ox, point.1 + oy, point.2 + oz);
                proof {
                    lemma_neighbour_fits(point, new_point, center);
                }
                let ghost found_before = found@;
                let ghost set_before = set@;
                if sq_dist_i32(new_point, center) <= distance * distance && !set.contains(&new_point) {
                    queue.push_back(new_point);
                    set.insert(new_point);
                    proof {
                        if found_before.contains(new_point) {
                            let i = choose|i: int| 0 <= i < found_before.len() && #[trigger] found_before[i] == new_point;
                            assert(set_before.contains(found_before[i]));
                        }
                        lemma_push_no_duplicates(found_before, new_point);
                    }
                    found.push(new_point);
                    proof {
                        assert(tail(found@, n as int) =~= tail(found_before, n as int).push(new_point));
                        assert(queue@ =~= queue0 + tail(found@, n as int));
                        tail(found_before, n as int).lemma_push_to_set_commute(new_point);
                        assert(set@ =~= set0.union(tail(found@, n as int).to_set()));
                        assert(found@.subrange(0, n as int) =~= found_before.subrange(0, n as int));
                    }
                }
                oy = oy + 1;
            }
            oz = oz + 1;
        }
        ox = ox + 1;
    }
    assert forall|q: (i32, i32, i32)| #[trigger] adjacent(q, point) && in_sphere(q, center) implies set@.contains(q) by {
        assert(tried_before(q.0 - point.0, q.2 - point.2, q.1 - point.1, 2, -1, -1));
    }
}

/// Loads chunks in a sphere around the player, outward from what is already rendered.
pub struct ChunkLoader {
    player_position: (i32, i32, i32),
    render_distance: i32,
    rendered_chunk_set: PointSet,
    spawned_set: PointSet,
}

impl Default for ChunkLoader {
    fn default() -> (l: Self)
        ensures
            l.player() == (0i32, 0i32, 0i32),
            l.rendered() == Set::<(i32, i32, i32)>::empty(),
            l.spawned() == Set::<(i32, i32, i32)>::empty(),
    {
        ChunkLoader {
            player_position: (0, 0, 0),
            render_distance: 10,
            rendered_chunk_set: PointSet::new(),
            spawned_set: PointSet::new(),
        }
    }
}

impl ChunkLoader {
    /// The loader always renders with radius 10.
    #[verifier::type_invariant]
    spec fn radius_is_fixed(self) -> bool {
        self.render_distance == 10
    }

    pub closed spec fn player(&self) -> (i32, i32, i32) {
        self.player_position
    }

    pub closed spec fn rendered(&self) -> Set<(i32, i32, i32)> {
        self.rendered_chunk_set@
    }

    pub closed spec fn spawned(&self) -> Set<(i32, i32, i32)> {
        self.spawned_set@
    }

    pub fn set_player_position(&mut self, position: (i32, i32, i32))
        ensures
            final(self).player() == position,
            final(self).rendered() == old(self).rendered(),
            final(self).spawned() == old(self).spawned(),
    {
        proof {
            use_type_invariant(&*self);
        }
        self.player_position = position;
    }

    /// Breadth-first search from the rendered chunks (or from `center` when there are none)
    /// through the 26-neighbourhood, over the chunks within the radius of `center`. Every
    /// chunk found is added to the rendered set and returned, in the order found.
    pub fn bfs_distance_points_generator(&mut self, center: (i32, i32, i32)) -> (found: Vec<(i32, i32, i32)>)
        requires
            center_margin(center),
            forall|p: (i32, i32, i32)| #[trigger] old(self).rendered().contains(p) ==> neighbourhood_fits(p, center),
        ensures
            found@.no_duplicates(),
            forall|i: int| 0 <= i < found@.len() ==> {
                &&& in_sphere(#[trigger] found@[i], center)
                &&& !old(self).rendered().contains(found@[i])
            },
            forall|i: int| 0 <= i < found@.len() ==> #[trigger] discovered(found@, old(self).rendered(), center, i),
            old(self).rendered() == Set::<(i32, i32, i32)>::empty() ==> found@.len() > 0 && found@[0] == center,
            final(self).rendered() == old(self).rendered().union(found@.to_set()),
            forall|p: (i32, i32, i32)| #[trigger] final(self).rendered().contains(p) ==> closed_at(final(self).rendered(), p, center),
            final(self).player() == old(self).player(),
            final(self).spawned() == old(self).spawned(),
    {
        proof {
            use_type_invariant(&*self);
        }
        let mut rendered = PointSet::new();
        std::mem::swap(&mut rendered, &mut self.rendered_chunk_set);
        let ghost seeds = rendered@;
        assert(seeds == old(self).rendered());
        let distance = self.render_distance;
        let mut queue: std::collections::VecDeque<(i32, i32, i32)> = std::collections::VecDeque::new();
        let mut new_position_set: Vec<(i32, i32, i32)> = Vec::new();
        if rendered.is_empty() {
            queue.push_back(center);
            rendered.insert(center);
            new_position_set.push(center);
            proof {
                assert(sq_dist(center, center) == 0);
                assert(new_position_set@.to_set() =~= set![center]) by {
                    lemma_push_contains(Seq::<(i32, i32, i32)>::empty(), center, center);
                    assert(new_position_set@ =~= Seq::<(i32, i32, i32)>::empty().push(center));
                    Seq::<(i32, i32, i32)>::empty().lemma_push_to_set_commute(center);
                }
                assert(rendered@ =~= seeds.union(new_position_set@.to_set()));
                assert(discovered(new_position_set@, seeds, center, 0));
            }
        } else {
            let positions = rendered.to_vec();
            let count = positions.len();
            for i in 0..count
                invariant
                    count == positions@.len(),
                    positions@.to_set() == seeds,
                    queue@ == positions@.subrange(0, i as int),
            {
                queue.push_back(positions[i]);
                assert(queue@ =~= positions@.subrange(0, i + 1));
            }
            proof {
                assert(positions@.subrange(0, count as int) =~= positions@);
                assert(new_position_set@.to_set() =~= Set::<(i32, i32, i32)>::empty());
                assert(rendered@ =~= seeds.union(new_position_set@.to_set()));
                assert forall|p: (i32, i32, i32)| #[trigger] rendered@.contains(p)
                    implies queue@.contains(p) || closed_at(rendered@, p, center) by {
                    assert(positions@.to_set().contains(p));
                }
            }
        }
        while queue.len() > 0
            invariant
                distance == 10,
                center_margin(center),
                forall|p: (i32, i32, i32)| #[trigger] seeds.contains(p) ==> neighbourhood_fits(p, center),
                rendered@ == seeds.union(new_position_set@.to_set()),
                new_position_set@.no_duplicates(),
                forall|i: int| 0 <= i < new_position_set@.len() ==> {
                    &&& in_sphere(#[trigger] new_position_set@[i], center)
                    &&& !seeds.contains(new_position_set@[i])
                },
                forall|i: int| 0 <= i < new_position_set@.len() ==> #[trigger] discovered(new_position_set@, seeds, center, i),
                seeds == Set::<(i32, i32, i32)>::empty() ==> new_position_set@.len() > 0 && new_position_set@[0] == center,
                new_position_set@.len() <= 9261,
                forall|i: int| 0 <= i < queue@.len() ==> rendered@.contains(#[trigger] queue@[i]),
                forall|p: (i32, i32, i32)| #[trigger] rendered@.contains(p)
                    ==> queue@.contains(p) || closed_at(rendered@, p, center),
            decreases 9261 - new_position_set@.len(), queue@.len(),
        {
            let ghost set_before = rendered@;
            let ghost queue_before = queue@;
            let ghost found_before = new_position_set@;
            let point: (i32, i32, i32) = queue.pop_front().unwrap();
            proof {
                assert(set_before.contains(queue_before[0]));
                if !seeds.contains(point) {
                    assert(found_before.to_set().contains(point));
                    let j = choose|j: int| 0 <= j < found_before.len() && #[trigger] found_before[j] == point;
                    lemma_sphere_neighbourhood_fits(found_before[j], center);
                }
                assert forall|i: int| 0 <= i < found_before.len() implies set_before.contains(#[trigger] found_before[i]) by {
                    assert(found_before.to_set().contains(found_before[i]));
                }
            }
            expand_point(&mut rendered, point, center, distance, &mut queue, &mut new_position_set);
            proof {
                let n = found_before.len() as int;
                let added = tail(new_position_set@, n);
                assert(new_position_set@ =~= found_before + added);
                assert(new_position_set@.to_set() =~= found_before.to_set().union(added.to_set())) by {
                    assert forall|p: (i32, i32, i32)| new_position_set@.to_set().contains(p)
                        <==> found_before.to_set().contains(p) || added.to_set().contains(p) by {
                        if new_position_set@.contains(p) {
                            let i = choose|i: int| 0 <= i < new_position_set@.len() && #[trigger] new_position_set@[i] == p;
                            if i >= n {
                                assert(added[i - n] == p);
                            }
                        }
                        if added.contains(p) {
                            let i = choose|i: int| 0 <= i < added.len() && #[trigger] added[i] == p;
                            assert(new_position_set@[i + n] == p);
                        }
                    }
                }
                assert(rendered@ =~= seeds.union(new_position_set@.to_set()));
                assert forall|i: int| 0 <= i < new_position_set@.len() implies {
                    &&& in_sphere(#[trigger] new_position_set@[i], center)
                    &&& !seeds.contains(new_position_set@[i])
                } by {
                    if i < n {
                        assert(new_position_set@[i] == found_before[i]);
                    } else {
                        assert(!set_before.contains(new_position_set@[i]));
                    }
                }
                assert forall|i: int| 0 <= i < new_position_set@.len() implies #[trigger] discovered(new_position_set@, seeds, center, i) by {
                    if i < n {
                        assert(new_position_set@[i] == found_before[i]);
                        assert(discovered(found_before, seeds, center, i));
                        if exists|j: int| 0 <= j < i && adjacent(found_before[i], #[trigger] found_before[j]) {
                            let j = choose|j: int| 0 <= j < i && adjacent(found_before[i], #[trigger] found_before[j]);
                            assert(new_position_set@[j] == found_before[j]);
                        }
                    } else {
                        assert(adjacent(new_position_set@[i], point));
                        if seeds.contains(point) {
                            assert(seeds.contains(point) && adjacent(new_position_set@[i], point));
                        } else {
                            assert(found_before.to_set().contains(point));
                            let j = choose|j: int| 0 <= j < found_before.len() && #[trigger] found_before[j] == point;
                            assert(new_position_set@[j] == point);
                            assert(adjacent(new_position_set@[i], new_position_set@[j]));
                        }
                    }
                }
                assert forall|i: int| 0 <= i < new_position_set@.len() implies in_sphere(#[trigger] new_position_set@[i], center) by {
                    if i < n {
                        assert(new_position_set@[i] == found_before[i]);
                    }
                }
                lemma_sphere_count(new_position_set@, center);
                if seeds == Set::<(i32, i32, i32)>::empty() {
                    assert(new_position_set@[0] == found_before[0]);
                }
                assert forall|i: int| 0 <= i < queue@.len() implies rendered@.contains(#[trigger] queue@[i]) by {
                    if i < queue_before.len() - 1 {
                        assert(queue@[i] == queue_before[i + 1]);
                    } else {
                        assert(queue@[i] == added[i - (queue_before.len() - 1)]);
                        assert(new_position_set@[i - (queue_before.len() - 1) + n] == queue@[i]);
                    }
                }
                assert forall|p: (i32, i32, i32)| #[trigger] rendered@.contains(p)
                    implies queue@.contains(p) || closed_at(rendered@, p, center) by {
                    if p == point {
                    } else if set_before.contains(p) {
                        if queue_before.contains(p) {
                            let j = choose|j: int| 0 <= j < queue_before.len() && #[trigger] queue_before[j] == p;
                            assert(j != 0);
                            assert(queue@[j - 1] == p);
                        } else {
                            assert forall|q: (i32, i32, i32)| #[trigger] adjacent(q, p) && in_sphere(q, center)
                                implies rendered@.contains(q) by {
                                assert(closed_at(set_before, p, center));
                                assert(set_before.contains(q));
                            }
                        }
                    } else {
                        assert(added.to_set().contains(p));
                        let i = choose|i: int| 0 <= i < added.len() && #[trigger] added[i] == p;
                        assert(queue@[queue_before.len() - 1 + i] == p);
                    }
                }
            }
        }
        self.rendered_chunk_set = rendered;
        new_position_set
    }

    pub fn get_chunks_to_generate() {
    }

    pub fn get_chunks_to_spawn() {
    }

    pub fn get_chunks_to_despawn() {
    }
}

} // verus!
