use vstd::prelude::*;

verus! {

/// A set of chunk positions, kept in a `hashbrown::HashSet`.
#[verifier::external_body]
pub struct PointSet {
    inner: hashbrown::HashSet<(i32, i32, i32)>,
}

/// The positions that a `PointSet` holds.
pub uninterp spec fn point_set_contents(s: PointSet) -> Set<(i32, i32, i32)>;

impl View for PointSet {
    type V = Set<(i32, i32, i32)>;

    open spec fn view(&self) -> Set<(i32, i32, i32)> {
        point_set_contents(*self)
    }
}

impl PointSet {
    /// `hashbrown::HashSet::new`: an empty set.
    #[verifier::external_body]
    pub(crate) fn new() -> (s: Self)
        ensures
            point_set_contents(s) == Set::<(i32, i32, i32)>::empty(),
    {
        PointSet { inner: hashbrown::HashSet::new() }
    }

    /// `hashbrown::HashSet::is_empty`: whether the set holds no position.
    #[verifier::external_body]
    pub(crate) fn is_empty(&self) -> (b: bool)
        ensures
            b == (point_set_contents(*self) == Set::<(i32, i32, i32)>::empty()),
    {
        self.inner.is_empty()
    }

    /// `hashbrown::HashSet::contains`: membership.
    #[verifier::external_body]
    pub(crate) fn contains(&self, p: &(i32, i32, i32)) -> (b: bool)
        ensures
            b == point_set_contents(*self).contains(*p),
    {
        self.inner.contains(p)
    }

    /// `hashbrown::HashSet::insert`: adds `p`; the result says whether it was absent.
    #[verifier::external_body]
    pub(crate) fn insert(&mut self, p: (i32, i32, i32)) -> (b: bool)
        ensures
            point_set_contents(*final(self)) == point_set_contents(*old(self)).insert(p),
            b == !point_set_contents(*old(self)).contains(p),
    {
        self.inner.insert(p)
    }

    /// `hashbrown::HashSet::remove`: takes `p` out; the result says whether it was there.
    #[verifier::external_body]
    pub(crate) fn remove(&mut self, p: &(i32, i32, i32)) -> (b: bool)
        ensures
            point_set_contents(*final(self)) == point_set_contents(*old(self)).remove(*p),
            b == point_set_contents(*old(self)).contains(*p),
    {
        self.inner.remove(p)
    }

    /// `hashbrown::HashSet::iter`, collected: every position once, in the set's own
    /// order, which the contract leaves open.
    #[verifier::external_body]
    pub(crate) fn to_vec(&self) -> (v: Vec<(i32, i32, i32)>)
        ensures
            v@.no_duplicates(),
            v@.to_set() == point_set_contents(*self),
    {
        self.inner.iter().copied().collect()
    }
}

} // verus!
