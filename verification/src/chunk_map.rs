use vstd::prelude::*;

use crate::chunk::{Chunk, ChunkView};

verus! {

/// The chunks of the world by position, kept in a `hashbrown::HashMap`.
#[verifier::external_body]
pub struct ChunkMap {
    inner: hashbrown::HashMap<(i32, i32, i32), Chunk>,
}

/// The chunks that a `ChunkMap` holds, each by its view.
pub uninterp spec fn chunk_map_contents(m: ChunkMap) -> Map<(i32, i32, i32), ChunkView>;

impl View for ChunkMap {
    type V = Map<(i32, i32, i32), ChunkView>;

    open spec fn view(&self) -> Map<(i32, i32, i32), ChunkView> {
        chunk_map_contents(*self)
    }
}

impl ChunkMap {
    /// `hashbrown::HashMap::new`: an empty map.
    #[verifier::external_body]
    pub(crate) fn new() -> (map: Self)
        ensures
            chunk_map_contents(map).dom() == Set::<(i32, i32, i32)>::empty(),
    {
        ChunkMap { inner: hashbrown::HashMap::new() }
    }

    /// `hashbrown::HashMap::contains_key`.
    #[verifier::external_body]
    pub(crate) fn contains_key(&self, k: &(i32, i32, i32)) -> (b: bool)
        ensures
            b == chunk_map_contents(*self).contains_key(*k),
    {
        self.inner.contains_key(k)
    }

    /// `hashbrown::HashMap::get`: the chunk at `k`, if there is one.
    #[verifier::external_body]
    pub(crate) fn get(&self, k: &(i32, i32, i32)) -> (r: Option<&Chunk>)
        ensures
            r is Some <==> chunk_map_contents(*self).contains_key(*k),
            r is Some ==> r.unwrap()@ == chunk_map_contents(*self)[*k],
    {
        self.inner.get(k)
    }

    /// `hashbrown::HashMap::get_mut`: the chunk at `k`, to change in place.
    #[verifier::external_body]
    pub(crate) fn get_mut(&mut self, k: &(i32, i32, i32)) -> (r: Option<&mut Chunk>)
        ensures
            r is Some <==> chunk_map_contents(*old(self)).contains_key(*k),
            r is Some ==> (*r.unwrap())@ == chunk_map_contents(*old(self))[*k],
            r is Some ==> chunk_map_contents(*final(self)) == chunk_map_contents(*old(self)).insert(*k, (*final(r.unwrap()))@),
            r is None ==> chunk_map_contents(*final(self)) == chunk_map_contents(*old(self)),
    {
        self.inner.get_mut(k)
    }

    /// `hashbrown::HashMap::insert`: `k` now maps to `v`.
    #[verifier::external_body]
    pub(crate) fn insert(&mut self, k: (i32, i32, i32), v: Chunk)
        ensures
            chunk_map_contents(*final(self)) == chunk_map_contents(*old(self)).insert(k, v@),
    {
        self.inner.insert(k, v);
    }
}

} // verus!
