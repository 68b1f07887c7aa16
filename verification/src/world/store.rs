//! The set of currently loaded chunks, keyed by origin. Origins are unique;
//! no ordering is promised.

use vstd::prelude::*;
use crate::world::ThreeDimPos;
use crate::world::WorldPos;
use crate::world::block::BlockType;
use crate::world::chunk::Chunk;
use crate::world::chunk::spec_cords_to_chunk;
use crate::world::chunk::cords_to_chunk;
use crate::world::chunk::cords_to_local;

verus! {

/// The loaded chunks.
pub struct ChunkStore {
    chunks: Vec<Chunk>,
}

/// Whether a sequence of chunks holds one with the given origin.
pub open spec fn has_origin(s: Seq<Chunk>, o: WorldPos) -> bool {
    exists|i: int| 0 <= i < s.len() && (#[trigger] s[i]).origin() == o
}

/// The chunk with the given origin (meaningful when origins are unique and
/// one such chunk exists).
pub open spec fn chunk_with(s: Seq<Chunk>, o: WorldPos) -> Chunk {
    s[choose|i: int| 0 <= i < s.len() && (#[trigger] s[i]).origin() == o]
}

impl ChunkStore {
    /// The loaded chunks as a sequence.
    pub closed spec fn chunks_seq(&self) -> Seq<Chunk> {
        self.chunks@
    }

    /// Well-formed store: every chunk is well-formed and origins are unique.
    pub open spec fn wf(&self) -> bool {
        &&& forall|i: int| 0 <= i < self.chunks_seq().len()
            ==> (#[trigger] self.chunks_seq()[i]).wf()
        &&& forall|i: int, j: int|
            0 <= i < j < self.chunks_seq().len()
                ==> (#[trigger] self.chunks_seq()[i]).origin()
                    != (#[trigger] self.chunks_seq()[j]).origin()
    }

    /// Every loaded chunk's mesh matches its grid.
    pub open spec fn meshes_current(&self) -> bool {
        forall|i: int| 0 <= i < self.chunks_seq().len()
            ==> (#[trigger] self.chunks_seq()[i]).mesh_current()
    }

    /// Whether the chunk at the given origin is loaded.
    pub open spec fn spec_has(&self, o: WorldPos) -> bool {
        has_origin(self.chunks_seq(), o)
    }

    /// The loaded chunk at the given origin.
    pub open spec fn spec_at(&self, o: WorldPos) -> Chunk {
        chunk_with(self.chunks_seq(), o)
    }

    /// The block at an absolute position: `None` when the owning chunk is
    /// not loaded.
    pub open spec fn spec_block(&self, pos: ThreeDimPos) -> Option<BlockType> {
        let o = spec_cords_to_chunk(WorldPos { x: pos.x, z: pos.z });
        if self.spec_has(o) {
            Some(self.spec_at(o).block_at(
                (pos.x as int) % 16, pos.y as int, (pos.z as int) % 16))
        } else {
            None
        }
    }

    /// An empty store.
    pub fn new() -> (r: ChunkStore)
        ensures
            r.wf(),
            r.meshes_current(),
            r.chunks_seq() == Seq::<Chunk>::empty(),
    {
        ChunkStore { chunks: Vec::new() }
    }

    /// Number of loaded chunks.
    pub fn len(&self) -> (r: usize)
        ensures
            r == self.chunks_seq().len(),
    {
        self.chunks.len()
    }

    /// The chunk at a position of the vector.
    pub fn at(&self, i: usize) -> (r: &Chunk)
        requires
            i < self.chunks_seq().len(),
        ensures
            *r == self.chunks_seq()[i as int],
    {
        &self.chunks[i]
    }

    /// Mutable access to the chunk at a position of the vector.
    pub fn at_mut(&mut self, i: usize) -> (r: &mut Chunk)
        requires
            i < old(self).chunks_seq().len(),
        ensures
            *r == old(self).chunks_seq()[i as int],
            final(self).chunks_seq()
                == old(self).chunks_seq().update(i as int, *final(r)),
    {
        &mut self.chunks[i]
    }

    /// Finds the vector position of the chunk with the given origin.
    pub fn find(&self, o: WorldPos) -> (r: Option<usize>)
        requires
            self.wf(),
        ensures
            r is Some <==> self.spec_has(o),
            r is Some ==> r->0 < self.chunks_seq().len()
                && self.chunks_seq()[r->0 as int].origin() == o
                && self.chunks_seq()[r->0 as int] == self.spec_at(o),
    {
        let n = self.chunks.len();
        let mut i: usize = 0;
        while i < n
            invariant
                n == self.chunks_seq().len(),
                i <= n,
                self.wf(),
                forall|j: int| 0 <= j < i
                    ==> (#[trigger] self.chunks_seq()[j]).origin() != o,
            decreases n - i,
        {
            if self.chunks[i].origin_pos() == o {
                proof {
                    let w = choose|k: int|
                        0 <= k < self.chunks_seq().len()
                            && (#[trigger] self.chunks_seq()[k]).origin() == o;
                    assert(self.chunks_seq()[w].origin() == o);
                    assert(w == i as int);
                }
                return Some(i);
            }
            i += 1;
        }
        proof {
            assert(!self.spec_has(o));
        }
        None
    }

    /// Inserts a chunk whose origin is not yet loaded.
    pub fn insert(&mut self, c: Chunk)
        requires
            old(self).wf(),
            c.wf(),
            !old(self).spec_has(c.origin()),
        ensures
            final(self).wf(),
            final(self).chunks_seq() == old(self).chunks_seq().push(c),
            forall|o: WorldPos| #[trigger] final(self).spec_has(o)
                <==> (old(self).spec_has(o) || o == c.origin()),
            forall|o: WorldPos| old(self).spec_has(o)
                ==> #[trigger] final(self).spec_at(o) == old(self).spec_at(o),
            final(self).spec_at(c.origin()) == c,
            old(self).meshes_current() && c.mesh_current()
                ==> final(self).meshes_current(),
    {
        let ghost s0 = self.chunks_seq();
        self.chunks.push(c);
        proof {
            let s1 = self.chunks_seq();
            assert forall|o: WorldPos| #[trigger] self.spec_has(o)
                implies (has_origin(s0, o) || o == c.origin()) by {
                let i = choose|i: int| 0 <= i < s1.len() && (#[trigger] s1[i]).origin() == o;
                if i < s0.len() {
                    assert(s0[i].origin() == o);
                } else {
                    assert(s1[i] == c);
                }
            }
            assert forall|o: WorldPos| has_origin(s0, o) || o == c.origin()
                implies #[trigger] self.spec_has(o) by {
                if has_origin(s0, o) {
                    let i = choose|i: int| 0 <= i < s0.len() && (#[trigger] s0[i]).origin() == o;
                    assert(s1[i].origin() == o);
                } else {
                    assert(s1[s0.len() as int].origin() == o);
                }
            }
            assert forall|o: WorldPos| has_origin(s0, o)
                implies #[trigger] self.spec_at(o) == chunk_with(s0, o) by {
                let i = choose|i: int| 0 <= i < s1.len() && (#[trigger] s1[i]).origin() == o;
                let j = choose|j: int| 0 <= j < s0.len() && (#[trigger] s0[j]).origin() == o;
                assert(s1[j].origin() == o);
                assert(i == j);
            }
            assert(self.spec_at(c.origin()) == c) by {
                let i = choose|i: int|
                    0 <= i < s1.len() && (#[trigger] s1[i]).origin() == c.origin();
                assert(s1[s0.len() as int].origin() == c.origin());
                assert(i == s0.len());
            }
        }
    }

    /// Removes the chunk at a position of the vector; the last chunk moves
    /// into its place.
    pub fn remove_at(&mut self, i: usize)
        requires
            old(self).wf(),
            i < old(self).chunks_seq().len(),
        ensures
            final(self).wf(),
            final(self).chunks_seq().len() == old(self).chunks_seq().len() - 1,
            final(self).chunks_seq() == old(self).chunks_seq().update(
                i as int, old(self).chunks_seq().last()).drop_last(),
            forall|o: WorldPos| #[trigger] final(self).spec_has(o)
                <==> (old(self).spec_has(o)
                    && o != old(self).chunks_seq()[i as int].origin()),
            forall|o: WorldPos|
                final(self).spec_has(o)
                    ==> #[trigger] final(self).spec_at(o) == old(self).spec_at(o),
            old(self).meshes_current() ==> final(self).meshes_current(),
    {
        let ghost s0 = self.chunks_seq();
        self.chunks.swap_remove(i);
        proof {
            let s1 = self.chunks_seq();
            let gone = s0[i as int];
            assert(s1 =~= s0.update(i as int, s0.last()).drop_last());
            assert forall|a: int, b: int| 0 <= a < b < s1.len()
                implies (#[trigger] s1[a]).origin() != (#[trigger] s1[b]).origin() by {
                let a0 = if a == i as int { s0.len() - 1 } else { a };
                let b0 = if b == i as int { s0.len() - 1 } else { b };
                assert(s1[a] == s0[a0]);
                assert(s1[b] == s0[b0]);
            }
            assert forall|o: WorldPos| #[trigger] has_origin(s1, o)
                implies (has_origin(s0, o) && o != gone.origin()) by {
                let k = choose|k: int| 0 <= k < s1.len() && (#[trigger] s1[k]).origin() == o;
                let k0 = if k == i as int { s0.len() - 1 } else { k };
                assert(s0[k0].origin() == o);
                if o == gone.origin() {
                    assert(s0[k0].origin() == s0[i as int].origin());
                }
            }
            assert forall|o: WorldPos| has_origin(s0, o) && o != gone.origin()
                implies #[trigger] has_origin(s1, o) by {
                let k = choose|k: int| 0 <= k < s0.len() && (#[trigger] s0[k]).origin() == o;
                if k == s0.len() - 1 {
                    assert(s1[i as int].origin() == o);
                } else {
                    assert(s1[k].origin() == o);
                }
            }
            assert forall|o: WorldPos| has_origin(s1, o)
                implies #[trigger] chunk_with(s1, o) == chunk_with(s0, o) by {
                let k = choose|k: int| 0 <= k < s1.len() && (#[trigger] s1[k]).origin() == o;
                let k0 = if k == i as int { s0.len() - 1 } else { k };
                assert(s0[k0].origin() == o);
                let j = choose|j: int| 0 <= j < s0.len() && (#[trigger] s0[j]).origin() == o;
                assert(j == k0);
            }
        }
    }

    /// The block at an absolute position, or `None` if the owning chunk is
    /// not currently loaded.
    pub fn get_block(&self, pos: ThreeDimPos) -> (r: Option<BlockType>)
        requires
            self.wf(),
        ensures
            r == self.spec_block(pos),
    {
        let o = cords_to_chunk(WorldPos { x: pos.x, z: pos.z });
        match self.find(o) {
            None => None,
            Some(i) => {
                let (lx, lz) = cords_to_local(WorldPos { x: pos.x, z: pos.z });
                Some(self.at(i).block(lx, pos.y as usize, lz))
            },
        }
    }
}

} // verus!
