//! The scratch map: blocks generated on behalf of a chunk that does not
//! exist yet, keyed by absolute block position. Entries wait here until the
//! chunk owning their position is created and claims them; they are never
//! silently dropped. Held as an association vector with unique keys, viewed
//! as a map in contracts.

use vstd::prelude::*;
use crate::world::ThreeDimPos;
use crate::world::block::BlockType;

verus! {

/// The mathematical contents of an association vector: later entries win,
/// though with unique keys the order never matters.
pub open spec fn map_of(s: Seq<(ThreeDimPos, BlockType)>) -> Map<ThreeDimPos, BlockType>
    decreases s.len(),
{
    if s.len() == 0 {
        Map::empty()
    } else {
        map_of(s.drop_last()).insert(s.last().0, s.last().1)
    }
}

/// No two entries share a key.
pub open spec fn unique_keys(s: Seq<(ThreeDimPos, BlockType)>) -> bool {
    forall|i: int, j: int|
        0 <= i < j < s.len() ==> (#[trigger] s[i]).0 != (#[trigger] s[j]).0
}

/// A key is in the map exactly when some entry holds it.
pub proof fn lemma_map_of_dom(s: Seq<(ThreeDimPos, BlockType)>, k: ThreeDimPos)
    ensures
        map_of(s).contains_key(k) <==> exists|i: int| 0 <= i < s.len() && (#[trigger] s[i]).0 == k,
    decreases s.len(),
{
    if s.len() > 0 {
        lemma_map_of_dom(s.drop_last(), k);
        if s.last().0 == k {
            assert(s[s.len() - 1].0 == k);
        } else if map_of(s).contains_key(k) {
            let i = choose|i: int| 0 <= i < s.drop_last().len() && (#[trigger] s.drop_last()[i]).0 == k;
            assert(s[i].0 == k);
        } else {
            assert forall|i: int| 0 <= i < s.len() && (#[trigger] s[i]).0 == k implies false by {
                if i < s.len() - 1 {
                    assert(s.drop_last()[i].0 == k);
                }
            }
        }
    }
}

/// With unique keys, the entry holding a key gives its value in the map.
pub proof fn lemma_map_of_get(s: Seq<(ThreeDimPos, BlockType)>, i: int)
    requires
        unique_keys(s),
        0 <= i < s.len(),
    ensures
        map_of(s).contains_key(s[i].0),
        map_of(s)[s[i].0] == s[i].1,
    decreases s.len(),
{
    lemma_map_of_dom(s, s[i].0);
    if i == s.len() - 1 {
        assert(s.last() == s[i]);
    } else {
        assert(unique_keys(s.drop_last())) by {
            assert forall|a: int, b: int|
                0 <= a < b < s.drop_last().len()
                implies (#[trigger] s.drop_last()[a]).0 != (#[trigger] s.drop_last()[b]).0 by {
                assert(s[a] == s.drop_last()[a]);
                assert(s[b] == s.drop_last()[b]);
            }
        }
        assert(s.drop_last()[i] == s[i]);
        lemma_map_of_get(s.drop_last(), i);
        assert(s[s.len() - 1].0 != s[i].0);
    }
}

/// Replacing the entry at `i` replaces the key's value in the map.
pub proof fn lemma_map_of_update(s: Seq<(ThreeDimPos, BlockType)>, i: int, v: BlockType)
    requires
        unique_keys(s),
        0 <= i < s.len(),
    ensures
        map_of(s.update(i, (s[i].0, v))) =~= map_of(s).insert(s[i].0, v),
    decreases s.len(),
{
    let k = s[i].0;
    let t = s.update(i, (k, v));
    if i == s.len() - 1 {
        assert(t.drop_last() =~= s.drop_last());
        assert(t.last() == (k, v));
    } else {
        assert(unique_keys(s.drop_last())) by {
            assert forall|a: int, b: int|
                0 <= a < b < s.drop_last().len()
                implies (#[trigger] s.drop_last()[a]).0 != (#[trigger] s.drop_last()[b]).0 by {
                assert(s[a] == s.drop_last()[a]);
                assert(s[b] == s.drop_last()[b]);
            }
        }
        assert(s.drop_last()[i] == s[i]);
        lemma_map_of_update(s.drop_last(), i, v);
        assert(t.drop_last() =~= s.drop_last().update(i, (k, v)));
        assert(t.last() == s.last());
        assert(s.last().0 != k);
        assert(map_of(t) =~= map_of(s).insert(k, v));
    }
}

/// Removing the entry at `i` removes its key from the map.
pub proof fn lemma_map_of_remove(s: Seq<(ThreeDimPos, BlockType)>, i: int)
    requires
        unique_keys(s),
        0 <= i < s.len(),
    ensures
        map_of(s.remove(i)) =~= map_of(s).remove(s[i].0),
    decreases s.len(),
{
    let k = s[i].0;
    if i == s.len() - 1 {
        assert(s.remove(i) =~= s.drop_last());
        lemma_map_of_dom(s.drop_last(), k);
        assert forall|j: int| 0 <= j < s.drop_last().len()
            implies (#[trigger] s.drop_last()[j]).0 != k by {
            assert(s[j] == s.drop_last()[j]);
        }
        assert(map_of(s.drop_last()) =~= map_of(s).remove(k));
    } else {
        assert(unique_keys(s.drop_last())) by {
            assert forall|a: int, b: int|
                0 <= a < b < s.drop_last().len()
                implies (#[trigger] s.drop_last()[a]).0 != (#[trigger] s.drop_last()[b]).0 by {
                assert(s[a] == s.drop_last()[a]);
                assert(s[b] == s.drop_last()[b]);
            }
        }
        assert(s.drop_last()[i] == s[i]);
        lemma_map_of_remove(s.drop_last(), i);
        assert(s.remove(i).drop_last() =~= s.drop_last().remove(i));
        assert(s.remove(i).last() == s.last());
        assert(s.last().0 != k);
        assert(map_of(s.remove(i)) =~= map_of(s).remove(k));
    }
}

/// The scratch map itself.
pub struct ScratchMap {
    entries: Vec<(ThreeDimPos, BlockType)>,
}

impl ScratchMap {
    /// The entries as a sequence, for iteration contracts.
    pub closed spec fn entries_seq(&self) -> Seq<(ThreeDimPos, BlockType)> {
        self.entries@
    }

    /// The entries as a map from absolute position to pending block.
    pub open spec fn view(&self) -> Map<ThreeDimPos, BlockType> {
        map_of(self.entries_seq())
    }

    /// Internal consistency: no two entries share a key.
    pub open spec fn wf(&self) -> bool {
        unique_keys(self.entries_seq())
    }

    /// An empty scratch map.
    pub fn new() -> (r: ScratchMap)
        ensures
            r.wf(),
            r.view() =~= Map::<ThreeDimPos, BlockType>::empty(),
            r.entries_seq() == Seq::<(ThreeDimPos, BlockType)>::empty(),
    {
        ScratchMap { entries: Vec::new() }
    }

    /// Number of pending entries.
    pub fn len(&self) -> (r: usize)
        ensures
            r == self.entries_seq().len(),
    {
        self.entries.len()
    }

    /// The entry at a position of the vector.
    pub fn entry_at(&self, i: usize) -> (r: (ThreeDimPos, BlockType))
        requires
            i < self.entries_seq().len(),
        ensures
            r == self.entries_seq()[i as int],
    {
        self.entries[i]
    }

    /// Inserts or replaces the pending block at an absolute position.
    pub fn put(&mut self, k: ThreeDimPos, v: BlockType)
        requires
            old(self).wf(),
        ensures
            final(self).wf(),
            final(self).view() =~= old(self).view().insert(k, v),
    {
        let n = self.entries.len();
        let mut i: usize = 0;
        while i < n
            invariant
                n == self.entries_seq().len(),
                i <= n,
                *self == *old(self),
                self.wf(),
                forall|j: int| 0 <= j < i ==> (#[trigger] self.entries_seq()[j]).0 != k,
            decreases n - i,
        {
            if self.entries[i].0 == k {
                let ghost s0 = self.entries_seq();
                self.entries[i] = (k, v);
                proof {
                    assert(s0[i as int].0 == k);
                    lemma_map_of_update(s0, i as int, v);
                    assert forall|a: int, b: int|
                        0 <= a < b < self.entries_seq().len()
                        implies (#[trigger] self.entries_seq()[a]).0
                            != (#[trigger] self.entries_seq()[b]).0 by {
                        if a != i && b != i {
                            assert(self.entries_seq()[a] == s0[a]);
                            assert(self.entries_seq()[b] == s0[b]);
                        } else if a == i {
                            assert(self.entries_seq()[b] == s0[b]);
                            assert(s0[a].0 == k);
                        } else {
                            assert(self.entries_seq()[a] == s0[a]);
                            assert(s0[b].0 == k);
                        }
                    }
                }
                return;
            }
            i += 1;
        }
        let ghost s0 = self.entries_seq();
        self.entries.push((k, v));
        proof {
            assert(self.entries_seq().drop_last() =~= s0);
            assert(self.entries_seq().last() == (k, v));
            assert forall|a: int, b: int|
                0 <= a < b < self.entries_seq().len()
                implies (#[trigger] self.entries_seq()[a]).0
                    != (#[trigger] self.entries_seq()[b]).0 by {
                if b < s0.len() {
                    assert(self.entries_seq()[a] == s0[a]);
                    assert(self.entries_seq()[b] == s0[b]);
                } else {
                    assert(self.entries_seq()[a] == s0[a]);
                }
            }
        }
    }

    /// Removes and returns the pending block at an absolute position, if one
    /// is waiting there.
    pub fn take(&mut self, k: ThreeDimPos) -> (r: Option<BlockType>)
        requires
            old(self).wf(),
        ensures
            final(self).wf(),
            r == (if old(self).view().contains_key(k) {
                Some(old(self).view()[k])
            } else {
                Option::<BlockType>::None
            }),
            final(self).view() =~= old(self).view().remove(k),
    {
        let n = self.entries.len();
        let mut i: usize = 0;
        while i < n
            invariant
                n == self.entries_seq().len(),
                i <= n,
                *self == *old(self),
                self.wf(),
                forall|j: int| 0 <= j < i ==> (#[trigger] self.entries_seq()[j]).0 != k,
            decreases n - i,
        {
            if self.entries[i].0 == k {
                let ghost s0 = self.entries_seq();
                let v = self.entries[i].1;
                self.entries.remove(i);
                proof {
                    lemma_map_of_get(s0, i as int);
                    lemma_map_of_remove(s0, i as int);
                    assert forall|a: int, b: int|
                        0 <= a < b < self.entries_seq().len()
                        implies (#[trigger] self.entries_seq()[a]).0
                            != (#[trigger] self.entries_seq()[b]).0 by {
                        let a0 = if a < i { a } else { a + 1 };
                        let b0 = if b < i { b } else { b + 1 };
                        assert(self.entries_seq()[a] == s0[a0]);
                        assert(self.entries_seq()[b] == s0[b0]);
                    }
                }
                return Some(v);
            }
            i += 1;
        }
        proof {
            lemma_map_of_dom(self.entries_seq(), k);
            assert(!self.view().contains_key(k));
            assert(self.view() =~= self.view().remove(k));
        }
        None
    }

    /// Removes the entry at a position of the vector, returning it.
    pub fn remove_at(&mut self, i: usize) -> (r: (ThreeDimPos, BlockType))
        requires
            old(self).wf(),
            i < old(self).entries_seq().len(),
        ensures
            final(self).wf(),
            r == old(self).entries_seq()[i as int],
            final(self).entries_seq() == old(self).entries_seq().remove(i as int),
            final(self).view() =~= old(self).view().remove(r.0),
    {
        let ghost s0 = self.entries_seq();
        let r = self.entries.remove(i);
        proof {
            lemma_map_of_remove(s0, i as int);
            assert forall|a: int, b: int|
                0 <= a < b < self.entries_seq().len()
                implies (#[trigger] self.entries_seq()[a]).0
                    != (#[trigger] self.entries_seq()[b]).0 by {
                let a0 = if a < i { a } else { a + 1 };
                let b0 = if b < i { b } else { b + 1 };
                assert(self.entries_seq()[a] == s0[a0]);
                assert(self.entries_seq()[b] == s0[b0]);
            }
        }
        r
    }
}

} // verus!
