//! The memory bank that carries a tracked object from frame to frame: one
//! embedding and one mask per frame number, up to a capacity, the oldest
//! frame giving way first.

use vstd::prelude::*;
use vstd::std_specs::hash::spec_keys_iter;
use vstd::std_specs::iter::IteratorSpec;
use std::collections::HashMap;
use crate::ai::rotoscope::MaskBuffer;

verus! {

/// A stored frame: its number, the image embedding and the mask found on it.
pub struct MemoryEntry<E> {
    frame_number: i64,
    embedding: E,
    mask: MaskBuffer,
}

/// `k` is the smallest frame number of `m`.
pub open spec fn is_min_key<V>(m: Map<i64, V>, k: i64) -> bool {
    &&& m.dom().contains(k)
    &&& forall|j: i64| #[trigger] m.dom().contains(j) ==> k <= j
}

/// `k` is the largest frame number of `m` below `f`.
pub open spec fn is_max_below<V>(m: Map<i64, V>, k: i64, f: i64) -> bool {
    &&& m.dom().contains(k)
    &&& k < f
    &&& forall|j: i64| #[trigger] m.dom().contains(j) && j < f ==> j <= k
}

/// The smallest frame number stored in a non-empty map.
fn min_frame<V>(m: &HashMap<i64, V>) -> (k: i64)
    requires
        m@.len() > 0,
    ensures
        is_min_key(m@, k),
{
    broadcast use vstd::std_specs::hash::group_hash_axioms;
    let mut best: Option<i64> = None;
    for key in it: m.keys()
        invariant
            it.seq() == spec_keys_iter(m).remaining(),
            best is None ==> it.index() == 0,
            best matches Some(b) ==> m@.dom().contains(b) && forall|j: int|
                0 <= j < it.index() ==> b <= *#[trigger] it.seq()[j],
    {
        proof {
            assert(it.seq().unref()[it.index()] == *key);
            assert(it.seq().unref().to_set().contains(*key));
        }
        match best {
            Some(b) => {
                if *key < b {
                    best = Some(*key);
                }
            },
            None => {
                best = Some(*key);
            },
        }
    }
    proof {
        assert(spec_keys_iter(m).remaining().unref().to_set() == m@.dom());
        assert(spec_keys_iter(m).remaining().len() == m@.dom().len());
    }
    let b = match best {
        Some(b) => b,
        None => { return 0; },
    };
    proof {
        assert forall|j: i64| #[trigger] m@.dom().contains(j) implies b <= j by {
            assert(spec_keys_iter(m).remaining().unref().to_set().contains(j));
            let t = choose|t: int|
                0 <= t < spec_keys_iter(m).remaining().len() && spec_keys_iter(m).remaining().unref()[t] == j;
            assert(spec_keys_iter(m).remaining().unref()[t] == *spec_keys_iter(m).remaining()[t]);
        }
    }
    b
}

/// Memory bank for tracking objects across frames.
pub struct FrameMemoryBank<E> {
    entries: HashMap<i64, MemoryEntry<E>>,
    max_entries: usize,
}

impl<E> View for FrameMemoryBank<E> {
    type V = Map<i64, (E, MaskBuffer)>;

    /// The stored frames: frame number to (embedding, mask).
    closed spec fn view(&self) -> Map<i64, (E, MaskBuffer)> {
        self.entries@.map_values(|e: MemoryEntry<E>| (e.embedding, e.mask))
    }
}

impl<E> FrameMemoryBank<E> {
    /// Internal consistency: each entry is stored under its own frame number.
    pub closed spec fn wf(&self) -> bool {
        forall|k: i64| #[trigger] self.entries@.contains_key(k) ==> self.entries@[k].frame_number == k
    }

    /// Number of stored frames.
    pub closed spec fn count(&self) -> nat {
        self.entries@.len()
    }

    /// The capacity the bank was made with.
    pub closed spec fn capacity(&self) -> nat {
        self.max_entries as nat
    }

    /// Create an empty memory bank with the given capacity.
    pub fn new(max_entries: usize) -> (b: Self)
        ensures
            b.wf(),
            b@ == Map::<i64, (E, MaskBuffer)>::empty(),
            b.count() == 0,
            b.capacity() == max_entries,
    {
        let b = FrameMemoryBank { entries: HashMap::new(), max_entries };
        assert(b@ =~= Map::<i64, (E, MaskBuffer)>::empty());
        b
    }

    /// Store a frame's embedding and mask. When the bank already holds as many
    /// frames as its capacity (and at least one), the smallest frame number is
    /// dropped first; a frame that is stored again replaces the earlier entry.
    pub fn store_frame(&mut self, frame_number: i64, embedding: E, mask: MaskBuffer)
        requires
            old(self).wf(),
        ensures
            final(self).wf(),
            final(self).capacity() == old(self).capacity(),
            !(old(self).count() >= old(self).capacity() && old(self).count() > 0) ==> final(self)@
                == old(self)@.insert(frame_number, (embedding, mask)),
            old(self).count() >= old(self).capacity() && old(self).count() > 0 ==> exists|k: i64|
                is_min_key(old(self)@, k) && final(self)@ == old(self)@.remove(k).insert(
                    frame_number,
                    (embedding, mask),
                ),
            final(self).count() <= old(self).count() + 1,
            old(self).count() >= old(self).capacity() && old(self).count() > 0 ==> final(self).count()
                <= old(self).count(),
            old(self).count() <= old(self).capacity() && old(self).capacity() >= 1
                ==> final(self).count() <= final(self).capacity(),
            !old(self)@.dom().contains(frame_number) ==> final(self).count() == (if old(self).count()
                >= old(self).capacity() && old(self).count() > 0 {
                old(self).count()
            } else {
                old(self).count() + 1
            }),
            old(self)@.dom().contains(frame_number) && !(old(self).count() >= old(self).capacity()
                && old(self).count() > 0) ==> final(self).count() == old(self).count(),
    {
        broadcast use vstd::std_specs::hash::group_hash_axioms;
        let ghost m0 = self.entries@;
        let ghost full = m0.len() >= self.max_entries && m0.len() > 0;
        let ghost mut evicted: i64 = 0;
        if self.entries.len() >= self.max_entries && self.entries.len() > 0 {
            let oldest = min_frame(&self.entries);
            let _gone = self.entries.remove(&oldest);
            proof {
                evicted = oldest;
                assert(self.entries@ == m0.remove(oldest));
            }
        }
        let ghost m1 = self.entries@;
        let entry = MemoryEntry { frame_number, embedding, mask };
        let _previous = self.entries.insert(frame_number, entry);
        proof {
            assert(self.entries@ == m1.insert(frame_number, entry));
            assert(m0.dom().finite() && m1.dom().finite());
            let v0 = m0.map_values(|e: MemoryEntry<E>| (e.embedding, e.mask));
            assert(v0.dom() =~= m0.dom());
            if full {
                assert(is_min_key(v0, evicted));
                assert(self@ =~= v0.remove(evicted).insert(frame_number, (embedding, mask)));
                assert(m1.len() == m0.len() - 1);
                assert(is_min_key(old(self)@, evicted) && final(self)@ == old(self)@.remove(evicted).insert(
                    frame_number,
                    (embedding, mask),
                ));
            } else {
                assert(m1 == m0);
                assert(self@ =~= v0.insert(frame_number, (embedding, mask)));
            }
        }
    }

    /// The stored frame with the largest number below `frame_number`, as its
    /// (embedding, mask); `None` when no stored frame lies below it.
    pub fn nearest_before(&self, frame_number: i64) -> (r: Option<(&E, &MaskBuffer)>)
        requires
            self.wf(),
        ensures
            r is None ==> forall|k: i64| #[trigger] self@.dom().contains(k) ==> k >= frame_number,
            r matches Some(pair) ==> exists|k: i64|
                is_max_below(self@, k, frame_number) && self@[k] == (*pair.0, *pair.1),
    {
        broadcast use vstd::std_specs::hash::group_hash_axioms;
        let ghost m = self.entries@;
        let mut best: Option<i64> = None;
        for key in it: self.entries.keys()
            invariant
                m == self.entries@,
                it.seq() == spec_keys_iter(&self.entries).remaining(),
                best is None ==> forall|j: int| 0 <= j < it.index() ==> *#[trigger] it.seq()[j] >= frame_number,
                best matches Some(b) ==> m.dom().contains(b) && b < frame_number && forall|j: int|
                    0 <= j < it.index() && *#[trigger] it.seq()[j] < frame_number ==> *it.seq()[j] <= b,
        {
            proof {
                assert(it.seq().unref()[it.index()] == *key);
                assert(it.seq().unref().to_set().contains(*key));
            }
            let f = *key;
            if f < frame_number {
                match best {
                    Some(b) => {
                        if f > b {
                            best = Some(f);
                        }
                    },
                    None => {
                        best = Some(f);
                    },
                }
            }
        }
        proof {
            assert(spec_keys_iter(&self.entries).remaining().unref().to_set() == m.dom());
        }
        match best {
            Some(b) => {
                proof {
                    assert forall|j: i64| #[trigger] self@.dom().contains(j) && j < frame_number implies j
                        <= b by {
                        assert(spec_keys_iter(&self.entries).remaining().unref().to_set().contains(j));
                        let t = choose|t: int|
                            0 <= t < spec_keys_iter(&self.entries).remaining().len()
                                && spec_keys_iter(&self.entries).remaining().unref()[t] == j;
                        assert(spec_keys_iter(&self.entries).remaining().unref()[t]
                            == *spec_keys_iter(&self.entries).remaining()[t]);
                    }
                    assert(is_max_below(self@, b, frame_number));
                }
                match self.entries.get(&b) {
                    Some(e) => {
                        proof {
                            assert(m.contains_key(b) && m[b] == *e);
                            assert(is_max_below(self@, b, frame_number) && self@[b] == (e.embedding, e.mask));
                        }
                        Some((&e.embedding, &e.mask))
                    },
                    None => None,
                }
            },
            None => {
                proof {
                    assert forall|k: i64| #[trigger] self@.dom().contains(k) implies k >= frame_number by {
                        assert(spec_keys_iter(&self.entries).remaining().unref().to_set().contains(k));
                        let t = choose|t: int|
                            0 <= t < spec_keys_iter(&self.entries).remaining().len()
                                && spec_keys_iter(&self.entries).remaining().unref()[t] == k;
                        assert(spec_keys_iter(&self.entries).remaining().unref()[t]
                            == *spec_keys_iter(&self.entries).remaining()[t]);
                    }
                }
                None
            },
        }
    }

    /// Number of stored entries.
    pub fn len(&self) -> (n: usize)
        ensures
            n == self.count(),
    {
        broadcast use vstd::std_specs::hash::group_hash_axioms;
        self.entries.len()
    }

    /// Whether the bank is empty.
    pub fn is_empty(&self) -> (b: bool)
        requires
            self.wf(),
        ensures
            b == (self.count() == 0),
            b == (self@ == Map::<i64, (E, MaskBuffer)>::empty()),
    {
        broadcast use vstd::std_specs::hash::group_hash_axioms;
        let b = self.entries.len() == 0;
        proof {
            assert(self.entries@.dom().finite());
            if b {
                assert(self.entries@.dom() =~= Set::<i64>::empty());
                assert(self@ =~= Map::<i64, (E, MaskBuffer)>::empty());
            } else {
                let k = self.entries@.dom().choose();
                assert(self@.dom().contains(k));
            }
        }
        b
    }

    /// Clear all entries; the capacity stays.
    pub fn clear(&mut self)
        ensures
            final(self).wf(),
            final(self)@ == Map::<i64, (E, MaskBuffer)>::empty(),
            final(self).count() == 0,
            final(self).capacity() == old(self).capacity(),
    {
        self.entries.clear();
        assert(self@ =~= Map::<i64, (E, MaskBuffer)>::empty());
    }
}

/// After a frame is stored, it is the nearest stored frame before the next
/// frame number: propagation to frame `f + 1` starts from frame `f`.
pub proof fn lemma_stored_frame_is_nearest<V>(m: Map<i64, V>, f: i64, v: V)
    requires
        f < i64::MAX,
    ensures
        is_max_below(m.insert(f, v), f, (f + 1) as i64),
{
}

} // verus!
