//! The mathematical model of a slab: per-slot generations and contents, and the order in
//! which vacant slots are handed out.
use vstd::prelude::*;

verus! {

/// The generation that follows `g` when its slot is freed: `g + 1` with wrapping
/// arithmetic, where `0` is reserved and skipped.
pub open spec fn next_generation(g: u32) -> u32 {
    if g == u32::MAX {
        1
    } else {
        (g + 1) as u32
    }
}

/// The number of slots of a slab of capacity `n` that can ever hold a value: slot indices
/// are `u32`, and `u32::MAX` marks the end of the free list.
pub open spec fn usable_slots(n: nat) -> nat {
    if n < u32::MAX {
        n
    } else {
        u32::MAX as nat
    }
}

/// The abstract state of a slab.
pub struct SlabView<T> {
    /// The generation of each slot.
    pub generations: Seq<u32>,
    /// The value held by each slot, `None` for a vacant slot.
    pub values: Seq<Option<T>>,
    /// The vacant slots, in the order in which insertions will reuse them.
    pub free: Seq<u32>,
}

impl<T> SlabView<T> {
    /// The number of slots.
    pub open spec fn capacity(self) -> nat {
        self.values.len()
    }

    /// The number of slots that can ever hold a value.
    pub open spec fn usable(self) -> nat {
        usable_slots(self.capacity())
    }

    /// Well-formedness: no generation is `0`; the free list holds, once each, exactly the
    /// vacant usable slots; slots beyond the usable ones stay vacant.
    pub open spec fn wf(self) -> bool {
        &&& self.generations.len() == self.values.len()
        &&& forall|i: int| 0 <= i < self.generations.len() ==> #[trigger] self.generations[i] != 0
        &&& self.free.no_duplicates()
        &&& forall|j: int|
            0 <= j < self.free.len() ==> {
                &&& #[trigger] self.free[j] < self.usable()
                &&& self.values[self.free[j] as int] is None
            }
        &&& forall|i: int|
            0 <= i < self.usable() && #[trigger] self.values[i] is None ==> self.free.contains(
                i as u32,
            )
        &&& forall|i: int| self.usable() <= i < self.capacity() ==> #[trigger] self.values[i] is None
    }

    /// The occupied slots.
    pub open spec fn live_slots(self) -> Set<u32> {
        Set::new(|i: u32| (i as int) < self.capacity() && self.values[i as int] is Some)
    }

    /// The keys that refer to live elements.
    pub open spec fn live_keys(self) -> Set<(u32, u32)> {
        Set::new(|k: (u32, u32)| self.is_live(k))
    }

    /// The keys of the occupied slots from slot `from` on, in slot order: what a walk over
    /// the live elements yields from there.
    pub open spec fn walk(self, from: int) -> Seq<(u32, u32)>
        decreases self.capacity() - from,
    {
        if from < 0 || from >= self.capacity() {
            Seq::empty()
        } else if self.values[from] is Some {
            seq![(from as u32, self.generations[from])] + self.walk(from + 1)
        } else {
            self.walk(from + 1)
        }
    }

    /// The state after inserting each of `vs` in turn.
    pub open spec fn insert_all(self, vs: Seq<T>) -> SlabView<T>
        decreases vs.len(),
    {
        if vs.len() == 0 {
            self
        } else {
            self.insert_all(vs.drop_last()).insert(vs.last())
        }
    }

    /// The state after the element of each key of `ks` is replaced by the value at the same
    /// position of `vs`, in turn.
    pub open spec fn set_all(self, ks: Seq<(u32, u32)>, vs: Seq<T>) -> SlabView<T>
        decreases ks.len(),
    {
        if ks.len() == 0 || vs.len() == 0 {
            self
        } else {
            self.set_all(ks.drop_last(), vs.drop_last()).set(ks.last(), vs.last())
        }
    }

    /// The number of live elements: the usable slots that are not on the free list.
    pub open spec fn len(self) -> nat {
        (self.usable() - self.free.len()) as nat
    }

    /// Whether `key` (index, generation) refers to a live element.
    pub open spec fn is_live(self, key: (u32, u32)) -> bool {
        &&& key.0 < self.capacity()
        &&& self.values[key.0 as int] is Some
        &&& self.generations[key.0 as int] == key.1
    }

    /// The element that `key` refers to, if it is live.
    pub open spec fn get(self, key: (u32, u32)) -> Option<T> {
        if self.is_live(key) {
            self.values[key.0 as int]
        } else {
            None
        }
    }

    /// The key that the next insertion returns, or `None` when no slot is vacant.
    pub open spec fn next_key(self) -> Option<(u32, u32)> {
        if self.free.len() == 0 {
            None
        } else {
            Some((self.free[0], self.generations[self.free[0] as int]))
        }
    }

    /// The state after inserting `v` (unchanged when no slot is vacant).
    pub open spec fn insert(self, v: T) -> SlabView<T> {
        if self.free.len() == 0 {
            self
        } else {
            SlabView {
                generations: self.generations,
                values: self.values.update(self.free[0] as int, Some(v)),
                free: self.free.drop_first(),
            }
        }
    }

    /// The state after removing the element of `key` (unchanged when `key` is not live).
    pub open spec fn remove(self, key: (u32, u32)) -> SlabView<T> {
        if self.is_live(key) {
            SlabView {
                generations: self.generations.update(
                    key.0 as int,
                    next_generation(self.generations[key.0 as int]),
                ),
                values: self.values.update(key.0 as int, None),
                free: seq![key.0] + self.free,
            }
        } else {
            self
        }
    }

    /// The state after the element of the live `key` is replaced by `v`.
    pub open spec fn set(self, key: (u32, u32), v: T) -> SlabView<T> {
        if self.is_live(key) {
            SlabView {
                generations: self.generations,
                values: self.values.update(key.0 as int, Some(v)),
                free: self.free,
            }
        } else {
            self
        }
    }

    /// The state after all elements are removed: every occupied slot moves to its next
    /// generation, and the free list is rebuilt in index order.
    pub open spec fn clear(self) -> SlabView<T> {
        SlabView {
            generations: Seq::new(
                self.capacity(),
                |i: int|
                    if self.values[i] is Some {
                        next_generation(self.generations[i])
                    } else {
                        self.generations[i]
                    },
            ),
            values: Seq::new(self.capacity(), |i: int| None),
            free: Seq::new(self.usable(), |i: int| i as u32),
        }
    }

    /// A fresh slab of capacity `n`: every slot vacant at generation `1`, free list in index
    /// order.
    pub open spec fn empty(n: nat) -> SlabView<T> {
        SlabView {
            generations: Seq::new(n, |i: int| 1u32),
            values: Seq::new(n, |i: int| None),
            free: Seq::new(usable_slots(n), |i: int| i as u32),
        }
    }

    /// The index of the first occupied slot at or after `from`, if any.
    pub open spec fn first_live_from(self, from: int) -> Option<int>
        decreases self.capacity() - from,
    {
        if from < 0 || from >= self.capacity() {
            None
        } else if self.values[from] is Some {
            Some(from)
        } else {
            self.first_live_from(from + 1)
        }
    }
}

/// `first_live_from` finds the occupied slot that follows `from` most closely: nothing
/// occupied lies between, and when it finds none, no slot from `from` on is occupied.
pub proof fn lemma_first_live_from<T>(v: SlabView<T>, from: int)
    requires
        0 <= from,
    ensures
        match v.first_live_from(from) {
            Some(j) => {
                &&& from <= j < v.capacity()
                &&& v.values[j] is Some
                &&& forall|l: int| from <= l < j ==> #[trigger] v.values[l] is None
            },
            None => forall|l: int| from <= l < v.capacity() ==> #[trigger] v.values[l] is None,
        },
    decreases v.capacity() - from,
{
    if from < v.capacity() && v.values[from] is None {
        lemma_first_live_from(v, from + 1);
    }
}

/// An occupied slot lies below `u32::MAX`.
pub proof fn lemma_live_index_fits<T>(v: SlabView<T>, j: int)
    requires
        v.wf(),
        0 <= j < v.capacity(),
        v.values[j] is Some,
    ensures
        j < v.usable(),
        j < u32::MAX,
{
}

/// A free list of distinct slots below `m` is no longer than `m`.
pub proof fn lemma_free_len_bound(free: Seq<u32>, m: nat)
    requires
        free.no_duplicates(),
        m <= u32::MAX,
        forall|j: int| 0 <= j < free.len() ==> #[trigger] free[j] < m,
    ensures
        free.len() <= m,
{
    free.unique_seq_to_set();
    let r = Set::<u32>::range(0u32, m as u32);
    vstd::set_lib::range_set_properties::<u32>(0u32, m as u32);
    assert forall|x: u32| free.to_set().contains(x) implies r.contains(x) by {
        let j = free.index_of(x);
        assert(free[j] == x);
    }
    vstd::set_lib::lemma_len_subset(free.to_set(), r);
}

} // verus!
