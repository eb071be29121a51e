//! The fixed-capacity generational slab.
use vstd::prelude::*;

use crate::key::{InsertError, Key};
use crate::model::{next_generation, usable_slots, SlabView};

verus! {

/// `order` is the chain that starts at `head` and follows `next`, ending at `u32::MAX`.
pub open spec fn chain_follows(next: Seq<u32>, head: u32, order: Seq<u32>) -> bool {
    &&& order.len() == 0 ==> head == u32::MAX
    &&& order.len() > 0 ==> {
        &&& head == order[0]
        &&& next[order.last() as int] == u32::MAX
    }
    &&& forall|j: int|
        0 <= j < order.len() - 1 ==> #[trigger] next[order[j] as int] == order[j + 1]
}

/// `order` is the chain through `next` from `head`, and names only slots of `next`.
pub open spec fn free_list_sound(next: Seq<u32>, head: u32, order: Seq<u32>) -> bool {
    &&& chain_follows(next, head, order)
    &&& forall|j: int|
        0 <= j < order.len() ==> {
            &&& #[trigger] order[j] < next.len()
            &&& order[j] < u32::MAX
        }
}

/// The value of `free_next[i]` in a freshly built free list of a slab of capacity `n`.
pub open spec fn initial_next(i: int, n: nat) -> u32 {
    if i + 1 < usable_slots(n) {
        (i + 1) as u32
    } else {
        u32::MAX
    }
}

/// Element `i` of a fresh slot array: a vacant slot.
fn vacant_slot<T>(_i: usize) -> (r: Option<T>)
    ensures
        r is None,
{
    None
}

/// An array of `N` vacant slots, built by `core::array::from_fn`, which (as its
/// documentation states) makes the array whose element `i` is `f(i)`; here `f` is
/// `vacant_slot`, so every element is `None`.
#[verifier::external_body]
fn all_vacant<T, const N: usize>() -> (r: [Option<T>; N])
    ensures
        forall|i: int| 0 <= i < N ==> #[trigger] r@[i] is None,
{
    core::array::from_fn(vacant_slot::<T>)
}

/// A fixed-capacity generational slab storing up to `N` values of type `T`.
///
/// Each slot holds an optional value and a generation counter, in fixed-size arrays inside
/// the slab (it does not allocate); vacant slots are linked in a free list through
/// `free_next`, so that insertion takes the most recently freed slot.
pub struct Slab<T, const N: usize> {
    values: [Option<T>; N],
    generation: [u32; N],
    free_next: [u32; N],
    free_head: u32,
    len: usize,
    free_order: Ghost<Seq<u32>>,
}

impl<T, const N: usize> View for Slab<T, N> {
    type V = SlabView<T>;

    closed spec fn view(&self) -> SlabView<T> {
        SlabView {
            generations: self.generation@,
            values: self.values@,
            free: self.free_order@,
        }
    }
}

impl<T, const N: usize> Slab<T, N> {
    /// The concrete representation agrees with the model: the live count and the free-list
    /// links.
    pub closed spec fn links_ok(&self) -> bool {
        &&& self.len == self@.len()
        &&& chain_follows(self.free_next@, self.free_head, self.free_order@)
    }

    /// Well-formedness of a slab.
    pub open spec fn wf(&self) -> bool {
        &&& self@.wf()
        &&& self@.capacity() == N
        &&& self.links_ok()
    }

    /// Creates a new empty slab: every slot vacant at generation `1`.
    pub fn new() -> (s: Self)
        ensures
            s.wf(),
            s@ == SlabView::<T>::empty(N as nat),
    {
        let values: [Option<T>; N] = all_vacant();
        let generation: [u32; N] = [1u32; N];
        let mut free_next: [u32; N] = [0u32; N];
        let mut i: usize = 0;
        while i < N
            invariant
                i <= N,
                forall|j: int| 0 <= j < i ==> #[trigger] free_next@[j] == initial_next(j, N as nat),
            decreases N - i,
        {
            let nx: u32 = if i + 1 < N && i + 1 < u32::MAX as usize {
                (i + 1) as u32
            } else {
                u32::MAX
            };
            free_next.set(i, nx);
            i = i + 1;
        }
        let free_head: u32 = if N == 0 {
            u32::MAX
        } else {
            0
        };
        let ghost order = Seq::new(usable_slots(N as nat), |j: int| j as u32);
        let s = Slab { values, generation, free_next, free_head, len: 0, free_order: Ghost(order) };
        proof {
            let e = SlabView::<T>::empty(N as nat);
            assert(s@.generations =~= e.generations);
            assert(s@.values =~= e.values);
            assert(s@.free =~= e.free);
            assert forall|i: int|
                0 <= i < s@.usable() && #[trigger] s@.values[i] is None implies s@.free.contains(
                i as u32,
            ) by {
                assert(s@.free[i] == i as u32);
            }
        }
        s
    }

    /// Returns the maximum number of elements the slab can hold.
    pub fn capacity(&self) -> (r: usize)
        ensures
            r == N,
    {
        N
    }

    /// Returns the number of live elements currently stored.
    pub fn len(&self) -> (r: usize)
        requires
            self.wf(),
        ensures
            r == self@.len(),
    {
        self.len
    }

    /// Returns `true` if the slab holds no elements.
    pub fn is_empty(&self) -> (r: bool)
        requires
            self.wf(),
        ensures
            r == (self@.len() == 0),
    {
        self.len == 0
    }

    /// Returns `true` if the slab holds `N` elements.
    pub fn is_full(&self) -> (r: bool)
        requires
            self.wf(),
        ensures
            r == (self@.len() == N),
    {
        self.len == N
    }

    /// Inserts a new value into the first slot of the free list and returns a key made of
    /// that slot's index and generation.
    ///
    /// Returns `InsertError` when no slot is vacant; the slab is then unchanged.
    pub fn insert(&mut self, value: T) -> (r: Result<Key, InsertError>)
        requires
            old(self).wf(),
        ensures
            final(self).wf(),
            final(self)@ == old(self)@.insert(value),
            match r {
                Ok(k) => old(self)@.next_key() == Some(k@),
                Err(_) => {
                    &&& old(self)@.next_key() is None
                    &&& *final(self) == *old(self)
                },
            },
    {
        let ghost pre = self@;
        let ghost inserted = value;
        proof {
            crate::model::lemma_free_len_bound(pre.free, pre.usable());
        }
        let idx = match self.pop_free() {
            Some(i) => i,
            None => {
                return Err(InsertError);
            },
        };
        let i = idx as usize;
        self.values.set(i, Some(value));
        self.len = self.len + 1;
        proof {
            crate::laws::lemma_get_after_insert(pre, inserted, (idx, pre.generations[i as int]));
            assert(self@ =~= pre.insert(inserted));
        }
        Ok(Key::from_parts(idx, self.generation[i]))
    }

    /// Returns a reference to the value of `key`, or `None` when the index is out of bounds,
    /// the slot is vacant, or the slot's generation differs from the key's (a stale key).
    pub fn get(&self, key: Key) -> (r: Option<&T>)
        requires
            self.wf(),
        ensures
            match r {
                Some(v) => self@.get(key@) == Some(*v),
                None => self@.get(key@) is None,
            },
    {
        let i = key.index() as usize;
        if i >= N {
            return None;
        }
        if self.values[i].is_none() {
            return None;
        }
        if self.generation[i] != key.generation() {
            return None;
        }
        self.values[i].as_ref()
    }

    /// Returns a mutable reference to the value of `key`, or `None` when the key is invalid
    /// or stale (see `get`). A write through the reference replaces that value and nothing
    /// else.
    pub fn get_mut(&mut self, key: Key) -> (r: Option<&mut T>)
        requires
            old(self).wf(),
        ensures
            final(self).wf(),
            match r {
                Some(v) => {
                    &&& old(self)@.get(key@) == Some(*v)
                    &&& final(self)@ == old(self)@.set(key@, *final(v))
                },
                None => {
                    &&& old(self)@.get(key@) is None
                    &&& *final(self) == *old(self)
                },
            },
    {
        let i = key.index() as usize;
        if i >= N {
            return None;
        }
        if self.values[i].is_none() {
            return None;
        }
        if self.generation[i] != key.generation() {
            return None;
        }
        self.values[i].as_mut()
    }

    /// Returns `true` if `key` refers to a live element.
    pub fn contains_key(&self, key: Key) -> (r: bool)
        requires
            self.wf(),
        ensures
            r == self@.is_live(key@),
    {
        self.get(key).is_some()
    }

    /// Removes and returns the value of `key`; its slot moves to the next generation (so
    /// that `key` becomes stale) and goes to the front of the free list.
    ///
    /// When `key` is stale or invalid, returns `None` and leaves the slab unchanged.
    pub fn remove(&mut self, key: Key) -> (r: Option<T>)
        requires
            old(self).wf(),
        ensures
            final(self).wf(),
            r == old(self)@.get(key@),
            final(self)@ == old(self)@.remove(key@),
    {
        let idx = key.index();
        let i = idx as usize;
        if i >= N {
            return None;
        }
        if self.values[i].is_none() {
            return None;
        }
        if self.generation[i] != key.generation() {
            return None;
        }
        let ghost pre = self@;
        proof {
            assert(!pre.free.contains(idx)) by {
                if pre.free.contains(idx) {
                    let m = pre.free.index_of(idx);
                    assert(pre.free[m] == idx);
                }
            }
            crate::laws::lemma_remove_live(pre, key@);
        }
        let mut out: Option<T> = None;
        core::mem::swap(&mut self.values[i], &mut out);
        self.len = self.len - 1;
        self.bump_generation(i);
        self.push_free(idx);
        proof {
            assert(self@ =~= pre.remove(key@));
        }
        out
    }

    /// Removes all elements: each occupied slot moves to its next generation, and the free
    /// list is rebuilt in index order.
    pub fn clear(&mut self)
        requires
            old(self).wf(),
        ensures
            final(self).wf(),
            final(self)@ == old(self)@.clear(),
    {
        let ghost pre = self@;
        let mut i: usize = 0;
        while i < N
            invariant
                i <= N,
                pre.wf(),
                pre.capacity() == N,
                self.values@.len() == N,
                self.generation@.len() == N,
                self.free_next@.len() == N,
                forall|j: int| 0 <= j < i ==> #[trigger] self.values@[j] is None,
                forall|j: int|
                    0 <= j < i ==> #[trigger] self.generation@[j] == (if pre.values[j] is Some {
                        next_generation(pre.generations[j])
                    } else {
                        pre.generations[j]
                    }),
                forall|j: int| i <= j < N ==> #[trigger] self.values@[j] == pre.values[j],
                forall|j: int| i <= j < N ==> #[trigger] self.generation@[j] == pre.generations[j],
            decreases N - i,
        {
            if self.values[i].is_some() {
                self.values.set(i, None);
                self.bump_generation(i);
            }
            i = i + 1;
        }
        self.len = 0;
        let ghost cleared_values = self.values@;
        let ghost cleared_generations = self.generation@;
        let mut j: usize = 0;
        while j < N
            invariant
                j <= N,
                self.len == 0,
                self.values@ == cleared_values,
                self.generation@ == cleared_generations,
                self.free_next@.len() == N,
                forall|k: int| 0 <= k < j ==> #[trigger] self.free_next@[k] == initial_next(k, N as nat),
            decreases N - j,
        {
            let nx: u32 = if j + 1 < N && j + 1 < u32::MAX as usize {
                (j + 1) as u32
            } else {
                u32::MAX
            };
            self.free_next.set(j, nx);
            j = j + 1;
        }
        self.free_head = if N == 0 {
            u32::MAX
        } else {
            0
        };
        proof {
            self.free_order@ = Seq::new(usable_slots(N as nat), |k: int| k as u32);
            let post = self@;
            let c = pre.clear();
            assert(post.generations =~= c.generations);
            assert(post.values =~= c.values);
            assert(post.free =~= c.free);
            assert forall|k: int|
                0 <= k < post.usable() && #[trigger] post.values[k] is None implies post.free.contains(
                k as u32,
            ) by {
                assert(post.free[k] == k as u32);
            }
        }
    }

    /// The first occupied slot at or after `from`.
    fn first_live_index(&self, from: usize) -> (r: Option<usize>)
        requires
            self.wf(),
        ensures
            match r {
                Some(j) => {
                    &&& self@.first_live_from(from as int) == Some(j as int)
                    &&& j < N
                    &&& j < u32::MAX
                },
                None => self@.first_live_from(from as int) is None,
            },
    {
        let mut j = from;
        while j < N
            invariant
                self.wf(),
                from <= j,
                self@.first_live_from(from as int) == self@.first_live_from(j as int),
            decreases N - j,
        {
            if self.values[j].is_some() {
                proof {
                    crate::model::lemma_live_index_fits(self@, j as int);
                }
                return Some(j);
            }
            j = j + 1;
        }
        None
    }

    /// The first occupied slot at or after `from`, with its key and a reference to its value.
    pub(crate) fn live_entry_from(&self, from: usize) -> (r: Option<(usize, Key, &T)>)
        requires
            self.wf(),
        ensures
            match r {
                Some((j, k, v)) => {
                    &&& self@.first_live_from(from as int) == Some(j as int)
                    &&& k@ == (j as u32, self@.generations[j as int])
                    &&& self@.values[j as int] == Some(*v)
                },
                None => self@.first_live_from(from as int) is None,
            },
    {
        match self.first_live_index(from) {
            Some(j) => {
                proof {
                    crate::model::lemma_first_live_from(self@, from as int);
                }
                let k = Key::from_parts(j as u32, self.generation[j]);
                let v = self.values[j].as_ref().unwrap();
                Some((j, k, v))
            },
            None => None,
        }
    }

    /// The first occupied slot at or after `from`, with its key and a mutable reference to
    /// its value; a write through the reference replaces that value and nothing else.
    pub(crate) fn live_entry_from_mut(&mut self, from: usize) -> (r: Option<(usize, Key, &mut T)>)
        requires
            old(self).wf(),
        ensures
            final(self).wf(),
            match r {
                Some((j, k, v)) => {
                    &&& old(self)@.first_live_from(from as int) == Some(j as int)
                    &&& k@ == (j as u32, old(self)@.generations[j as int])
                    &&& old(self)@.values[j as int] == Some(*v)
                    &&& final(self)@ == old(self)@.set(k@, *final(v))
                },
                None => {
                    &&& old(self)@.first_live_from(from as int) is None
                    &&& *final(self) == *old(self)
                },
            },
    {
        match self.first_live_index(from) {
            Some(j) => {
                proof {
                    crate::model::lemma_first_live_from(self@, from as int);
                }
                let k = Key::from_parts(j as u32, self.generation[j]);
                let v = self.values[j].as_mut().unwrap();
                Some((j, k, v))
            },
            None => None,
        }
    }

    /// Takes the first slot off the free list: returns the head and moves the head to its
    /// link, or returns `None` when the head is the end marker `u32::MAX`.
    fn pop_free(&mut self) -> (r: Option<u32>)
        requires
            old(self).free_head == u32::MAX || (old(self).free_head as int) < old(
                self,
            ).free_next@.len(),
        ensures
            old(self).free_head == u32::MAX ==> r is None && *final(self) == *old(self),
            old(self).free_head != u32::MAX ==> {
                &&& r == Some(old(self).free_head)
                &&& final(self).free_head == old(self).free_next@[old(self).free_head as int]
                &&& final(self).free_next == old(self).free_next
                &&& final(self).values == old(self).values
                &&& final(self).generation == old(self).generation
                &&& final(self).len == old(self).len
            },
            free_list_sound(old(self).free_next@, old(self).free_head, old(self).free_order@)
                ==> {
                &&& r is Some <==> old(self).free_order@.len() > 0
                &&& r is Some ==> r == Some(old(self).free_order@[0])
                &&& final(self).free_order@ == (if r is Some {
                    old(self).free_order@.drop_first()
                } else {
                    old(self).free_order@
                })
                &&& free_list_sound(final(self).free_next@, final(self).free_head, final(self).free_order@)
            },
    {
        if self.free_head == u32::MAX {
            return None;
        }
        let idx = self.free_head;
        let next = self.free_next[idx as usize];
        self.free_head = next;
        proof {
            if self.free_order@.len() > 0 {
                self.free_order@ = self.free_order@.drop_first();
            }
        }
        Some(idx)
    }

    /// Puts slot `idx` at the front of the free list: its link becomes the old head and the
    /// head becomes `idx`.
    fn push_free(&mut self, idx: u32)
        requires
            (idx as int) < old(self).free_next@.len(),
        ensures
            final(self).free_head == idx,
            final(self).free_next@ == old(self).free_next@.update(idx as int, old(self).free_head),
            final(self).values == old(self).values,
            final(self).generation == old(self).generation,
            final(self).len == old(self).len,
            free_list_sound(old(self).free_next@, old(self).free_head, old(self).free_order@)
                && idx != u32::MAX && !old(self).free_order@.contains(idx) ==> {
                &&& final(self).free_order@ == seq![idx] + old(self).free_order@
                &&& free_list_sound(final(self).free_next@, final(self).free_head, final(self).free_order@)
            },
    {
        let i = idx as usize;
        let ghost old_order = self.free_order@;
        let ghost old_next = self.free_next@;
        let ghost old_head = self.free_head;
        let ghost sound = free_list_sound(old_next, old_head, old_order) && idx != u32::MAX
            && !old_order.contains(idx);
        self.free_next.set(i, self.free_head);
        self.free_head = idx;
        proof {
            if sound {
                self.free_order@ = seq![idx] + old_order;
                let o = self.free_order@;
                assert forall|j: int| 0 <= j < o.len() - 1 implies #[trigger] self.free_next@[o[j] as int]
                    == o[j + 1] by {
                    if j > 0 {
                        assert(o[j] == old_order[j - 1]);
                        assert(old_order.contains(o[j]));
                        assert(old_next[old_order[j - 1] as int] == old_order[j]);
                    } else {
                        assert(o[0] == idx);
                        assert(old_head == old_order[0]);
                    }
                }
                if old_order.len() > 0 {
                    assert(old_order.contains(old_order.last()));
                    assert(o.last() == old_order.last());
                }
                assert forall|j: int| 0 <= j < o.len() implies {
                    &&& #[trigger] o[j] < self.free_next@.len()
                    &&& o[j] < u32::MAX
                } by {
                    if j > 0 {
                        assert(o[j] == old_order[j - 1]);
                    }
                }
            }
        }
    }

    /// Moves slot `i` to its next generation, skipping the reserved `0`.
    fn bump_generation(&mut self, i: usize)
        requires
            i < old(self).generation@.len(),
        ensures
            final(self).generation@ == old(self).generation@.update(
                i as int,
                next_generation(old(self).generation@[i as int]),
            ),
            final(self).values == old(self).values,
            final(self).free_next == old(self).free_next,
            final(self).free_head == old(self).free_head,
            final(self).free_order == old(self).free_order,
            final(self).len == old(self).len,
    {
        let mut g = self.generation[i].wrapping_add(1);
        if g == 0 {
            g = 1;
        }
        self.generation.set(i, g);
    }
}

impl<T, const N: usize> Default for Slab<T, N> {
    /// An empty slab, as `Slab::new` makes it.
    fn default() -> (s: Self)
        ensures
            s.wf(),
            s@ == SlabView::<T>::empty(N as nat),
    {
        Self::new()
    }
}

} // verus!
