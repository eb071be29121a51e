//! Walking the live elements of a slab in index order.
use vstd::prelude::*;

use crate::key::Key;
use crate::model::SlabView;
use crate::slab::Slab;

verus! {

/// A cursor over the live elements of a slab, in increasing slot order.
pub struct Iter<'a, T, const N: usize> {
    slab: &'a Slab<T, N>,
    i: usize,
}

impl<'a, T, const N: usize> Iter<'a, T, N> {
    /// The slot from which the next search starts.
    pub closed spec fn position(&self) -> int {
        self.i as int
    }

    /// The state of the slab being walked.
    pub closed spec fn slab_view(&self) -> SlabView<T> {
        self.slab@
    }

    /// The walked slab is well-formed and the cursor lies within it.
    pub closed spec fn wf(&self) -> bool {
        &&& self.slab.wf()
        &&& self.i <= N
    }

    /// Returns the key and value of the next live element, or `None` once every slot has
    /// been passed.
    pub fn next(&mut self) -> (r: Option<(Key, &'a T)>)
        requires
            old(self).wf(),
        ensures
            final(self).wf(),
            final(self).slab_view() == old(self).slab_view(),
            final(self).slab_view().wf(),
            final(self).slab_view().capacity() == N,
            0 <= final(self).position() <= N,
            final(self).position() >= old(self).position(),
            old(self).slab_view().walk(old(self).position()) == (match r {
                Some((k, _)) => seq![k@] + final(self).slab_view().walk(final(self).position()),
                None => Seq::<(u32, u32)>::empty(),
            }),
            match r {
                Some((k, v)) => {
                    &&& old(self).slab_view().first_live_from(old(self).position()) == Some(
                        k@.0 as int,
                    )
                    &&& k@.1 == old(self).slab_view().generations[k@.0 as int]
                    &&& old(self).slab_view().values[k@.0 as int] == Some(*v)
                    &&& final(self).position() == k@.0 + 1
                },
                None => {
                    &&& old(self).slab_view().first_live_from(old(self).position()) is None
                    &&& final(self).position() == N
                },
            },
    {
        proof {
            crate::model::lemma_first_live_from(self.slab@, self.i as int);
            crate::laws::lemma_walk_steps(self.slab@, self.i as int);
        }
        match self.slab.live_entry_from(self.i) {
            Some((j, k, v)) => {
                self.i = j + 1;
                Some((k, v))
            },
            None => {
                self.i = N;
                None
            },
        }
    }
}

/// A cursor over the live elements of a slab that hands out mutable references, in
/// increasing slot order.
pub struct IterMut<'a, T, const N: usize> {
    slab: &'a mut Slab<T, N>,
    i: usize,
}

impl<'a, T, const N: usize> IterMut<'a, T, N> {
    /// The slot from which the next search starts.
    pub closed spec fn position(&self) -> int {
        self.i as int
    }

    /// The current state of the slab being walked.
    pub open spec fn slab_view(&self) -> SlabView<T> {
        (*self.slab_borrow())@
    }

    /// The borrow of the slab being walked.
    pub closed spec fn slab_borrow(&self) -> &'a mut Slab<T, N> {
        self.slab
    }

    /// The walked slab is well-formed and the cursor lies within it.
    pub closed spec fn wf(&self) -> bool {
        &&& self.slab.wf()
        &&& self.i <= N
    }

    /// Once the cursor is no longer used, the slab keeps the state the cursor left it in.
    pub proof fn lemma_release(self)
        requires
            self.wf(),
            has_resolved(self),
        ensures
            *final(self.slab_borrow()) == *self.slab_borrow(),
            (*self.slab_borrow()).wf(),
    {
    }

    /// Returns the key of the next live element and a mutable reference to its value, or
    /// `None` once every slot has been passed. A write through the reference replaces that
    /// value and nothing else.
    ///
    /// The reference borrows the cursor, so one must be dropped before the next is taken:
    /// handing out references that outlive the cursor's borrow would need a raw pointer.
    pub fn next(&mut self) -> (r: Option<(Key, &mut T)>)
        requires
            old(self).wf(),
        ensures
            final(self).wf(),
            *final(final(self).slab_borrow()) == *final(old(self).slab_borrow()),
            final(self).slab_view().wf(),
            final(self).slab_view().capacity() == N,
            0 <= final(self).position() <= N,
            final(self).position() >= old(self).position(),
            old(self).slab_view().walk(old(self).position()) == (match r {
                Some((k, _)) => seq![k@] + final(self).slab_view().walk(final(self).position()),
                None => Seq::<(u32, u32)>::empty(),
            }),
            match r {
                Some((k, v)) => {
                    &&& old(self).slab_view().first_live_from(old(self).position()) == Some(
                        k@.0 as int,
                    )
                    &&& k@.1 == old(self).slab_view().generations[k@.0 as int]
                    &&& old(self).slab_view().values[k@.0 as int] == Some(*v)
                    &&& final(self).slab_view() == old(self).slab_view().set(k@, *final(v))
                    &&& final(self).position() == k@.0 + 1
                },
                None => {
                    &&& old(self).slab_view().first_live_from(old(self).position()) is None
                    &&& final(self).slab_view() == old(self).slab_view()
                    &&& final(self).position() == N
                },
            },
    {
        proof {
            crate::model::lemma_first_live_from(self.slab@, self.i as int);
            crate::laws::lemma_walk_steps(self.slab@, self.i as int);
        }
        let ghost pre = self.slab@;
        match self.slab.live_entry_from_mut(self.i) {
            Some((j, k, v)) => {
                proof {
                    crate::laws::lemma_set_keeps_walk_for_any_value(pre, k@, j as int + 1);
                }
                self.i = j + 1;
                Some((k, v))
            },
            None => {
                self.i = N;
                None
            },
        }
    }
}

impl<T, const N: usize> Slab<T, N> {
    /// Returns a cursor over `(Key, &T)` pairs for all live elements, in slot order.
    pub fn iter(&self) -> (r: Iter<'_, T, N>)
        requires
            self.wf(),
        ensures
            r.wf(),
            r.slab_view() == self@,
            r.position() == 0,
            r.slab_view().capacity() == N,
    {
        Iter { slab: self, i: 0 }
    }

    /// Returns a cursor over `(Key, &mut T)` pairs for all live elements, in slot order.
    pub fn iter_mut(&mut self) -> (r: IterMut<'_, T, N>)
        requires
            old(self).wf(),
        ensures
            r.wf(),
            r.slab_view() == old(self)@,
            r.position() == 0,
            r.slab_view().capacity() == N,
            *final(self) == *final(r.slab_borrow()),
    {
        IterMut { slab: self, i: 0 }
    }
}

} // verus!
