//! Properties that hold across the slab's operations, stated over its model.
use vstd::prelude::*;

use crate::model::{next_generation, usable_slots, SlabView};

verus! {

/// A fresh slab is well-formed and empty, no key is live in it, and (when it has a slot)
/// its first insertion gets slot `0` at generation `1`.
pub proof fn lemma_new_is_empty<T>(n: nat)
    ensures
        SlabView::<T>::empty(n).wf(),
        SlabView::<T>::empty(n).len() == 0,
        forall|k: (u32, u32)| #[trigger] SlabView::<T>::empty(n).get(k) is None,
        n > 0 ==> SlabView::<T>::empty(n).next_key() == Some((0u32, 1u32)),
{
    let e = SlabView::<T>::empty(n);
    assert forall|i: int| 0 <= i < e.usable() && #[trigger] e.values[i] is None implies e.free.contains(
        i as u32,
    ) by {
        assert(e.free[i] == i as u32);
    }
}

/// Reading a key right after the insertion that returned it gives back the inserted value,
/// and every other key reads as before.
pub proof fn lemma_get_after_insert<T>(s: SlabView<T>, v: T, k: (u32, u32))
    requires
        s.wf(),
        s.next_key() == Some(k),
    ensures
        s.get(k) is None,
        s.insert(v).get(k) == Some(v),
        forall|other: (u32, u32)| other != k ==> #[trigger] s.insert(v).get(other) == s.get(other),
        s.insert(v).len() == s.len() + 1,
        s.insert(v).wf(),
{
    let t = s.insert(v);
    assert(s.free[0] < s.usable());
    assert(t.free =~= s.free.drop_first());
    crate::model::lemma_free_len_bound(s.free, s.usable());
    assert forall|j: int| 0 <= j < t.free.len() implies {
        &&& #[trigger] t.free[j] < t.usable()
        &&& t.values[t.free[j] as int] is None
    } by {
        assert(t.free[j] == s.free[j + 1]);
    }
    assert forall|i: int| 0 <= i < t.usable() && #[trigger] t.values[i] is None implies t.free.contains(
        i as u32,
    ) by {
        let m = s.free.index_of(i as u32);
        assert(s.free[m] == i as u32);
        assert(t.free[m - 1] == i as u32);
    }
}

/// The count of live elements is the number of occupied slots.
pub proof fn lemma_len_counts_live_slots<T>(s: SlabView<T>)
    requires
        s.wf(),
    ensures
        s.len() == s.live_slots().len(),
        s.live_slots().finite(),
        s.len() <= s.capacity(),
{
    let u = s.usable();
    let all = Set::<u32>::range(0u32, u as u32);
    vstd::set_lib::range_set_properties::<u32>(0u32, u as u32);
    let free_set = s.free.to_set();
    s.free.unique_seq_to_set();
    let live = s.live_slots();
    assert forall|x: u32| free_set.contains(x) implies all.contains(x) && !live.contains(x) by {
        let j = s.free.index_of(x);
        assert(s.free[j] == x);
    }
    assert forall|x: u32| live.contains(x) implies all.contains(x) by {
        if x as int >= u {
            assert(s.values[x as int] is None);
        }
    }
    assert forall|x: u32| all.contains(x) implies #[trigger] (live + free_set).contains(x) by {
        if s.values[x as int] is None {
            assert(s.free.contains(x));
        }
    }
    assert(live + free_set =~= all);
    vstd::set_lib::lemma_len_subset(live, all);
    vstd::set_lib::lemma_set_disjoint_lens(live, free_set);
}

/// A failed insertion (no vacant slot) changes nothing: every key reads as before, the
/// count stays at its maximum, and the state is the same.
pub proof fn lemma_failed_insert_changes_nothing<T>(s: SlabView<T>, v: T)
    requires
        s.wf(),
        s.next_key() is None,
    ensures
        s.insert(v) == s,
        forall|k: (u32, u32)| #[trigger] s.insert(v).get(k) == s.get(k),
        s.insert(v).len() == s.len(),
        s.len() == s.usable(),
{
}

/// Insertion fails exactly when the slab is full, for a capacity whose slots can all be
/// named by a `u32` index.
pub proof fn lemma_insert_fails_iff_full<T>(s: SlabView<T>)
    requires
        s.wf(),
        s.capacity() <= u32::MAX,
    ensures
        s.next_key() is None <==> s.len() == s.capacity(),
{
    crate::model::lemma_free_len_bound(s.free, s.usable());
}

/// Removing a live key hands back its value, makes the key read as absent, and leaves
/// every other key as it was; the count drops by one.
pub proof fn lemma_remove_live<T>(s: SlabView<T>, k: (u32, u32))
    requires
        s.wf(),
        s.is_live(k),
    ensures
        s.get(k) is Some,
        s.remove(k).get(k) is None,
        forall|other: (u32, u32)| other != k ==> #[trigger] s.remove(k).get(other) == s.get(other),
        s.remove(k).len() + 1 == s.len(),
        s.remove(k).wf(),
{
    let t = s.remove(k);
    assert(!s.free.contains(k.0)) by {
        if s.free.contains(k.0) {
            let m = s.free.index_of(k.0);
            assert(s.free[m] == k.0);
        }
    }
    assert(k.0 < s.usable());
    assert forall|a: int, b: int|
        0 <= a < t.free.len() && 0 <= b < t.free.len() && a != b implies t.free[a] != t.free[b] by {
        if a > 0 && b > 0 {
            assert(t.free[a] == s.free[a - 1]);
            assert(t.free[b] == s.free[b - 1]);
        } else if a == 0 {
            assert(s.free.contains(t.free[b]));
        } else {
            assert(s.free.contains(t.free[a]));
        }
    }
    assert forall|j: int| 0 <= j < t.free.len() implies {
        &&& #[trigger] t.free[j] < t.usable()
        &&& t.values[t.free[j] as int] is None
    } by {
        if j > 0 {
            assert(t.free[j] == s.free[j - 1]);
        }
    }
    assert forall|i: int| 0 <= i < t.usable() && #[trigger] t.values[i] is None implies t.free.contains(
        i as u32,
    ) by {
        if i != k.0 {
            let m = s.free.index_of(i as u32);
            assert(s.free[m] == i as u32);
            assert(t.free[m + 1] == i as u32);
        } else {
            assert(t.free[0] == i as u32);
        }
    }
    crate::model::lemma_free_len_bound(t.free, t.usable());
}

/// Removing a key that is not live changes nothing and hands back nothing.
pub proof fn lemma_remove_stale<T>(s: SlabView<T>, k: (u32, u32))
    requires
        !s.is_live(k),
    ensures
        s.get(k) is None,
        s.remove(k) == s,
{
}

/// Once a key is removed, the slot's next insertion gets a different key, and the removed
/// key stays absent after that insertion.
pub proof fn lemma_reuse_gives_fresh_key<T>(s: SlabView<T>, k: (u32, u32), v: T)
    requires
        s.wf(),
        s.is_live(k),
    ensures
        s.remove(k).next_key() == Some((k.0, next_generation(k.1))),
        next_generation(k.1) != k.1,
        s.remove(k).insert(v).get(k) is None,
{
    lemma_remove_live(s, k);
}

/// Inserting and then removing the key that came back restores every slot's contents and
/// the free list; only that slot's generation has moved on.
pub proof fn lemma_remove_undoes_insert<T>(s: SlabView<T>, v: T, k: (u32, u32))
    requires
        s.wf(),
        s.next_key() == Some(k),
    ensures
        s.insert(v).remove(k).values == s.values,
        s.insert(v).remove(k).free == s.free,
        s.insert(v).remove(k).generations == s.generations.update(
            k.0 as int,
            next_generation(k.1),
        ),
        forall|other: (u32, u32)| #[trigger] s.insert(v).remove(k).get(other) == s.get(other),
{
    let t = s.insert(v).remove(k);
    assert(t.values =~= s.values);
    assert(t.free =~= s.free);
    assert(t.generations =~= s.generations.update(k.0 as int, next_generation(k.1)));
}

/// A slot's generation counts up with wrapping arithmetic and never takes the reserved
/// value `0`: after `u32::MAX` it returns to `1`.
pub proof fn lemma_generation_wraps_to_one(g: u32)
    ensures
        next_generation(g) != 0,
        g < u32::MAX ==> next_generation(g) == g + 1,
        g == u32::MAX ==> next_generation(g) == 1,
        next_generation(g) != g,
{
}

/// Generation `0` is never live, so a key read from zeroed memory refers to nothing.
pub proof fn lemma_generation_zero_never_live<T>(s: SlabView<T>, k: (u32, u32))
    requires
        s.wf(),
        k.1 == 0,
    ensures
        !s.is_live(k),
        s.get(k) is None,
{
}

/// Writing through a live key's mutable reference changes what that key reads and nothing
/// else.
pub proof fn lemma_get_after_set<T>(s: SlabView<T>, k: (u32, u32), v: T)
    requires
        s.wf(),
        s.is_live(k),
    ensures
        s.set(k, v).get(k) == Some(v),
        forall|other: (u32, u32)| other != k ==> #[trigger] s.set(k, v).get(other) == s.get(other),
        s.set(k, v).len() == s.len(),
        s.set(k, v).wf(),
{
}

/// Clearing leaves a well-formed, empty slab in which every key is absent; every key live
/// before the clear stays absent after the next insertion; and when the slab has a usable
/// slot, that insertion succeeds.
pub proof fn lemma_clear<T>(s: SlabView<T>, v: T)
    requires
        s.wf(),
    ensures
        s.clear().wf(),
        s.clear().len() == 0,
        forall|k: (u32, u32)| #[trigger] s.clear().get(k) is None,
        forall|k: (u32, u32)| s.is_live(k) ==> #[trigger] s.clear().insert(v).get(k) is None,
        s.capacity() > 0 ==> s.clear().next_key() is Some,
{
    let c = s.clear();
    assert forall|i: int| 0 <= i < c.usable() && #[trigger] c.values[i] is None implies c.free.contains(
        i as u32,
    ) by {
        assert(c.free[i] == i as u32);
    }
    assert forall|k: (u32, u32)| s.is_live(k) implies #[trigger] c.insert(v).get(k) is None by {
        assert(c.generations[k.0 as int] == next_generation(s.generations[k.0 as int]));
    }
    if s.capacity() > 0 {
        assert(usable_slots(s.capacity()) > 0);
    }
}

/// Walking a slab with `first_live_from` skips no occupied slot: the slot it finds is the
/// nearest occupied one, and when it finds none, no slot from `from` on is occupied.
pub proof fn lemma_walk_skips_nothing<T>(s: SlabView<T>, from: int)
    requires
        0 <= from,
    ensures
        match s.first_live_from(from) {
            Some(j) => {
                &&& from <= j < s.capacity()
                &&& s.values[j] is Some
                &&& forall|l: int| from <= l < j ==> #[trigger] s.values[l] is None
            },
            None => forall|l: int| from <= l < s.capacity() ==> #[trigger] s.values[l] is None,
        },
{
    crate::model::lemma_first_live_from(s, from);
}

/// Clearing moves every occupied slot to its next (different) generation and keeps the
/// generation of every vacant slot, so a key that is stale before the clear stays stale.
pub proof fn lemma_clear_generations<T>(s: SlabView<T>)
    requires
        s.wf(),
    ensures
        s.clear().generations.len() == s.generations.len(),
        forall|i: int|
            0 <= i < s.capacity() && s.values[i] is None ==> #[trigger] s.clear().generations[i]
                == s.generations[i],
        forall|i: int|
            0 <= i < s.capacity() && s.values[i] is Some ==> {
                &&& #[trigger] s.clear().generations[i] == next_generation(s.generations[i])
                &&& s.clear().generations[i] != s.generations[i]
            },
{
}

/// A key removed before a clear, and a key live at the clear, both stay absent however
/// many insertions follow the clear.
pub proof fn lemma_stale_after_clear_and_refill<T>(s: SlabView<T>, k: (u32, u32), vs: Seq<T>)
    requires
        s.wf(),
        s.is_live(k),
        vs.len() <= s.usable(),
    ensures
        s.remove(k).clear().insert_all(vs).get(k) is None,
        s.clear().insert_all(vs).get(k) is None,
{
    lemma_remove_live(s, k);
    let r = s.remove(k);
    lemma_clear_generations(r);
    lemma_clear_generations(s);
    let rc = r.clear();
    let sc = s.clear();
    lemma_insert_all_takes_free(rc, vs);
    lemma_insert_all_takes_free(sc, vs);
    assert(rc.generations[k.0 as int] == next_generation(k.1));
    assert(sc.generations[k.0 as int] == next_generation(k.1));
}

/// Walking from `from` yields the key of the nearest occupied slot, then continues just
/// after it; it yields nothing when no slot from `from` on is occupied.
pub proof fn lemma_walk_steps<T>(s: SlabView<T>, from: int)
    requires
        0 <= from,
    ensures
        s.walk(from) == (match s.first_live_from(from) {
            Some(j) => seq![(j as u32, s.generations[j])] + s.walk(j + 1),
            None => Seq::<(u32, u32)>::empty(),
        }),
    decreases s.capacity() - from,
{
    if from < s.capacity() && s.values[from] is None {
        lemma_walk_steps(s, from + 1);
    }
}

/// A walk past the last slot yields nothing, however often it is repeated.
pub proof fn lemma_walk_ends<T>(s: SlabView<T>, from: int)
    requires
        from >= s.capacity(),
    ensures
        s.first_live_from(from) is None,
        s.walk(from).len() == 0,
{
}

/// Every key a walk from `from` yields is live and at or after `from`, the slots come in
/// strictly increasing order, and every occupied slot from `from` on is yielded.
pub proof fn lemma_walk_shape<T>(s: SlabView<T>, from: int)
    requires
        s.wf(),
        0 <= from,
    ensures
        forall|i: int|
            0 <= i < s.walk(from).len() ==> {
                &&& from <= (#[trigger] s.walk(from)[i]).0
                &&& s.is_live(s.walk(from)[i])
            },
        forall|i: int, j: int|
            0 <= i < j < s.walk(from).len() ==> (#[trigger] s.walk(from)[i]).0 < (
            #[trigger] s.walk(from)[j]).0,
        forall|l: int|
            from <= l < s.capacity() && #[trigger] s.values[l] is Some ==> s.walk(from).contains(
                (l as u32, s.generations[l]),
            ),
    decreases s.capacity() - from,
{
    if from < s.capacity() {
        lemma_walk_shape(s, from + 1);
        let w = s.walk(from);
        let rest = s.walk(from + 1);
        if s.values[from] is Some {
            crate::model::lemma_live_index_fits(s, from);
            let head = (from as u32, s.generations[from]);
            assert(w == seq![head] + rest);
            assert forall|i: int| 0 <= i < w.len() implies {
                &&& from <= (#[trigger] w[i]).0
                &&& s.is_live(w[i])
            } by {
                if i > 0 {
                    assert(w[i] == rest[i - 1]);
                }
            }
            assert forall|i: int, j: int| 0 <= i < j < w.len() implies (#[trigger] w[i]).0 < (
            #[trigger] w[j]).0 by {
                assert(w[j] == rest[j - 1]);
                if i > 0 {
                    assert(w[i] == rest[i - 1]);
                }
            }
            assert forall|l: int|
                from <= l < s.capacity() && #[trigger] s.values[l] is Some implies w.contains(
                (l as u32, s.generations[l]),
            ) by {
                if l == from {
                    assert(w[0] == head);
                } else {
                    let m = rest.index_of((l as u32, s.generations[l]));
                    assert(w[m + 1] == rest[m]);
                }
            }
        } else {
            assert forall|l: int|
                from <= l < s.capacity() && #[trigger] s.values[l] is Some implies w.contains(
                (l as u32, s.generations[l]),
            ) by {
                assert(l != from);
            }
        }
    }
}

/// A whole walk yields each live key exactly once, in increasing slot order, and as many
/// keys as the count of live elements.
pub proof fn lemma_walk_is_live_keys<T>(s: SlabView<T>)
    requires
        s.wf(),
    ensures
        s.walk(0).no_duplicates(),
        s.walk(0).to_set() == s.live_keys(),
        forall|k: (u32, u32)| s.walk(0).contains(k) <==> #[trigger] s.get(k) is Some,
        s.walk(0).len() == s.len(),
        s.live_keys().finite(),
        s.live_keys().len() == s.len(),
{
    let w = s.walk(0);
    lemma_walk_shape(s, 0);
    assert forall|a: int, b: int| 0 <= a < w.len() && 0 <= b < w.len() && a != b implies w[a]
        != w[b] by {
        if a < b {
            assert(w[a].0 < w[b].0);
        } else {
            assert(w[b].0 < w[a].0);
        }
    }
    assert forall|k: (u32, u32)| #[trigger] w.to_set().contains(k) <==> s.live_keys().contains(k) by {
        if w.contains(k) {
            let m = w.index_of(k);
            assert(w[m] == k);
        }
        if s.is_live(k) {
            assert(s.values[k.0 as int] is Some);
            assert(w.contains((k.0, s.generations[k.0 as int])));
        }
    }
    assert(w.to_set() =~= s.live_keys());
    w.unique_seq_to_set();
    lemma_len_counts_live_slots(s);
    let f = |i: u32| (i, s.generations[i as int]);
    let live = s.live_slots();
    assert forall|k: (u32, u32)| #[trigger] live.map(f).contains(k) <==> s.live_keys().contains(k) by {
        if s.live_keys().contains(k) {
            assert(live.contains(k.0) && f(k.0) == k);
        }
    }
    assert(live.map(f) =~= s.live_keys());
    vstd::set_lib::lemma_map_size(live, s.live_keys(), f);
}

/// Replacing a live element's value changes neither which keys are live nor the walk.
pub proof fn lemma_set_keeps_keys<T>(s: SlabView<T>, k: (u32, u32), v: T, from: int)
    requires
        s.is_live(k),
    ensures
        s.set(k, v).walk(from) == s.walk(from),
        s.set(k, v).live_keys() == s.live_keys(),
        s.set(k, v).generations == s.generations,
    decreases s.capacity() - from,
{
    if 0 <= from < s.capacity() {
        lemma_set_keeps_keys(s, k, v, from + 1);
    }
    assert(s.set(k, v).live_keys() =~= s.live_keys());
}

/// Whatever value replaces a live element, the walk from any slot stays the same.
pub proof fn lemma_set_keeps_walk_for_any_value<T>(s: SlabView<T>, k: (u32, u32), from: int)
    requires
        s.is_live(k),
    ensures
        forall|v: T| #[trigger] s.set(k, v).walk(from) == s.walk(from),
{
    assert forall|v: T| #[trigger] s.set(k, v).walk(from) == s.walk(from) by {
        lemma_set_keeps_keys(s, k, v, from);
    }
}

/// Writing a new value at each key of a whole walk, in turn, gives each key its new value
/// and changes neither the live keys, nor the generations, nor the count, nor the walk.
pub proof fn lemma_set_all_over_walk<T>(s: SlabView<T>, ks: Seq<(u32, u32)>, vs: Seq<T>)
    requires
        s.wf(),
        forall|i: int| 0 <= i < ks.len() ==> s.is_live(#[trigger] ks[i]),
        forall|i: int, j: int| 0 <= i < j < ks.len() ==> (#[trigger] ks[i]).0 != (#[trigger] ks[j]).0,
        vs.len() == ks.len(),
    ensures
        forall|i: int| 0 <= i < ks.len() ==> #[trigger] s.set_all(ks, vs).get(ks[i]) == Some(vs[i]),
        forall|k: (u32, u32)| !ks.contains(k) ==> #[trigger] s.set_all(ks, vs).get(k) == s.get(k),
        s.set_all(ks, vs).live_keys() == s.live_keys(),
        s.set_all(ks, vs).generations == s.generations,
        s.set_all(ks, vs).len() == s.len(),
        s.set_all(ks, vs).walk(0) == s.walk(0),
        s.set_all(ks, vs).wf(),
    decreases ks.len(),
{
    if ks.len() > 0 {
        let ks0 = ks.drop_last();
        let vs0 = vs.drop_last();
        lemma_set_all_over_walk(s, ks0, vs0);
        let t = s.set_all(ks0, vs0);
        let n = ks.len() - 1;
        let k = ks.last();
        assert(ks[n] == k);
        assert(t.live_keys().contains(k) == s.live_keys().contains(k));
        assert(t.is_live(k));
        lemma_get_after_set(t, k, vs.last());
        lemma_set_keeps_keys(t, k, vs.last(), 0);
        assert forall|i: int| 0 <= i < ks.len() implies #[trigger] s.set_all(ks, vs).get(ks[i]) == Some(
            vs[i],
        ) by {
            if i < n {
                assert(ks0[i] == ks[i]);
                assert(ks[i].0 != ks[n].0);
            }
        }
        assert forall|k2: (u32, u32)| !ks.contains(k2) implies #[trigger] s.set_all(ks, vs).get(k2)
            == s.get(k2) by {
            assert(k2 != ks[n]);
            if ks0.contains(k2) {
                let m = ks0.index_of(k2);
                assert(ks[m] == k2);
            }
        }
    }
}

/// After a clear, insertions take the usable slots in increasing order, `0` first, and the
/// insertion after the last usable slot fails.
pub proof fn lemma_inserts_after_clear<T>(s: SlabView<T>, vs: Seq<T>)
    requires
        s.wf(),
        vs.len() == s.usable(),
    ensures
        forall|j: int|
            0 <= j < vs.len() ==> #[trigger] s.clear().insert_all(vs.take(j)).next_key() == Some(
                (j as u32, s.clear().generations[j]),
            ),
        s.clear().insert_all(vs).next_key() is None,
        s.clear().insert_all(vs).len() == s.usable(),
{
    let c = s.clear();
    assert forall|j: int| 0 <= j < vs.len() implies #[trigger] c.insert_all(vs.take(j)).next_key()
        == Some((j as u32, c.generations[j])) by {
        lemma_insert_all_takes_free(c, vs.take(j));
        assert(c.insert_all(vs.take(j)).free[0] == c.free[j]);
    }
    lemma_insert_all_takes_free(c, vs);
}

/// Inserting several values consumes the free list from its front, one slot each, and
/// leaves the generations alone.
pub proof fn lemma_insert_all_takes_free<T>(s: SlabView<T>, vs: Seq<T>)
    requires
        vs.len() <= s.free.len(),
        forall|j: int| 0 <= j < s.free.len() ==> (#[trigger] s.free[j] as int) < s.values.len(),
    ensures
        s.insert_all(vs).free == s.free.skip(vs.len() as int),
        s.insert_all(vs).generations == s.generations,
        s.insert_all(vs).values.len() == s.values.len(),
    decreases vs.len(),
{
    if vs.len() > 0 {
        lemma_insert_all_takes_free(s, vs.drop_last());
        assert(s.insert_all(vs.drop_last()).free[0] == s.free[vs.len() - 1]);
        assert(s.free.skip(vs.len() - 1).drop_first() =~= s.free.skip(vs.len() as int));
    }
}

} // verus!
