# os_slab_vault

A fixed-capacity generational slab (object pool) with generation-checked handles, written in
Verus. `Slab<T, N>` stores up to `N` values; `insert` hands out a `Key` made of a slot index and
the slot's generation, and a key stops working once its slot is freed, because removal moves
the slot to its next generation (generation `0` is reserved).

Slots live in fixed-size arrays inside the slab, so it does not allocate. The slot array is
built with `core::array::from_fn` (every element vacant); that is the crate's one trusted call.
`IterMut::next` lends each `&mut T` from the cursor, so a reference must be dropped before
the next one is taken.

Layout of `src/`:

- `key.rs`: `Key` and `InsertError`.
- `model.rs`: `SlabView`, the mathematical model of a slab (per-slot generations and values,
  and the free list in reuse order) with the model of every operation.
- `slab.rs`: the executable `Slab`, each operation proved to refine its model operation.
- `iter.rs`: `Iter` and `IterMut`, cursors over the live elements in slot order.
- `laws.rs`: properties across operations (a read after an insert gives the value back,
  removal makes a key stale, reuse hands out a fresh key, a whole walk yields each live key
  once in slot order, and so on), proved over the model.
