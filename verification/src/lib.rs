//! A fixed-capacity generational slab with generation-checked handles.
mod iter;
mod key;
pub mod laws;
mod model;
mod slab;

pub use iter::{Iter, IterMut};
pub use key::{InsertError, Key};
pub use model::{next_generation, usable_slots, SlabView};
pub use slab::Slab;
