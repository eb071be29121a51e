use std::collections::HashSet;

use os_slab_vault::{InsertError, Key, Slab};

#[test]
fn key_parts_round_trip() {
    let k = Key::from_parts(7, 42);
    assert_eq!(k.index(), 7);
    assert_eq!(k.generation(), 42);
    assert_eq!(k.into_parts(), (7, 42));
    assert_eq!(k, Key::from_parts(7, 42));
    assert_ne!(k, Key::from_parts(7, 43));
}

#[test]
fn key_debug_names_its_fields() {
    let k = Key::from_parts(3, 9);
    assert_eq!(format!("{:?}", k), "Key { idx: 3, generation: 9 }");
}

#[test]
fn keys_hash_by_both_parts() {
    let mut set = HashSet::new();
    set.insert(Key::from_parts(1, 1));
    set.insert(Key::from_parts(1, 2));
    set.insert(Key::from_parts(1, 1));
    assert_eq!(set.len(), 2);
}

#[test]
fn first_keys_start_at_generation_one_in_slot_order() {
    let mut s: Slab<u8, 3> = Slab::new();
    assert_eq!(s.insert(1).unwrap().into_parts(), (0, 1));
    assert_eq!(s.insert(2).unwrap().into_parts(), (1, 1));
    assert_eq!(s.insert(3).unwrap().into_parts(), (2, 1));
    assert_eq!(s.insert(4), Err(InsertError));
}

#[test]
fn zeroed_key_is_never_live() {
    let mut s: Slab<u8, 2> = Slab::new();
    let _ = s.insert(5).unwrap();
    let zero = Key::from_parts(0, 0);
    assert!(s.get(zero).is_none());
    assert!(!s.contains_key(zero));
    assert_eq!(s.remove(zero), None);
    assert_eq!(s.len(), 1);
}

#[test]
fn reuse_bumps_generation_and_keeps_old_key_stale() {
    let mut s: Slab<u8, 1> = Slab::new();
    let a = s.insert(1).unwrap();
    assert_eq!(s.remove(a), Some(1));
    let b = s.insert(2).unwrap();
    assert_eq!(b.into_parts(), (0, 2));
    assert!(s.get(a).is_none());
    assert_eq!(s.remove(a), None);
    assert_eq!(s.get(b), Some(&2));
}

#[test]
fn most_recently_freed_slot_is_reused_first() {
    let mut s: Slab<u8, 4> = Slab::new();
    let k0 = s.insert(0).unwrap();
    let _k1 = s.insert(1).unwrap();
    let k2 = s.insert(2).unwrap();
    s.remove(k0);
    s.remove(k2);
    assert_eq!(s.insert(7).unwrap().into_parts(), (2, 2));
    assert_eq!(s.insert(8).unwrap().into_parts(), (0, 2));
    assert_eq!(s.insert(9).unwrap().into_parts(), (3, 1));
    assert!(s.is_full());
}

#[test]
fn out_of_bounds_key_reads_nothing() {
    let mut s: Slab<u8, 2> = Slab::new();
    let _ = s.insert(1).unwrap();
    let far = Key::from_parts(5, 1);
    assert!(s.get(far).is_none());
    assert!(s.get_mut(far).is_none());
    assert_eq!(s.remove(far), None);
    assert!(!s.contains_key(far));
}

#[test]
fn stale_remove_leaves_slab_unchanged() {
    let mut s: Slab<u8, 2> = Slab::new();
    let a = s.insert(1).unwrap();
    let b = s.insert(2).unwrap();
    let stale = Key::from_parts(a.index(), a.generation() + 1);
    assert_eq!(s.remove(stale), None);
    assert_eq!(s.len(), 2);
    assert_eq!(s.get(a), Some(&1));
    assert_eq!(s.get(b), Some(&2));
}

#[test]
fn get_mut_writes_through() {
    let mut s: Slab<u32, 2> = Slab::new();
    let a = s.insert(1).unwrap();
    let b = s.insert(2).unwrap();
    *s.get_mut(a).unwrap() = 100;
    assert_eq!(s.get(a), Some(&100));
    assert_eq!(s.get(b), Some(&2));
    s.remove(a);
    assert!(s.get_mut(a).is_none());
}

#[test]
fn contains_key_follows_liveness() {
    let mut s: Slab<u8, 2> = Slab::new();
    let a = s.insert(1).unwrap();
    assert!(s.contains_key(a));
    s.remove(a);
    assert!(!s.contains_key(a));
}

#[test]
fn clear_makes_every_old_key_stale() {
    let mut s: Slab<u8, 2> = Slab::new();
    let a = s.insert(1).unwrap();
    let b = s.insert(2).unwrap();
    s.clear();
    assert!(s.is_empty());
    assert!(s.get(a).is_none());
    assert!(s.get(b).is_none());
    let c = s.insert(3).unwrap();
    assert_eq!(c.into_parts(), (0, 2));
    let d = s.insert(4).unwrap();
    assert_eq!(d.into_parts(), (1, 2));
    assert!(s.get(a).is_none());
    assert!(s.get(b).is_none());
}

#[test]
fn clear_keeps_generation_of_vacant_slots() {
    let mut s: Slab<u8, 2> = Slab::new();
    let _a = s.insert(1).unwrap();
    s.clear();
    let _ = s.insert(2).unwrap();
    assert_eq!(s.insert(3).unwrap().into_parts(), (1, 1));
}

#[test]
fn zero_capacity_is_empty_and_full() {
    let mut s: Slab<u8, 0> = Slab::new();
    assert_eq!(s.capacity(), 0);
    assert!(s.is_empty());
    assert!(s.is_full());
    assert_eq!(s.insert(1), Err(InsertError));
    s.clear();
    assert!(s.is_empty());
    let mut it = s.iter();
    assert!(it.next().is_none());
}

#[test]
fn default_is_an_empty_slab() {
    let s: Slab<u8, 3> = Slab::default();
    assert_eq!(s.capacity(), 3);
    assert_eq!(s.len(), 0);
    assert!(s.is_empty());
}

#[test]
fn iter_walks_live_slots_in_order_and_stops() {
    let mut s: Slab<char, 5> = Slab::new();
    let a = s.insert('a').unwrap();
    let b = s.insert('b').unwrap();
    let c = s.insert('c').unwrap();
    s.remove(b);
    let mut it = s.iter();
    assert_eq!(it.next(), Some((a, &'a')));
    assert_eq!(it.next(), Some((c, &'c')));
    assert_eq!(it.next(), None);
    assert_eq!(it.next(), None);
}

#[test]
fn iter_mut_visits_every_live_value_once() {
    let mut s: Slab<u32, 4> = Slab::new();
    let a = s.insert(1).unwrap();
    let b = s.insert(2).unwrap();
    let c = s.insert(3).unwrap();
    s.remove(b);
    let mut seen = Vec::new();
    let mut it = s.iter_mut();
    while let Some((k, v)) = it.next() {
        seen.push(k);
        *v *= 10;
    }
    assert_eq!(seen, vec![a, c]);
    assert_eq!(s.get(a), Some(&10));
    assert_eq!(s.get(c), Some(&30));
    assert_eq!(s.len(), 2);
}

#[test]
fn clear_then_fill_takes_slots_in_order() {
    let mut s: Slab<u8, 3> = Slab::new();
    let a = s.insert(1).unwrap();
    let _ = s.insert(2).unwrap();
    s.remove(a);
    s.clear();
    assert_eq!(s.insert(10).unwrap().index(), 0);
    assert_eq!(s.insert(11).unwrap().index(), 1);
    assert_eq!(s.insert(12).unwrap().index(), 2);
    assert_eq!(s.insert(13), Err(InsertError));
}

#[test]
fn walk_yields_as_many_keys_as_len() {
    let mut s: Slab<u8, 6> = Slab::new();
    let mut keys = Vec::new();
    for v in 0..6u8 {
        keys.push(s.insert(v).unwrap());
    }
    s.remove(keys[1]);
    s.remove(keys[4]);
    let mut walked = Vec::new();
    let mut it = s.iter();
    while let Some((k, v)) = it.next() {
        assert_eq!(s.get(k), Some(v));
        walked.push(k);
    }
    assert_eq!(walked.len(), s.len());
    assert_eq!(walked, vec![keys[0], keys[2], keys[3], keys[5]]);
}
