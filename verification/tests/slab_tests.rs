use os_slab_vault::{InsertError, Slab};

#[test]
fn insert_get_remove_roundtrip() {
    let mut s: Slab<&'static str, 2> = Slab::new();
    assert!(s.is_empty());
    assert!(!s.is_full());

    let a = s.insert("a").unwrap();
    let b = s.insert("b").unwrap();
    assert!(s.is_full());
    assert_eq!(s.len(), 2);

    assert_eq!(s.get(a), Some(&"a"));
    assert_eq!(s.get(b), Some(&"b"));

    let out = s.remove(a).unwrap();
    assert_eq!(out, "a");
    assert!(s.get(a).is_none());
    assert_eq!(s.len(), 1);

    // Slot reuse must create a different generation.
    let a2 = s.insert("a2").unwrap();
    assert_ne!(a.into_parts(), a2.into_parts());
    assert!(s.get(a).is_none());
    assert_eq!(s.get(a2), Some(&"a2"));
}

#[test]
fn full_returns_error() {
    let mut s: Slab<u32, 1> = Slab::new();
    let _ = s.insert(10).unwrap();
    assert_eq!(s.insert(11), Err(InsertError));
}

#[test]
fn clear_drops_and_resets() {
    let mut s: Slab<String, 4> = Slab::new();
    let _ = s.insert("x".to_string()).unwrap();
    let _ = s.insert("y".to_string()).unwrap();
    s.clear();
    assert_eq!(s.len(), 0);
    assert!(s.insert("z".to_string()).is_ok());
}

#[test]
fn iter_yields_all_live() {
    let mut s: Slab<u32, 4> = Slab::new();
    let k1 = s.insert(1).unwrap();
    let k2 = s.insert(2).unwrap();
    let k3 = s.insert(3).unwrap();
    let _ = s.remove(k1).unwrap();

    let mut keys = Vec::new();
    let mut it = s.iter();
    while let Some((k, _)) = it.next() {
        keys.push(k);
    }
    keys.sort_by_key(|k| k.index());
    assert_eq!(keys, vec![k2, k3]);
}

#[test]
fn iter_mut_can_modify() {
    let mut s: Slab<u32, 3> = Slab::new();
    let _ = s.insert(1).unwrap();
    let _ = s.insert(10).unwrap();

    let mut it = s.iter_mut();
    while let Some((_k, v)) = it.next() {
        *v += 1;
    }

    let mut values = Vec::new();
    let mut it = s.iter();
    while let Some((_, v)) = it.next() {
        values.push(*v);
    }
    assert!(values.contains(&2));
    assert!(values.contains(&11));
}
