//! Identifier safety of the entity store.

use arena_sync::store::Store;

#[test]
fn insert_then_get() {
    let mut s: Store<u32> = Store::new();
    let id = s.insert(7);
    assert_eq!(s.get(id), Some(&7));
}

#[test]
fn removed_identifier_never_resolves_again() {
    let mut s: Store<u32> = Store::new();
    let id = s.insert(1);
    assert_eq!(s.remove(id), Some(1));
    assert!(s.get(id).is_none());
    // reuse the slot many times; the stale identifier stays dead
    for k in 0..10u32 {
        let fresh = s.insert(k);
        assert!(s.get(id).is_none());
        assert_eq!(s.get(fresh), Some(&k));
        s.remove(fresh);
    }
    assert!(s.get(id).is_none());
}

#[test]
fn slot_is_reused_with_new_generation() {
    let mut s: Store<u32> = Store::new();
    let id = s.insert(1);
    s.remove(id);
    let id2 = s.insert(2);
    assert_eq!(id.slot, id2.slot);
    assert_ne!(id.generation, id2.generation);
    assert_eq!(s.get(id2), Some(&2));
    assert!(s.get(id).is_none());
}

#[test]
fn remove_twice_is_silent() {
    let mut s: Store<u32> = Store::new();
    let id = s.insert(1);
    assert_eq!(s.remove(id), Some(1));
    assert_eq!(s.remove(id), None);
}
