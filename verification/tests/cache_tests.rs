use tilecore::cache::BoundedCache;

#[test]
fn lookup_of_never_inserted_is_miss() {
    let c: BoundedCache<u32> = BoundedCache::new(4);
    assert!(c.get(7).is_none());
}

#[test]
fn insert_then_get() {
    let mut c: BoundedCache<u32> = BoundedCache::new(4);
    assert!(c.insert(7, 700));
    assert_eq!(c.get(7), Some(&700));
    assert!(c.get(8).is_none());
}

#[test]
fn pressure_never_corrupts_existing_entries() {
    // More distinct identities than slots: the overflowing inserts fail,
    // the remembered entries stay exactly as they were, and identities
    // that were never accepted report a miss.
    let mut c: BoundedCache<u32> = BoundedCache::new(2);
    assert!(c.insert(1, 10));
    assert!(c.insert(2, 20));
    assert!(!c.insert(3, 30));
    assert!(!c.insert(4, 40));
    assert_eq!(c.get(1), Some(&10));
    assert_eq!(c.get(2), Some(&20));
    assert!(c.get(3).is_none());
    assert!(c.get(4).is_none());
}

#[test]
fn update_in_place_works_even_when_full() {
    let mut c: BoundedCache<u32> = BoundedCache::new(2);
    assert!(c.insert(1, 10));
    assert!(c.insert(2, 20));
    assert!(c.insert(1, 11));
    assert_eq!(c.get(1), Some(&11));
    assert_eq!(c.get(2), Some(&20));
}

#[test]
fn clear_forgets_everything() {
    let mut c: BoundedCache<u32> = BoundedCache::new(2);
    assert!(c.insert(1, 10));
    c.clear();
    assert!(c.get(1).is_none());
    // The capacity stays: two new entries fit, a third does not.
    assert!(c.insert(5, 50));
    assert!(c.insert(6, 60));
    assert!(!c.insert(7, 70));
}

#[test]
fn zero_capacity_rejects_all() {
    let mut c: BoundedCache<u32> = BoundedCache::new(0);
    assert!(!c.insert(1, 10));
    assert!(c.get(1).is_none());
}
