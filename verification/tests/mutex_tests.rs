use process_dispatcher::async_keyed_mutex::AsyncKeyedMutex;

#[test]
fn overlapping_acquires_share_one_handle() {
    let mut m = AsyncKeyedMutex::new();
    let h1 = m.get_mutex(5);
    let h2 = m.get_mutex(5);
    assert_eq!(h1.handle_id, h2.handle_id);
    assert_eq!(h1.key, 5);
    m.release(&h1);
    // One holder remains, so the handle stays alive and shared.
    let h3 = m.get_mutex(5);
    assert_eq!(h2.handle_id, h3.handle_id);
    m.release(&h2);
    m.release(&h3);
}

#[test]
fn full_release_yields_a_fresh_handle() {
    let mut m = AsyncKeyedMutex::new();
    let h1 = m.get_mutex(5);
    m.release(&h1);
    let h2 = m.get_mutex(5);
    assert_ne!(h1.handle_id, h2.handle_id);
    m.release(&h2);
}

#[test]
fn distinct_keys_use_distinct_handles() {
    let mut m = AsyncKeyedMutex::new();
    let h1 = m.get_mutex(1);
    let h2 = m.get_mutex(2);
    assert_ne!(h1.handle_id, h2.handle_id);
    m.release(&h1);
    m.release(&h2);
}

#[test]
fn cleanup_reclaims_only_dead_entries() {
    let mut m = AsyncKeyedMutex::new();
    let h1 = m.get_mutex(1);
    let h2 = m.get_mutex(2);
    m.release(&h2);
    m.cleanup();
    // Key 1 is still held; key 2 was reclaimed.
    assert_eq!(m.entries.len(), 1);
    assert_eq!(m.entries[0].key, 1);
    let h3 = m.get_mutex(1);
    assert_eq!(h1.handle_id, h3.handle_id);
    m.release(&h1);
    m.release(&h3);
    m.cleanup();
    assert_eq!(m.entries.len(), 0);
}
