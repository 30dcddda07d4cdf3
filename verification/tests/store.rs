use resp_kv::store::Store;

fn s(text: &str) -> String {
    String::from(text)
}

#[test]
fn new_store_is_empty() {
    let mut store = Store::new();
    assert_eq!(store.len(), 0);
    assert!(!store.contains_key(&s("k")));
    assert_eq!(store.get(s("k")), None);
}

#[test]
fn set_overwrites_and_clears_expiry() {
    let mut store = Store::new();
    store.set_px_at(s("k"), s("old"), 1, 0);
    store.set(s("k"), s("new"));
    assert_eq!(store.len(), 1);
    assert_eq!(store.get_at(s("k"), u128::MAX), Some(s("new")));
}

#[test]
fn set_px_at_overwrites_value_and_expiry() {
    let mut store = Store::new();
    store.set(s("k"), s("old"));
    store.set_px_at(s("k"), s("new"), 2, 100);
    assert_eq!(store.get_at(s("k"), 2_000_100), Some(s("new")));
    assert_eq!(store.get_at(s("k"), 2_000_101), None);
    assert_eq!(store.len(), 0);
}

#[test]
fn entry_is_live_up_to_its_expiry_and_removed_after() {
    let mut store = Store::new();
    store.set(s("other"), s("x"));
    store.set_px_at(s("k"), s("v"), 5, 1_000);
    assert_eq!(store.get_at(s("k"), 0), Some(s("v")));
    assert_eq!(store.get_at(s("k"), 5_001_000), Some(s("v")));
    assert!(store.contains_key(&s("k")));
    assert_eq!(store.len(), 2);
    assert_eq!(store.get_at(s("k"), 5_001_001), None);
    assert!(!store.contains_key(&s("k")));
    assert_eq!(store.len(), 1);
    assert_eq!(store.get_at(s("k"), 0), None);
    assert_eq!(store.get_at(s("other"), u128::MAX), Some(s("x")));
}

#[test]
fn zero_ttl_expires_on_the_next_tick() {
    let mut store = Store::new();
    store.set_px_at(s("k"), s("v"), 0, 7);
    assert_eq!(store.get_at(s("k"), 7), Some(s("v")));
    assert_eq!(store.get_at(s("k"), 8), None);
    assert!(!store.contains_key(&s("k")));
}

#[test]
fn expired_entry_stays_until_it_is_read() {
    let mut store = Store::new();
    store.set_px_at(s("k"), s("v"), 0, 0);
    store.set(s("other"), s("x"));
    assert_eq!(store.get_at(s("other"), 1_000), Some(s("x")));
    assert!(store.contains_key(&s("k")));
    assert_eq!(store.len(), 2);
}

#[test]
fn deadline_is_held_at_the_end_of_the_clock() {
    let mut store = Store::new();
    store.set_px_at(s("k"), s("v"), u64::MAX, u128::MAX - 1);
    assert_eq!(store.get_at(s("k"), u128::MAX), Some(s("v")));
}

#[test]
fn clock_backed_calls_agree_with_the_timed_ones() {
    let mut store = Store::new();
    store.set_px(s("soon"), s("v"), 0);
    store.set_px(s("later"), s("w"), 3_600_000);
    assert_eq!(store.get(s("soon")), None);
    assert!(!store.contains_key(&s("soon")));
    assert_eq!(store.get(s("later")), Some(s("w")));
    assert_eq!(store.len(), 1);
    let first = store.now();
    let second = store.now();
    assert!(first <= second);
}

#[test]
fn remove_deletes_the_entry() {
    let mut store = Store::new();
    store.set(s("k"), s("v"));
    store.remove(&s("k"));
    assert_eq!(store.len(), 0);
    assert_eq!(store.get_at(s("k"), 0), None);
    store.remove(&s("k"));
    assert_eq!(store.len(), 0);
}
