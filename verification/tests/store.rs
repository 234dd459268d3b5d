use actix_login::store::MemoryStore;

fn state(value: &str) -> Vec<(String, String)> {
    vec![("user.id".to_owned(), value.to_owned())]
}

const MINUTE: i128 = 60_000_000_000;
const SECOND: i128 = 1_000_000_000;

#[test]
fn saved_state_is_loaded_back() {
    let mut store = MemoryStore::new();
    let key = store.save(state("1"), 5 * MINUTE);
    assert_eq!(key.len(), 64);
    assert_eq!(store.load(&key), Some(state("1")));
}

#[test]
fn an_unknown_key_loads_nothing() {
    let mut store = MemoryStore::new();
    let key = store.save(state("1"), 5 * MINUTE);
    store.delete(&key);
    assert_eq!(store.load(&key), None);
    assert!(store.is_empty());
}

#[test]
fn update_replaces_the_state_under_the_same_key() {
    let mut store = MemoryStore::new();
    let key = store.save(state("1"), 5 * MINUTE);
    let updated = store.update(key.clone(), state("2"), 5 * MINUTE);
    assert_eq!(updated, key);
    assert_eq!(store.load(&key), Some(state("2")));
    assert_eq!(store.len(), 1);
}

#[test]
fn an_expired_record_is_dropped_on_load() {
    let mut store = MemoryStore::new();
    let key = store.save(state("1"), -SECOND);
    assert_eq!(store.len(), 1);
    assert_eq!(store.load(&key), None);
    assert!(store.is_empty(), "the expired record should be gone");
}

#[test]
fn update_ttl_revives_a_record_which_was_about_to_expire() {
    let mut store = MemoryStore::new();
    let key = store.save(state("1"), -SECOND);
    store.update_ttl(&key, 5 * MINUTE);
    assert_eq!(store.load(&key), Some(state("1")));
}

#[test]
fn explicit_times() {
    let mut store = MemoryStore::new();
    store.insert_at("k".to_string(), state("a"), 10, 100);
    assert_eq!(store.load_at("k", 109), Some(state("a")));
    assert_eq!(store.len(), 1);
    assert_eq!(store.load_at("k", 110), None);
    assert_eq!(store.len(), 0);
    store.insert_at("k".to_string(), state("a"), 10, 100);
    store.update_ttl_at("k", 50, 200);
    assert_eq!(store.load_at("k", 249), Some(state("a")));
    store.update_ttl_at("missing", 50, 200);
    assert_eq!(store.len(), 1);
    store.insert_at("j".to_string(), state("b"), i128::MAX, 1);
    assert_eq!(store.load_at("j", i128::MAX - 1), Some(state("b")));
    assert_eq!(store.len(), 2);
    store.delete("k");
    store.delete("k");
    assert_eq!(store.len(), 1);
}

#[test]
fn keys_are_independent() {
    let mut store = MemoryStore::new();
    let a = store.save(state("1"), MINUTE);
    let b = store.save(state("2"), MINUTE);
    assert_ne!(a, b);
    store.delete(&a);
    assert_eq!(store.load(&b), Some(state("2")));
    assert_eq!(store.load(&a), None);
}

#[test]
fn a_fresh_save_adds_one_record_and_an_expired_load_removes_one() {
    let mut store = MemoryStore::new();
    store.insert_at("old".to_string(), state("0"), 10, 100);
    assert_eq!(store.len(), 1);
    let key = store.save(state("1"), MINUTE);
    assert_eq!(store.len(), 2);
    assert_eq!(store.load_at("old", 110), None);
    assert_eq!(store.len(), 1);
    assert_eq!(store.load(&key), Some(state("1")));
    assert_eq!(store.len(), 1);
}
