use verbalcode::key_value_store::{InMemory, KeyValueStore};

#[test]
fn set_then_get_returns_the_value() {
    let mut store = InMemory::new();
    store.set("k", "v", 10).unwrap();
    assert_eq!(store.get("k").unwrap(), Some("v".to_string()));
}

#[test]
fn get_of_a_never_set_key_is_absent() {
    let mut store = InMemory::new();
    assert_eq!(store.get("k").unwrap(), None);
}

#[test]
fn get_after_expiry_is_absent() {
    let mut store = InMemory::new();
    store.set("k", "v", 10).unwrap();
    store.advance(9);
    assert_eq!(store.get("k").unwrap(), Some("v".to_string()));
    store.advance(1);
    assert_eq!(store.get("k").unwrap(), None);
}

#[test]
fn set_rearms_the_expiry() {
    let mut store = InMemory::new();
    store.set("k", "v", 10).unwrap();
    store.advance(9);
    store.set("k", "w", 10).unwrap();
    store.advance(9);
    assert_eq!(store.get("k").unwrap(), Some("w".to_string()));
}

#[test]
fn increment_of_a_fresh_key_reads_zero() {
    let mut store = InMemory::new();
    assert_eq!(store.incr_by("ctr", 5).unwrap(), 0);
}

#[test]
fn increments_accumulate() {
    let mut store = InMemory::new();
    assert_eq!(store.incr_by("ctr", 1).unwrap(), 0);
    assert_eq!(store.incr_by("ctr", 1).unwrap(), 1);
    assert_eq!(store.incr_by("ctr", -1).unwrap(), 0);
    assert_eq!(store.incr_by("ctr", 7).unwrap(), 7);
}

#[test]
fn a_counter_is_not_visible_to_get() {
    let mut store = InMemory::new();
    store.incr_by("ctr", 1).unwrap();
    assert_eq!(store.get("ctr").unwrap(), None);
}

#[test]
fn increment_reads_a_non_numeric_value_as_zero() {
    let mut store = InMemory::new();
    store.set("k", "not a number", 10).unwrap();
    assert_eq!(store.incr_by("k", 4).unwrap(), 4);
}

#[test]
fn increment_keeps_the_expiry_and_get_sees_the_counter() {
    let mut store = InMemory::new();
    store.set("k", "5", 10).unwrap();
    assert_eq!(store.incr_by("k", 3).unwrap(), 8);
    assert_eq!(store.get("k").unwrap(), Some("8".to_string()));
    store.advance(10);
    assert_eq!(store.get("k").unwrap(), None);
}

#[test]
fn increment_of_an_expired_key_reads_zero() {
    let mut store = InMemory::new();
    store.set("k", "5", 10).unwrap();
    store.advance(10);
    assert_eq!(store.incr_by("k", 3).unwrap(), 0);
}

#[test]
fn increment_wraps_at_the_integer_limit() {
    let mut store = InMemory::new();
    store.incr_by("ctr", 0).unwrap();
    assert_eq!(store.incr_by("ctr", i32::MAX).unwrap(), i32::MAX);
    assert_eq!(store.incr_by("ctr", 1).unwrap(), i32::MIN);
}
