use verbalcode::exchange::{create, find, generate_code, CreateError, FindError, GenerateCodeError, CODE_EXPIRY};
use verbalcode::key_value_store::{InMemory, KeyValueStore};

#[test]
fn it_exchanges_limited_code_words_with_expiry() {
    let mut store = InMemory::new();

    let result = find("hello".to_string(), &mut store);
    assert!(matches!(result, Err(FindError::NotFound)));

    let result = create("message 1".to_string(), &mut store);
    assert_eq!(result.unwrap(), "hello");

    let result = find("hello".to_string(), &mut store);
    assert_eq!(result.unwrap(), "message 1".to_string());

    let result = create("message 2".to_string(), &mut store);
    assert_eq!(result.unwrap(), "goodbye");

    let result = create("message 3".to_string(), &mut store);
    assert!(matches!(result, Err(CreateError::OverCapacity)));

    store.advance(CODE_EXPIRY);

    let result = create("message 3".to_string(), &mut store);
    assert_eq!(result.unwrap(), "hello");

    let result = find("goodbye".to_string(), &mut store);
    assert!(matches!(result, Err(FindError::NotFound)));
}

#[test]
fn round_trip_returns_the_filed_message() {
    let mut store = InMemory::new();
    let code = create("a short note".to_string(), &mut store).unwrap();
    assert_eq!(find(code, &mut store).unwrap(), "a short note");
}

#[test]
fn fresh_code_is_not_found() {
    let mut store = InMemory::new();
    assert!(matches!(
        find("goodbye".to_string(), &mut store),
        Err(FindError::NotFound)
    ));
}

#[test]
fn capacity_boundary_fills_each_word_once() {
    let mut store = InMemory::new();
    let first = create("m1".to_string(), &mut store).unwrap();
    let second = create("m2".to_string(), &mut store).unwrap();
    assert_eq!(first, "hello");
    assert_eq!(second, "goodbye");
    assert_ne!(first, second);
    let third = create("m3".to_string(), &mut store);
    assert!(matches!(third, Err(CreateError::OverCapacity)));
}

#[test]
fn conflict_rolls_the_cursor_back() {
    let mut store = InMemory::new();
    create("m1".to_string(), &mut store).unwrap();
    create("m2".to_string(), &mut store).unwrap();
    // Two conflicted attempts in a row: each advances and restores the
    // cursor, so the next success still follows the cyclic order and picks
    // the word the failed attempts had probed.
    assert!(matches!(
        create("m3".to_string(), &mut store),
        Err(CreateError::OverCapacity)
    ));
    assert!(matches!(
        create("m3".to_string(), &mut store),
        Err(CreateError::OverCapacity)
    ));
    store.advance(CODE_EXPIRY);
    assert_eq!(create("m3".to_string(), &mut store).unwrap(), "hello");
}

#[test]
fn generation_walks_the_vocabulary() {
    let mut store = InMemory::new();
    assert_eq!(generate_code(&mut store).unwrap(), "hello");
    assert_eq!(generate_code(&mut store).unwrap(), "goodbye");
    // Nothing was filed under the words, so the walk wraps around freely.
    assert_eq!(generate_code(&mut store).unwrap(), "hello");
}

#[test]
fn generation_reports_exhaustion_on_an_occupied_slot() {
    let mut store = InMemory::new();
    store.set("hello", "taken", CODE_EXPIRY).unwrap();
    let result = generate_code(&mut store);
    assert!(matches!(result, Err(GenerateCodeError::OverCapacity)));
    // The cursor was stepped back, so the next attempt probes the same slot.
    let result = generate_code(&mut store);
    assert!(matches!(result, Err(GenerateCodeError::OverCapacity)));
}

#[test]
fn expiry_reclaims_a_word() {
    let mut store = InMemory::new();
    create("m1".to_string(), &mut store).unwrap();
    create("m2".to_string(), &mut store).unwrap();
    assert!(matches!(
        create("m3".to_string(), &mut store),
        Err(CreateError::OverCapacity)
    ));
    store.advance(CODE_EXPIRY);
    let code = create("m3".to_string(), &mut store).unwrap();
    assert_eq!(code, "hello");
    assert_eq!(find("hello".to_string(), &mut store).unwrap(), "m3");
}
