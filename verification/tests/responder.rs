use verbalcode::exchange::create;
use verbalcode::key_value_store::{InMemory, KeyValueStore, StoreError};
use verbalcode::responder::{handle, messages};

/// A backend whose every call fails, to exercise the unknown-error replies.
struct FailingStore;

impl KeyValueStore for FailingStore {
    // The two view methods exist only for specification; nothing runs them.
    fn live(&self) -> vstd::map::Map<vstd::seq::Seq<char>, vstd::seq::Seq<char>> {
        panic!()
    }

    fn counters(&self) -> vstd::map::Map<vstd::seq::Seq<char>, i32> {
        panic!()
    }

    fn ttls(&self) -> vstd::map::Map<vstd::seq::Seq<char>, u64> {
        panic!()
    }

    fn infallible(&self) -> bool {
        panic!()
    }

    fn get(&mut self, _key: &str) -> Result<Option<String>, StoreError> {
        Err(StoreError { message: "unknown".to_string() })
    }

    fn set(&mut self, _key: &str, _value: &str, _expires: u64) -> Result<(), StoreError> {
        Err(StoreError { message: "unknown".to_string() })
    }

    fn incr_by(&mut self, _key: &str, _delta: i32) -> Result<i32, StoreError> {
        Err(StoreError { message: "unknown".to_string() })
    }
}

#[test]
fn create_success() {
    let response = handle(
        "partyskunk valid message".to_string(),
        "prompter".to_string(),
        &mut InMemory::new(),
    );

    assert_eq!(response, messages::create_success("hello".to_string()))
}

#[test]
fn create_success_multiline() {
    let response = handle(
        "partyskunk valid message\nspanning lines\n".to_string(),
        "prompter".to_string(),
        &mut InMemory::new(),
    );

    assert_eq!(response, messages::create_success("hello".to_string()))
}

#[test]
fn create_over_capacity_error() {
    let mut store = InMemory::new();
    create("m1".to_string(), &mut store).unwrap();
    create("m2".to_string(), &mut store).unwrap();

    let response = handle(
        "partyskunk over capacity".to_string(),
        "prompter".to_string(),
        &mut store,
    );

    assert_eq!(response, messages::create_over_capacity_error())
}

#[test]
fn create_unknown_error() {
    let response = handle(
        "partyskunk unknown error".to_string(),
        "prompter".to_string(),
        &mut FailingStore,
    );

    assert_eq!(response, messages::create_unknown_error())
}

#[test]
fn find_success() {
    let mut store = InMemory::new();
    store.set("foundcode", "found message", 60).unwrap();

    let response = handle("foundcode".to_string(), "prompter".to_string(), &mut store);

    assert_eq!(response, messages::find_success("found message".to_string()))
}

#[test]
fn find_not_found_error() {
    let response = handle(
        "notfoundcode".to_string(),
        "prompter".to_string(),
        &mut InMemory::new(),
    );

    assert_eq!(response, messages::find_not_found_error())
}

#[test]
fn find_unknown_error() {
    let response = handle(
        "unknownerror".to_string(),
        "prompter".to_string(),
        &mut FailingStore,
    );

    assert_eq!(response, messages::find_unknown_error())
}

#[test]
fn prompt_malformed() {
    let response = handle(
        "partyskunk!".to_string(),
        "prompter".to_string(),
        &mut InMemory::new(),
    );

    assert_eq!(response, messages::prompt_malformed_error());
}

#[test]
fn prompt_create_message_invalid_error() {
    let response = handle(
        "partyskunk".to_string(),
        "prompter".to_string(),
        &mut InMemory::new(),
    );

    assert_eq!(
        response,
        messages::prompt_create_message_invalid_error("some invalid reason".to_string())
    )
}

#[test]
fn handle_reads_back_what_it_filed() {
    let mut store = InMemory::new();
    let filed = handle(
        "partyskunk the plan is on".to_string(),
        "prompter".to_string(),
        &mut store,
    );
    assert_eq!(filed, messages::create_success("hello".to_string()));

    let found = handle("hello".to_string(), "prompter".to_string(), &mut store);
    assert_eq!(found, messages::find_success("the plan is on".to_string()));
}
