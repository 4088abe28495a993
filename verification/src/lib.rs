//! A small code-word exchange: short text messages are filed under code words
//! drawn from a fixed vocabulary, and read back until they expire.
//!
//! The exchange sits on top of an expiring key-value store. The store offers
//! `get`, `set` with a time-to-live, and an atomic signed increment; the
//! exchange allocates code words with a shared cursor kept in that store.

pub mod decimal;
pub mod exchange;
pub mod key_value_store;
pub mod laws;
pub mod responder;
