//! The expiring key-value abstraction under the exchange: `get`, `set` with a
//! time-to-live, and an atomic signed increment.
//!
//! A store is described by two maps. `live` holds what `get` can see: every
//! key whose value was `set` and whose expiry has not passed. `counters` holds
//! what `incr_by` works on: the current numeric reading of every key the store
//! still carries, a non-numeric value reading as zero. A backend is free to
//! fail any call with a `StoreError`; what the contracts promise on `Ok` is
//! exact.

use vstd::prelude::*;
use crate::decimal;

pub mod in_memory;

pub use in_memory::InMemory;

verus! {

/// An error surfaced by a storage backend, carried opaquely.
#[derive(Debug)]
pub struct StoreError {
    pub message: String,
}

pub type StoreResult<T> = Result<T, StoreError>;

/// The value an atomic increment returns: zero when the key holds nothing,
/// and otherwise the stored reading plus the delta, wrapping as `i32` does.
pub open spec fn next_counter(counters: Map<Seq<char>, i32>, key: Seq<char>, delta: i32) -> i32 {
    if counters.contains_key(key) {
        vstd::wrapping::i32_specs::wrapping_add(counters[key], delta)
    } else {
        0
    }
}

/// What an increment leaves visible to `get`: a key with a live value keeps
/// its expiry but now shows the written counter.
pub open spec fn live_after_incr(
    live: Map<Seq<char>, Seq<char>>,
    key: Seq<char>,
    n: i32,
) -> Map<Seq<char>, Seq<char>> {
    if live.contains_key(key) {
        live.insert(key, decimal::i32_rep(n))
    } else {
        live
    }
}

/// The storage primitive the exchange is built on. The in-process `InMemory`
/// implementation lives here; a networked backend implements the same
/// interface at the transport layer.
pub trait KeyValueStore: Sized {
    /// Every key `get` would find, with its value.
    spec fn live(&self) -> Map<Seq<char>, Seq<char>>;

    /// The numeric reading of every key the store carries.
    spec fn counters(&self) -> Map<Seq<char>, i32>;

    /// The time-to-live each live key was last armed with.
    spec fn ttls(&self) -> Map<Seq<char>, u64>;

    /// Whether this store's operations cannot fail. The in-process store is
    /// infallible; a networked backend is not. Over an infallible store every
    /// method returns `Ok` and the store stays infallible.
    spec fn infallible(&self) -> bool;

    /// The current value for `key`, or absence if never set or past its
    /// expiry. Reading never changes what the store holds.
    fn get(&mut self, key: &str) -> (r: StoreResult<Option<String>>)
        ensures
            final(self).live() == old(self).live(),
            final(self).counters() == old(self).counters(),
            final(self).ttls() == old(self).ttls(),
            old(self).infallible() ==> r is Ok && final(self).infallible(),
            match r {
                Ok(found) => match found {
                    Some(v) => old(self).live().contains_key(key@) && v@ == old(self).live()[key@],
                    None => !old(self).live().contains_key(key@),
                },
                Err(_) => true,
            },
    ;

    /// Unconditionally overwrites the value and re-arms the expiry to now
    /// plus `expires` ticks.
    fn set(&mut self, key: &str, value: &str, expires: u64) -> (r: StoreResult<()>)
        requires
            expires >= 1,
        ensures
            old(self).infallible() ==> r is Ok && final(self).infallible(),
            match r {
                Ok(u) => {
                    &&& final(self).live() == old(self).live().insert(key@, value@)
                    &&& final(self).counters() == old(self).counters().insert(key@, decimal::parse_i32_spec(value@))
                    &&& final(self).ttls() == old(self).ttls().insert(key@, expires)
                },
                Err(_) => true,
            },
    ;

    /// Atomically adds `delta` to the integer stored at `key`, a missing key
    /// reading as nothing and a non-numeric value as zero, and returns the
    /// resulting value. A live key keeps the expiry it was armed with.
    fn incr_by(&mut self, key: &str, delta: i32) -> (r: StoreResult<i32>)
        ensures
            old(self).infallible() ==> r is Ok && final(self).infallible(),
            match r {
                Ok(n) => {
                    &&& n == next_counter(old(self).counters(), key@, delta)
                    &&& final(self).counters() == old(self).counters().insert(key@, n)
                    &&& final(self).live() == live_after_incr(old(self).live(), key@, n)
                    &&& final(self).ttls() == old(self).ttls()
                },
                Err(_) => true,
            },
    ;
}

} // verus!
