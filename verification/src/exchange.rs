//! The code exchange: `create` files a message under a code word drawn from a
//! fixed vocabulary; `find` reads a code word back. Allocation walks the
//! vocabulary with a shared cursor kept in the store, and backs the cursor off
//! by one when the candidate it picked is still occupied.
//!
//! The cursor compensation is a relaxed strategy: under concurrent callers the
//! net change of a failed attempt is best-effort, not guaranteed, and two
//! racing callers may file under the same word with last-write-wins. Both are
//! deliberate; see the lemmas in `laws` for what is promised.

use vstd::prelude::*;
use crate::decimal;
use crate::key_value_store::{KeyValueStore, StoreError, live_after_incr, next_counter};

verus! {

#[derive(Debug)]
pub enum CreateError {
    OverCapacity,
    Unknown(StoreError),
}

#[derive(Debug)]
pub enum FindError {
    NotFound,
    Unknown(StoreError),
}

#[derive(Debug)]
pub enum GenerateCodeError {
    OverCapacity,
    Unknown(StoreError),
}

pub type CreateResult = Result<String, CreateError>;

pub type FindResult = Result<String, FindError>;

pub type GenerateCodeResult = Result<String, GenerateCodeError>;

impl From<GenerateCodeError> for CreateError {
    fn from(error: GenerateCodeError) -> Self {
        match error {
            GenerateCodeError::OverCapacity => CreateError::OverCapacity,
            GenerateCodeError::Unknown(error) => CreateError::Unknown(error),
        }
    }
}

impl vstd::std_specs::convert::FromSpecImpl<GenerateCodeError> for CreateError {
    open spec fn obeys_from_spec() -> bool {
        true
    }

    open spec fn from_spec(v: GenerateCodeError) -> CreateError {
        match v {
            GenerateCodeError::OverCapacity => CreateError::OverCapacity,
            GenerateCodeError::Unknown(error) => CreateError::Unknown(error),
        }
    }
}

impl From<StoreError> for CreateError {
    fn from(error: StoreError) -> Self {
        CreateError::Unknown(error)
    }
}

impl vstd::std_specs::convert::FromSpecImpl<StoreError> for CreateError {
    open spec fn obeys_from_spec() -> bool {
        true
    }

    open spec fn from_spec(v: StoreError) -> CreateError {
        CreateError::Unknown(v)
    }
}

impl From<StoreError> for FindError {
    fn from(error: StoreError) -> Self {
        FindError::Unknown(error)
    }
}

impl vstd::std_specs::convert::FromSpecImpl<StoreError> for FindError {
    open spec fn obeys_from_spec() -> bool {
        true
    }

    open spec fn from_spec(v: StoreError) -> FindError {
        FindError::Unknown(v)
    }
}

impl From<StoreError> for GenerateCodeError {
    fn from(error: StoreError) -> Self {
        GenerateCodeError::Unknown(error)
    }
}

impl vstd::std_specs::convert::FromSpecImpl<StoreError> for GenerateCodeError {
    open spec fn obeys_from_spec() -> bool {
        true
    }

    open spec fn from_spec(v: StoreError) -> GenerateCodeError {
        GenerateCodeError::Unknown(v)
    }
}

/// Codes last for a day of the store's ticks.
pub const CODE_EXPIRY: u64 = 86_400;

/// The vocabulary: the fixed, ordered list of all code words. It must not
/// change while any store keeps a cursor, or index selection comes apart from
/// what was already allocated.
pub open spec fn vocab() -> Seq<Seq<char>> {
    seq!["hello"@, "goodbye"@]
}

const CODE_COUNT: usize = 2;

fn code_word(i: usize) -> (r: &'static str)
    requires
        i < CODE_COUNT,
    ensures
        r@ == vocab()[i as int],
{
    if i == 0 {
        "hello"
    } else {
        "goodbye"
    }
}

/// The store key under which the shared allocation cursor lives.
pub open spec fn cursor_key() -> Seq<char> {
    "partyskunk:codes_index"@
}

/// The vocabulary slot a cursor reading selects: the reading taken as a
/// machine index — a negative reading wraps around the machine word, as the
/// cast does — modulo the vocabulary size.
pub open spec fn slot_of(n: i32) -> int {
    if n >= 0 {
        (n as int) % (vocab().len() as int)
    } else {
        (n as int + 0x1_0000_0000_0000_0000) % (vocab().len() as int)
    }
}

/// A successful allocation: the cursor was advanced to `n`, the slot it
/// selects was free, and the code word of that slot was handed out. No lease
/// changes: only the cursor moved.
pub open spec fn gen_ok_rel(
    l0: Map<Seq<char>, Seq<char>>,
    c0: Map<Seq<char>, i32>,
    t0: Map<Seq<char>, u64>,
    l1: Map<Seq<char>, Seq<char>>,
    c1: Map<Seq<char>, i32>,
    t1: Map<Seq<char>, u64>,
    code: Seq<char>,
) -> bool {
    let n = next_counter(c0, cursor_key(), 1);
    &&& code == vocab()[slot_of(n)]
    &&& !l0.contains_key(code)
    &&& l1 == live_after_incr(l0, cursor_key(), n)
    &&& c1 == c0.insert(cursor_key(), n)
    &&& t1 == t0
}

/// A conflicted allocation: the cursor was advanced to `n`, the slot it
/// selects was occupied, and the cursor was stepped back by one. No lease
/// changes.
pub open spec fn gen_conflict_rel(
    l0: Map<Seq<char>, Seq<char>>,
    c0: Map<Seq<char>, i32>,
    t0: Map<Seq<char>, u64>,
    l1: Map<Seq<char>, Seq<char>>,
    c1: Map<Seq<char>, i32>,
    t1: Map<Seq<char>, u64>,
) -> bool {
    let n = next_counter(c0, cursor_key(), 1);
    let m = next_counter(c0.insert(cursor_key(), n), cursor_key(), -1i32);
    &&& l0.contains_key(vocab()[slot_of(n)])
    &&& l1 == live_after_incr(live_after_incr(l0, cursor_key(), n), cursor_key(), m)
    &&& c1 == c0.insert(cursor_key(), n).insert(cursor_key(), m)
    &&& t1 == t0
}

/// A successful `create`: a successful allocation, then the message filed
/// under the allocated code word, its lease armed with the standing expiry.
pub open spec fn create_ok_rel(
    l0: Map<Seq<char>, Seq<char>>,
    c0: Map<Seq<char>, i32>,
    t0: Map<Seq<char>, u64>,
    l1: Map<Seq<char>, Seq<char>>,
    c1: Map<Seq<char>, i32>,
    t1: Map<Seq<char>, u64>,
    message: Seq<char>,
    code: Seq<char>,
) -> bool {
    let n = next_counter(c0, cursor_key(), 1);
    &&& code == vocab()[slot_of(n)]
    &&& !l0.contains_key(code)
    &&& l1 == live_after_incr(l0, cursor_key(), n).insert(code, message)
    &&& c1 == c0.insert(cursor_key(), n).insert(code, decimal::parse_i32_spec(message))
    &&& t1 == t0.insert(code, CODE_EXPIRY)
}

/// No code word is the cursor's own key.
pub proof fn lemma_vocab_not_cursor()
    ensures
        forall|i: int| 0 <= i < vocab().len() ==> vocab()[i] != cursor_key(),
{
    reveal_strlit("hello");
    reveal_strlit("goodbye");
    reveal_strlit("partyskunk:codes_index");
    assert(vocab()[0].len() == 5);
    assert(vocab()[1].len() == 7);
    assert(cursor_key().len() == 22);
    assert forall|i: int| 0 <= i < vocab().len() implies vocab()[i] != cursor_key() by {
        assert(i == 0 || i == 1);
    }
}

/// Allocates a code word: advances the shared cursor, probes the slot it
/// selects, and hands the word out if it is free; otherwise steps the cursor
/// back and reports exhaustion.
pub fn generate_code<T: KeyValueStore>(store: &mut T) -> (r: GenerateCodeResult)
    ensures
        old(store).infallible() ==> final(store).infallible() && !(r matches Err(
            GenerateCodeError::Unknown(_),
        )),
        match r {
            Ok(code) => gen_ok_rel(
                old(store).live(),
                old(store).counters(),
                old(store).ttls(),
                final(store).live(),
                final(store).counters(),
                final(store).ttls(),
                code@,
            ),
            Err(e) => match e {
                GenerateCodeError::OverCapacity => gen_conflict_rel(
                    old(store).live(),
                    old(store).counters(),
                    old(store).ttls(),
                    final(store).live(),
                    final(store).counters(),
                    final(store).ttls(),
                ),
                GenerateCodeError::Unknown(_) => true,
            },
        },
{
    // Advance the shared cursor; its new reading picks the candidate slot.
    let n = match store.incr_by("partyskunk:codes_index", 1) {
        Ok(n) => n,
        Err(e) => {
            return Err(GenerateCodeError::from(e));
        },
    };
    let idx: usize = if n >= 0 {
        (n as usize) % CODE_COUNT
    } else {
        let a: u64 = (-(n as i64)) as u64;
        (((u64::MAX - a) + 1) % (CODE_COUNT as u64)) as usize
    };
    proof {
        assert(vocab().len() == 2);
        assert(idx as int == slot_of(n));
    }
    let code = code_word(idx);
    proof {
        lemma_vocab_not_cursor();
    }
    // Probe the candidate; the store's view already accounts for expiry.
    let probe = match store.get(code) {
        Ok(found) => found,
        Err(e) => {
            return Err(GenerateCodeError::from(e));
        },
    };
    match probe {
        None => Ok(code.to_owned()),
        Some(_) => {
            // Occupied: undo the reservation, best-effort, and report
            // exhaustion.
            match store.incr_by("partyskunk:codes_index", -1) {
                Ok(_) => Err(GenerateCodeError::OverCapacity),
                Err(e) => Err(GenerateCodeError::from(e)),
            }
        },
    }
}

/// Files `message` under a freshly allocated code word and returns the word;
/// fails with `OverCapacity` when the slot the cursor picked is still live,
/// and with `Unknown` when the store failed.
pub fn create<T: KeyValueStore>(message: String, store: &mut T) -> (r: CreateResult)
    ensures
        old(store).infallible() ==> final(store).infallible() && !(r matches Err(
            CreateError::Unknown(_),
        )),
        match r {
            Ok(code) => create_ok_rel(
                old(store).live(),
                old(store).counters(),
                old(store).ttls(),
                final(store).live(),
                final(store).counters(),
                final(store).ttls(),
                message@,
                code@,
            ),
            Err(e) => match e {
                CreateError::OverCapacity => gen_conflict_rel(
                    old(store).live(),
                    old(store).counters(),
                    old(store).ttls(),
                    final(store).live(),
                    final(store).counters(),
                    final(store).ttls(),
                ),
                CreateError::Unknown(_) => true,
            },
        },
{
    let code = match generate_code(store) {
        Ok(code) => code,
        Err(e) => {
            return Err(CreateError::from(e));
        },
    };
    match store.set(code.as_str(), message.as_str(), CODE_EXPIRY) {
        Ok(_) => Ok(code),
        Err(e) => Err(CreateError::from(e)),
    }
}

/// Returns the message filed under `code`, or `NotFound` when the word has no
/// live assignment, whether never filed or expired.
pub fn find<T: KeyValueStore>(code: String, store: &mut T) -> (r: FindResult)
    ensures
        final(store).live() == old(store).live(),
        final(store).counters() == old(store).counters(),
        final(store).ttls() == old(store).ttls(),
        old(store).infallible() ==> final(store).infallible() && !(r matches Err(
            FindError::Unknown(_),
        )),
        match r {
            Ok(message) => old(store).live().contains_key(code@) && message@ == old(
                store,
            ).live()[code@],
            Err(e) => match e {
                FindError::NotFound => !old(store).live().contains_key(code@),
                FindError::Unknown(_) => true,
            },
        },
{
    match store.get(code.as_str()) {
        Ok(Some(message)) => Ok(message),
        Ok(None) => Err(FindError::NotFound),
        Err(e) => Err(FindError::from(e)),
    }
}

} // verus!
