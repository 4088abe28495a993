//! Turns an inbound text prompt into a reply: the prompt is parsed into an
//! action, the action is run against the exchange, and the outcome is worded
//! for the prompter.

pub mod messages;
pub mod parser;
pub mod response;

use vstd::prelude::*;
use crate::exchange;
use crate::key_value_store::KeyValueStore;

verus! {

/// The reply after a message was filed: some code word was allocated for the
/// message, leased for the standing expiry, and the reply names it.
pub open spec fn created_reply(
    l0: Map<Seq<char>, Seq<char>>,
    c0: Map<Seq<char>, i32>,
    t0: Map<Seq<char>, u64>,
    l1: Map<Seq<char>, Seq<char>>,
    c1: Map<Seq<char>, i32>,
    t1: Map<Seq<char>, u64>,
    m: Seq<char>,
    r: Seq<char>,
) -> bool {
    exists|code: Seq<char>|
        #[trigger] exchange::create_ok_rel(l0, c0, t0, l1, c1, t1, m, code) && r
            == messages::create_success_text(code)
}

/// The reply owed for a prompt of the given shape, tying the reply's text to
/// how the store changed. A prompt that does not parse leaves the store
/// untouched and gets the usage guidance. A create prompt either files the
/// message — the reply names the allocated code word — or reports exhaustion
/// after a conflicted allocation; a read prompt leaves the store's views as
/// they were and reports the live message or the miss. Only over a store that
/// can fail (`inf` false) may either instead report a store failure.
pub open spec fn reply_spec(
    shape: parser::PromptShape,
    l0: Map<Seq<char>, Seq<char>>,
    c0: Map<Seq<char>, i32>,
    t0: Map<Seq<char>, u64>,
    l1: Map<Seq<char>, Seq<char>>,
    c1: Map<Seq<char>, i32>,
    t1: Map<Seq<char>, u64>,
    inf: bool,
    r: Seq<char>,
) -> bool {
    match shape {
        parser::PromptShape::Malformed => r == messages::usage_text() && l1 == l0 && c1 == c0 && t1
            == t0,
        parser::PromptShape::MessageBad => r == messages::usage_text() && l1 == l0 && c1 == c0
            && t1 == t0,
        parser::PromptShape::CreateMsg(m) => created_reply(l0, c0, t0, l1, c1, t1, m, r) || (
        exchange::gen_conflict_rel(l0, c0, t0, l1, c1, t1)
            && r == messages::create_over_capacity_text()) || (!inf && r
            == messages::unknown_error_text()),
        parser::PromptShape::ReadCode(code) => {
            &&& l1 == l0
            &&& c1 == c0
            &&& t1 == t0
            &&& ((l0.contains_key(code) && r == messages::find_success_text(l0[code])) || (
            !l0.contains_key(code) && r == messages::find_not_found_text()) || (!inf && r
                == messages::unknown_error_text()))
        },
    }
}

/// Answers one prompt, as `reply_spec` lays out for the prompt's shape.
pub fn handle<T: KeyValueStore>(prompt: String, prompter: String, store: &mut T) -> (r: String)
    ensures
        old(store).infallible() ==> final(store).infallible(),
        reply_spec(
            parser::prompt_shape(prompt@),
            old(store).live(),
            old(store).counters(),
            old(store).ttls(),
            final(store).live(),
            final(store).counters(),
            final(store).ttls(),
            old(store).infallible(),
            r@,
        ),
{
    let _ = prompter;
    let ghost l0 = store.live();
    let ghost c0 = store.counters();
    let ghost t0 = store.ttls();
    match parser::parse(prompt) {
        Ok(action) => match action {
            parser::Action::Create(message) => {
                let ghost m0 = message@;
                match exchange::create(message, store) {
                    Ok(code) => {
                        let reply = messages::create_success(code);
                        proof {
                            assert(created_reply(
                                l0,
                                c0,
                                t0,
                                store.live(),
                                store.counters(),
                                store.ttls(),
                                m0,
                                reply@,
                            ));
                            assert(reply_spec(
                                parser::PromptShape::CreateMsg(m0),
                                l0,
                                c0,
                                t0,
                                store.live(),
                                store.counters(),
                                store.ttls(),
                                old(store).infallible(),
                                reply@,
                            ));
                        }
                        reply
                    },
                    Err(e) => match e {
                        exchange::CreateError::OverCapacity => {
                            messages::create_over_capacity_error()
                        },
                        exchange::CreateError::Unknown(_) => messages::create_unknown_error(),
                    },
                }
            },
            parser::Action::Read(code) => {
                match exchange::find(code, store) {
                    Ok(message) => messages::find_success(message),
                    Err(e) => match e {
                        exchange::FindError::NotFound => messages::find_not_found_error(),
                        exchange::FindError::Unknown(_) => messages::find_unknown_error(),
                    },
                }
            },
        },
        Err(e) => match e {
            parser::PromptParseError::MalformedAction => messages::prompt_malformed_error(),
            parser::PromptParseError::MessageInvalid(reason) => {
                messages::prompt_create_message_invalid_error(reason)
            },
        },
    }
}

} // verus!
