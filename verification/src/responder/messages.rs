//! The texts sent back to a prompter, each pinned down exactly by a spec
//! function over sequences of characters.

use vstd::prelude::*;
use vstd::string::StringExecFns;

verus! {

/// How to create a code word, shown whenever the prompter needs guidance.
pub open spec fn create_how_to_text() -> Seq<char> {
    "Use partyskunk to create a code word for your message by sending us a text in this format:\npartyskunk <your message here>\n\nCode words expire after 24 hours.\n"@
}

/// How to read a code word someone shared.
pub open spec fn find_how_to_text() -> Seq<char> {
    "If someone gave you a code word, send us a text with just that code word."@
}

/// Both pieces of guidance together, the reply to any prompt that asks
/// for nothing the exchange can do.
pub open spec fn usage_text() -> Seq<char> {
    create_how_to_text() + "\n\n"@ + find_how_to_text()
}

/// The reply when a message was filed under a fresh code word.
pub open spec fn create_success_text(code: Seq<char>) -> Seq<char> {
    "Got it. Here's your code word: "@ + code + "\nIt will expire in 24 hours.\n"@
}

/// The reply when the store failed.
pub open spec fn unknown_error_text() -> Seq<char> {
    "Whoops! Something went wrong. Try again later."@
}

/// The reply when every code word is taken.
pub open spec fn create_over_capacity_text() -> Seq<char> {
    "Whoops! The code word database is full. Try again later."@
}

/// The reply when a code word has no live message.
pub open spec fn find_not_found_text() -> Seq<char> {
    "Whoops! That code word doesn't exist."@ + "\n\n"@ + usage_text()
}

/// The reply carrying a found message.
pub open spec fn find_success_text(message: Seq<char>) -> Seq<char> {
    message + "\n\n"@ + create_how_to_text()
}

pub fn create_success(code: String) -> (r: String)
    ensures
        r@ == create_success_text(code@),
{
    let mut r: String = "Got it. Here's your code word: ".to_owned();
    r.append(code.as_str());
    r.append("\nIt will expire in 24 hours.\n");
    proof {
        assert(r@ =~= create_success_text(code@));
    }
    r
}

pub fn create_unknown_error() -> (r: String)
    ensures
        r@ == unknown_error_text(),
{
    "Whoops! Something went wrong. Try again later.".to_owned()
}

pub fn find_unknown_error() -> (r: String)
    ensures
        r@ == unknown_error_text(),
{
    "Whoops! Something went wrong. Try again later.".to_owned()
}

pub fn create_over_capacity_error() -> (r: String)
    ensures
        r@ == create_over_capacity_text(),
{
    "Whoops! The code word database is full. Try again later.".to_owned()
}

fn usage() -> (r: String)
    ensures
        r@ == usage_text(),
{
    let mut r: String =
        "Use partyskunk to create a code word for your message by sending us a text in this format:\npartyskunk <your message here>\n\nCode words expire after 24 hours.\n".to_owned();
    r.append("\n\n");
    r.append("If someone gave you a code word, send us a text with just that code word.");
    proof {
        assert(r@ =~= usage_text());
    }
    r
}

pub fn find_not_found_error() -> (r: String)
    ensures
        r@ == find_not_found_text(),
{
    let mut r: String = "Whoops! That code word doesn't exist.".to_owned();
    r.append("\n\n");
    let tail = usage();
    r.append(tail.as_str());
    proof {
        assert(r@ =~= find_not_found_text());
    }
    r
}

pub fn prompt_malformed_error() -> (r: String)
    ensures
        r@ == usage_text(),
{
    usage()
}

/// The reason is not echoed back: the guidance already states the rule the
/// message broke.
pub fn prompt_create_message_invalid_error(reason: String) -> (r: String)
    ensures
        r@ == usage_text(),
{
    let _ = reason;
    usage()
}

pub fn find_success(message: String) -> (r: String)
    ensures
        r@ == find_success_text(message@),
{
    let ghost m0 = message@;
    let mut r = message;
    r.append("\n\n");
    r.append("Use partyskunk to create a code word for your message by sending us a text in this format:\npartyskunk <your message here>\n\nCode words expire after 24 hours.\n");
    proof {
        assert(r@ =~= find_success_text(m0));
    }
    r
}

} // verus!
