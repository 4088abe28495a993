//! Reply texts built around placeholder markers, kept for callers that supply
//! their own wording at the transport layer.

use vstd::prelude::*;
use vstd::string::StringExecFns;

verus! {

pub open spec fn create_valid_text(code: Seq<char>) -> Seq<char> {
    "CODE_WRITE_SUCCESS_MESSAGE"@ + "\n"@ + code
}

pub open spec fn unknown_error_marker() -> Seq<char> {
    "UNKNOWN_ERROR_MESSAGE"@
}

pub open spec fn create_over_capacity_marker() -> Seq<char> {
    "CREATE_OVER_CAPACITY_ERROR_MESSAGE"@
}

pub open spec fn find_found_text(message: Seq<char>) -> Seq<char> {
    message + "\n\n"@ + "CREATE_HOW_TO_MESSAGE"@
}

pub open spec fn find_not_found_text() -> Seq<char> {
    "CODE_NOT_FOUND_ERROR_MESSAGE"@ + "\n\n"@ + "CREATE_HOW_TO_MESSAGE"@ + "\n\n"@
        + "FIND_HOW_TO_MESSAGE"@
}

pub open spec fn usage_text() -> Seq<char> {
    "CREATE_HOW_TO_MESSAGE"@ + "\n\n"@ + "FIND_HOW_TO_MESSAGE"@
}

pub fn create_valid(code: String) -> (r: String)
    ensures
        r@ == create_valid_text(code@),
{
    let mut r: String = "CODE_WRITE_SUCCESS_MESSAGE".to_owned();
    r.append("\n");
    r.append(code.as_str());
    proof {
        assert(r@ =~= create_valid_text(code@));
    }
    r
}

pub fn create_unknown_error() -> (r: String)
    ensures
        r@ == unknown_error_marker(),
{
    "UNKNOWN_ERROR_MESSAGE".to_owned()
}

pub fn create_over_capacity() -> (r: String)
    ensures
        r@ == create_over_capacity_marker(),
{
    "CREATE_OVER_CAPACITY_ERROR_MESSAGE".to_owned()
}

pub fn find_found(message: String) -> (r: String)
    ensures
        r@ == find_found_text(message@),
{
    let ghost m0 = message@;
    let mut r = message;
    r.append("\n\n");
    r.append("CREATE_HOW_TO_MESSAGE");
    proof {
        assert(r@ =~= find_found_text(m0));
    }
    r
}

pub fn find_not_found() -> (r: String)
    ensures
        r@ == find_not_found_text(),
{
    let mut r: String = "CODE_NOT_FOUND_ERROR_MESSAGE".to_owned();
    r.append("\n\n");
    r.append("CREATE_HOW_TO_MESSAGE");
    r.append("\n\n");
    r.append("FIND_HOW_TO_MESSAGE");
    proof {
        assert(r@ =~= find_not_found_text());
    }
    r
}

pub fn find_unknown_error() -> (r: String)
    ensures
        r@ == unknown_error_marker(),
{
    "UNKNOWN_ERROR_MESSAGE".to_owned()
}

pub fn prompt_malformed() -> (r: String)
    ensures
        r@ == usage_text(),
{
    let mut r: String = "CREATE_HOW_TO_MESSAGE".to_owned();
    r.append("\n\n");
    r.append("FIND_HOW_TO_MESSAGE");
    proof {
        assert(r@ =~= usage_text());
    }
    r
}

pub fn prompt_create_message_invalid(reason: String) -> (r: String)
    ensures
        r@ == usage_text(),
{
    let _ = reason;
    prompt_malformed()
}

} // verus!
