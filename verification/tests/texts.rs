use verbalcode::responder::{messages, response};

#[test]
fn create_success_names_the_code_word() {
    assert_eq!(
        messages::create_success("hello".to_string()),
        "Got it. Here's your code word: hello\nIt will expire in 24 hours.\n"
    );
}

#[test]
fn unknown_error_texts_match() {
    let expected = "Whoops! Something went wrong. Try again later.";
    assert_eq!(messages::create_unknown_error(), expected);
    assert_eq!(messages::find_unknown_error(), expected);
}

#[test]
fn over_capacity_text_is_exact() {
    assert_eq!(
        messages::create_over_capacity_error(),
        "Whoops! The code word database is full. Try again later."
    );
}

#[test]
fn not_found_text_carries_both_guides() {
    assert_eq!(
        messages::find_not_found_error(),
        "Whoops! That code word doesn't exist.\n\nUse partyskunk to create a code word for your message by sending us a text in this format:\npartyskunk <your message here>\n\nCode words expire after 24 hours.\n\n\nIf someone gave you a code word, send us a text with just that code word."
    );
}

#[test]
fn malformed_and_invalid_prompts_share_the_usage_text() {
    let expected = "Use partyskunk to create a code word for your message by sending us a text in this format:\npartyskunk <your message here>\n\nCode words expire after 24 hours.\n\n\nIf someone gave you a code word, send us a text with just that code word.";
    assert_eq!(messages::prompt_malformed_error(), expected);
    assert_eq!(
        messages::prompt_create_message_invalid_error("any reason".to_string()),
        expected
    );
}

#[test]
fn find_success_prefixes_the_message() {
    assert_eq!(
        messages::find_success("found message".to_string()),
        "found message\n\nUse partyskunk to create a code word for your message by sending us a text in this format:\npartyskunk <your message here>\n\nCode words expire after 24 hours.\n"
    );
}

#[test]
fn placeholder_create_valid_appends_the_code() {
    assert_eq!(
        response::create_valid("hello".to_string()),
        "CODE_WRITE_SUCCESS_MESSAGE\nhello"
    );
}

#[test]
fn placeholder_error_texts_match() {
    assert_eq!(response::create_unknown_error(), "UNKNOWN_ERROR_MESSAGE");
    assert_eq!(response::find_unknown_error(), "UNKNOWN_ERROR_MESSAGE");
    assert_eq!(
        response::create_over_capacity(),
        "CREATE_OVER_CAPACITY_ERROR_MESSAGE"
    );
}

#[test]
fn placeholder_find_texts_match() {
    assert_eq!(
        response::find_found("msg".to_string()),
        "msg\n\nCREATE_HOW_TO_MESSAGE"
    );
    assert_eq!(
        response::find_not_found(),
        "CODE_NOT_FOUND_ERROR_MESSAGE\n\nCREATE_HOW_TO_MESSAGE\n\nFIND_HOW_TO_MESSAGE"
    );
}

#[test]
fn placeholder_prompt_texts_match() {
    let expected = "CREATE_HOW_TO_MESSAGE\n\nFIND_HOW_TO_MESSAGE";
    assert_eq!(response::prompt_malformed(), expected);
    assert_eq!(
        response::prompt_create_message_invalid("why".to_string()),
        expected
    );
}
