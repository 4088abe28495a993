use verbalcode::responder::parser::{parse, Action, PromptParseError};

#[test]
fn create_prompt_yields_the_message() {
    let action = parse("partyskunk meet at noon".to_string()).unwrap();
    assert!(matches!(action, Action::Create(m) if m == "meet at noon"));
}

#[test]
fn create_prompt_keeps_inner_spacing() {
    let action = parse("  partyskunk   spaced  message  ".to_string()).unwrap();
    assert!(matches!(action, Action::Create(m) if m == "spaced  message"));
}

#[test]
fn command_word_is_case_insensitive() {
    let action = parse("PARTYSKUNK hi".to_string()).unwrap();
    assert!(matches!(action, Action::Create(m) if m == "hi"));
}

#[test]
fn bare_word_reads_its_lowercase_form() {
    let action = parse("HELLO".to_string()).unwrap();
    assert!(matches!(action, Action::Read(c) if c == "hello"));
}

#[test]
fn read_prompt_ignores_what_follows_the_word() {
    let action = parse("hello there".to_string()).unwrap();
    assert!(matches!(action, Action::Read(c) if c == "hello"));
}

#[test]
fn command_word_alone_is_an_invalid_message() {
    let err = parse("partyskunk".to_string()).unwrap_err();
    assert!(matches!(
        err,
        PromptParseError::MessageInvalid(r)
            if r == "Message must not be empty and must be less than 140 characters."
    ));
}

#[test]
fn message_at_the_limit_is_accepted() {
    let message = "x".repeat(140);
    let action = parse(format!("partyskunk {}", message)).unwrap();
    assert!(matches!(action, Action::Create(m) if m == message));
}

#[test]
fn message_over_the_limit_is_rejected() {
    let message = "x".repeat(141);
    let err = parse(format!("partyskunk {}", message)).unwrap_err();
    assert!(matches!(err, PromptParseError::MessageInvalid(_)));
}

#[test]
fn the_limit_counts_bytes_not_characters() {
    // Fifty of these three-byte characters encode to 150 bytes.
    let message = "\u{20ac}".repeat(50);
    let err = parse(format!("partyskunk {}", message)).unwrap_err();
    assert!(matches!(err, PromptParseError::MessageInvalid(_)));
}

#[test]
fn punctuation_is_malformed() {
    let err = parse("partyskunk!".to_string()).unwrap_err();
    assert!(matches!(err, PromptParseError::MalformedAction));
}

#[test]
fn an_empty_prompt_is_malformed() {
    assert!(matches!(
        parse("".to_string()).unwrap_err(),
        PromptParseError::MalformedAction
    ));
    assert!(matches!(
        parse("   \n ".to_string()).unwrap_err(),
        PromptParseError::MalformedAction
    ));
}

#[test]
fn a_digit_in_the_word_is_malformed() {
    assert!(matches!(
        parse("hello2".to_string()).unwrap_err(),
        PromptParseError::MalformedAction
    ));
}
