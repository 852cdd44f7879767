use chat_recorder::clipboard_utils::{clipboard_text, copy_count};
use chat_recorder::process_commands::{Command, CommandBuffer, ENTER_SIGNAL};
use chat_recorder::types::Interaction;

fn history() -> Vec<Interaction> {
    vec![
        Interaction::new(String::from("first")),
        Interaction::new(String::from("second")),
        Interaction::new(String::from("third")),
    ]
}

#[test]
fn no_interactions_copies_empty_text() {
    assert_eq!(clipboard_text(&[], 3), "");
}

#[test]
fn one_copies_latest() {
    assert_eq!(clipboard_text(&history(), 1), "third");
}

#[test]
fn zero_or_negative_copies_latest() {
    assert_eq!(clipboard_text(&history(), 0), "third");
    assert_eq!(clipboard_text(&history(), -5), "third");
}

#[test]
fn two_copies_last_two_in_order() {
    assert_eq!(clipboard_text(&history(), 2), "second\nthird");
}

#[test]
fn more_than_available_copies_all() {
    assert_eq!(clipboard_text(&history(), 10), "first\nsecond\nthird");
    assert_eq!(clipboard_text(&history(), i32::MAX), "first\nsecond\nthird");
}

#[test]
fn copy_count_bounds() {
    assert_eq!(copy_count(0, 5), 0);
    assert_eq!(copy_count(3, -1), 1);
    assert_eq!(copy_count(3, 2), 2);
    assert_eq!(copy_count(3, 7), 3);
}

#[test]
fn interaction_keeps_response() {
    let i = Interaction::new(String::from("answer"));
    assert_eq!(i.response, "answer");
}

#[test]
fn bare_copy_command_copies_latest_answer() {
    let mut buffer = CommandBuffer::new();
    for c in "/copy".chars() {
        assert!(buffer.handle_char(c).is_none());
    }
    match buffer.handle_char(ENTER_SIGNAL) {
        Some(Command::Copy(n)) => assert_eq!(clipboard_text(&history(), n), "third"),
        _ => panic!("expected a copy command"),
    }
}
