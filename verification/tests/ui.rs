use chat_recorder::process_commands::{BACKSPACE_SIGNAL, ENTER_SIGNAL, PASTED_NEWLINE};
use chat_recorder::ui::{is_rapid_input, key_action, read_line_action, ui_event, KeyAction, KeyInput, UIEvent};

#[test]
fn rapid_input_threshold() {
    assert!(is_rapid_input(0));
    assert!(is_rapid_input(9_999_999));
    assert!(!is_rapid_input(10_000_000));
}

#[test]
fn key_actions() {
    assert_eq!(key_action(KeyInput::Enter, false), KeyAction::Send(ENTER_SIGNAL));
    assert_eq!(key_action(KeyInput::Enter, true), KeyAction::Send(PASTED_NEWLINE));
    assert_eq!(key_action(KeyInput::Char('a'), true), KeyAction::SendAndEcho('a'));
    assert_eq!(key_action(KeyInput::Backspace, false), KeyAction::Erase);
    assert_eq!(key_action(KeyInput::Esc, false), KeyAction::Stop);
    assert_eq!(key_action(KeyInput::Other, false), KeyAction::Ignore);
    assert_eq!(BACKSPACE_SIGNAL, '\x08');
}

#[test]
fn read_line_trims_and_stops_on_exit() {
    assert_eq!(read_line_action("  hello world \n"), Some(String::from("hello world")));
    assert_eq!(read_line_action("/exit"), None);
    assert_eq!(read_line_action(" \t/exit\r\n"), None);
    assert_eq!(read_line_action("/exit now"), Some(String::from("/exit now")));
    assert_eq!(read_line_action("\u{3000}x\u{a0}"), Some(String::from("x")));
    assert_eq!(read_line_action("   "), Some(String::new()));
}

#[test]
fn ui_events() {
    assert!(matches!(ui_event("/quit"), UIEvent::Quit));
    match ui_event(" /quit") {
        UIEvent::Received(s) => assert_eq!(s, " /quit"),
        UIEvent::Quit => panic!("only an exact /quit quits"),
    }
}
