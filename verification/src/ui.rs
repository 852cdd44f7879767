//! Decisions of the terminal front end: what a key press sends to the command
//! line, what a line read from standard input asks for, and what a line
//! received by the event handler means.
use vstd::prelude::*;

use crate::process_commands::{
    exit_word, step, BACKSPACE_SIGNAL, ENTER_SIGNAL, PASTED_NEWLINE, CommandView,
};
use crate::text::{chars_eq, chars_of, string_of, trim, trim_chars};

verus! {

/// Key presses closer together than this many nanoseconds are taken as pasted
/// text.
pub const INPUT_THRESHOLD_NANOS: u128 = 10_000_000;

/// Whether a key press that follows the previous one after `elapsed_nanos`
/// belongs to a paste.
pub fn is_rapid_input(elapsed_nanos: u128) -> (res: bool)
    ensures
        res == (elapsed_nanos < INPUT_THRESHOLD_NANOS),
{
    elapsed_nanos < INPUT_THRESHOLD_NANOS
}

/// A key press, as the terminal reports it.
#[derive(Debug, Clone, Copy, PartialEq, Eq, Structural)]
pub enum KeyInput {
    Enter,
    Char(char),
    Backspace,
    Esc,
    Other,
}

/// What the key reader does with a key press.
#[derive(Debug, Clone, Copy, PartialEq, Eq, Structural)]
pub enum KeyAction {
    /// Send the character to the command line.
    Send(char),
    /// Send the character to the command line and show it.
    SendAndEcho(char),
    /// Send the Backspace signal and erase the last character on screen.
    Erase,
    /// Stop reading keys.
    Stop,
    /// Do nothing.
    Ignore,
}

/// What a key press does: Enter sends the submit signal, or a plain newline
/// when it is part of a paste; a character is sent and shown; Backspace
/// erases; Esc stops; other keys are ignored.
pub open spec fn key_action_spec(key: KeyInput, rapid: bool) -> KeyAction {
    match key {
        KeyInput::Enter => if rapid {
            KeyAction::Send(PASTED_NEWLINE)
        } else {
            KeyAction::Send(ENTER_SIGNAL)
        },
        KeyInput::Char(c) => KeyAction::SendAndEcho(c),
        KeyInput::Backspace => KeyAction::Erase,
        KeyInput::Esc => KeyAction::Stop,
        KeyInput::Other => KeyAction::Ignore,
    }
}

/// What a key press does, `rapid` telling whether it belongs to a paste.
pub fn key_action(key: KeyInput, rapid: bool) -> (res: KeyAction)
    ensures
        res == key_action_spec(key, rapid),
{
    match key {
        KeyInput::Enter => if rapid {
            KeyAction::Send(PASTED_NEWLINE)
        } else {
            KeyAction::Send(ENTER_SIGNAL)
        },
        KeyInput::Char(c) => KeyAction::SendAndEcho(c),
        KeyInput::Backspace => KeyAction::Erase,
        KeyInput::Esc => KeyAction::Stop,
        KeyInput::Other => KeyAction::Ignore,
    }
}

/// The character that a key action sends to the command line, if any.
pub open spec fn sent_char(a: KeyAction) -> Option<char> {
    match a {
        KeyAction::Send(c) => Some(c),
        KeyAction::SendAndEcho(c) => Some(c),
        KeyAction::Erase => Some(BACKSPACE_SIGNAL),
        _ => None,
    }
}

/// An Enter that is part of pasted text never submits the command line nor
/// changes it; only an Enter typed on its own can submit.
pub proof fn law_pasted_enter_never_submits(buf: Seq<char>)
    ensures
        sent_char(key_action_spec(KeyInput::Enter, true)) == Some(PASTED_NEWLINE),
        step(buf, PASTED_NEWLINE) == (buf, None::<CommandView>),
        sent_char(key_action_spec(KeyInput::Enter, false)) == Some(ENTER_SIGNAL),
{
}

/// What a line read from standard input asks for: `None` to stop reading
/// (the line is `/exit`, surrounding whitespace aside); otherwise the line
/// without surrounding whitespace, to forward.
pub fn read_line_action(line: &str) -> (res: Option<String>)
    ensures
        res is None <==> trim(line@) == exit_word(),
        res matches Some(t) ==> t@ == trim(line@),
{
    let trimmed = trim_chars(&chars_of(line));
    let exit: Vec<char> = vec!['/', 'e', 'x', 'i', 't'];
    assert(exit@ == exit_word());
    if chars_eq(&trimmed, &exit) {
        None
    } else {
        Some(string_of(&trimmed))
    }
}

/// `/quit`
pub open spec fn quit_word() -> Seq<char> {
    seq!['/', 'q', 'u', 'i', 't']
}

/// What a line received by the event handler means.
#[derive(Debug)]
pub enum UIEvent {
    /// Stop handling events.
    Quit,
    /// Show the line.
    Received(String),
}

/// What a received line means: exactly `/quit` quits; anything else is shown.
pub fn ui_event(input: &str) -> (res: UIEvent)
    ensures
        input@ == quit_word() <==> res is Quit,
        res matches UIEvent::Received(s) ==> s@ == input@,
{
    let text = chars_of(input);
    let quit: Vec<char> = vec!['/', 'q', 'u', 'i', 't'];
    assert(quit@ == quit_word());
    if chars_eq(&text, &quit) {
        UIEvent::Quit
    } else {
        UIEvent::Received(string_of(&text))
    }
}

/// Typing speed matters only for Enter: every other key does the same
/// whether or not it belongs to a paste, and every character key is sent to
/// the command line and shown.
pub proof fn law_only_enter_depends_on_speed(key: KeyInput, c: char, rapid: bool)
    ensures
        key != KeyInput::Enter ==> key_action_spec(key, true) == key_action_spec(key, false),
        key_action_spec(KeyInput::Char(c), rapid) == KeyAction::SendAndEcho(c),
        sent_char(key_action_spec(KeyInput::Char(c), rapid)) == Some(c),
{
}

} // verus!
