use chat_recorder::process_commands::{
    parse_command, response_is_complete, Command, CommandBuffer, BACKSPACE_SIGNAL, ENTER_SIGNAL,
    PASTED_NEWLINE,
};

fn type_line(buffer: &mut CommandBuffer, text: &str) {
    for c in text.chars() {
        assert!(buffer.handle_char(c).is_none());
    }
}

#[test]
fn exit_command() {
    assert!(matches!(parse_command("/exit"), Command::Exit));
}

#[test]
fn bare_copy_copies_one() {
    assert!(matches!(parse_command("/copy"), Command::Copy(1)));
}

#[test]
fn copy_with_number_after_space() {
    assert!(matches!(parse_command("/copy 3"), Command::Copy(3)));
}

#[test]
fn copy_with_number_attached() {
    assert!(matches!(parse_command("/copy12"), Command::Copy(12)));
}

#[test]
fn copy_with_spaces_around_number() {
    assert!(matches!(parse_command("/copy   7"), Command::Copy(7)));
    assert!(matches!(parse_command("/copy 3 "), Command::Copy(3)));
}

#[test]
fn copy_with_non_positive_number_copies_one() {
    assert!(matches!(parse_command("/copy 0"), Command::Copy(1)));
    assert!(matches!(parse_command("/copy -7"), Command::Copy(1)));
}

fn assert_query(line: &str) {
    match parse_command(line) {
        Command::Query(q) => assert_eq!(q, line),
        _ => panic!("expected {:?} to be a query", line),
    }
}

#[test]
fn undocumented_copy_lines_are_queries() {
    assert_query("/copy abc");
    assert_query("/copy 4 please");
    assert_query("/copy/copy 5");
    assert_query("/copy 99999999999");
    assert_query("/copyx");
}

#[test]
fn other_slash_line_is_a_query() {
    match parse_command("/what is rust") {
        Command::Query(q) => assert_eq!(q, "/what is rust"),
        _ => panic!("expected a query"),
    }
    match parse_command("/copyright law") {
        Command::Query(q) => assert_eq!(q, "/copyright law"),
        _ => panic!("expected a query"),
    }
    match parse_command("/exit now") {
        Command::Query(q) => assert_eq!(q, "/exit now"),
        _ => panic!("expected a query"),
    }
}

#[test]
fn enter_submits_slash_line_and_clears() {
    let mut buffer = CommandBuffer::new();
    type_line(&mut buffer, "/copy 2");
    match buffer.handle_char(ENTER_SIGNAL) {
        Some(Command::Copy(2)) => {}
        _ => panic!("expected a copy of two"),
    }
    assert_eq!(buffer.contents(), "");
}

#[test]
fn enter_keeps_plain_text() {
    let mut buffer = CommandBuffer::new();
    type_line(&mut buffer, "hello");
    assert!(buffer.handle_char(ENTER_SIGNAL).is_none());
    assert_eq!(buffer.contents(), "hello");
}

#[test]
fn backspace_undoes_typing() {
    let mut buffer = CommandBuffer::new();
    type_line(&mut buffer, "/ab");
    assert!(buffer.handle_char('x').is_none());
    assert!(buffer.handle_char(BACKSPACE_SIGNAL).is_none());
    assert_eq!(buffer.contents(), "/ab");
}

#[test]
fn backspace_on_empty_line() {
    let mut buffer = CommandBuffer::new();
    assert!(buffer.handle_char(BACKSPACE_SIGNAL).is_none());
    assert_eq!(buffer.contents(), "");
}

#[test]
fn pasted_newline_is_ignored() {
    let mut buffer = CommandBuffer::new();
    type_line(&mut buffer, "/a");
    assert!(buffer.handle_char(PASTED_NEWLINE).is_none());
    assert_eq!(buffer.contents(), "/a");
}

#[test]
fn query_keeps_slash_and_unicode() {
    let mut buffer = CommandBuffer::new();
    type_line(&mut buffer, "/héllo wörld");
    match buffer.handle_char(ENTER_SIGNAL) {
        Some(Command::Query(q)) => assert_eq!(q, "/héllo wörld"),
        _ => panic!("expected a query"),
    }
}

#[test]
fn response_completion_marker() {
    assert!(response_is_complete("data: [DONE"));
    assert!(response_is_complete("DONE"));
    assert!(!response_is_complete("DON"));
    assert!(!response_is_complete("DONE\n"));
}
