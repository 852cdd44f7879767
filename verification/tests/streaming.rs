use chat_recorder::process_commands::{ResponseCollector, StreamStep};
use chat_recorder::santize::{absorb_parse_result, process_streamed_data};

fn event(content: &str) -> String {
    format!(
        "data: {{\"choices\":[{{\"delta\":{{\"content\":\"{}\"}}}}]}}\n\n",
        content
    )
}

#[test]
fn extracts_content_of_each_event() {
    let mut buffer = String::new();
    let chunk = format!("{}{}", event("Hello"), event("world"));
    let out = process_streamed_data(&chunk, &mut buffer);
    assert_eq!(out, "Hello world ");
    assert_eq!(buffer, "");
}

#[test]
fn event_without_content_outputs_nothing() {
    let mut buffer = String::new();
    let out = process_streamed_data("data: {\"choices\":[{\"delta\":{}}]}\n\n", &mut buffer);
    assert_eq!(out, "");
    assert_eq!(buffer, "");
}

#[test]
fn unfinished_event_is_kept_for_next_chunk() {
    let mut buffer = String::new();
    let out = process_streamed_data("data: {\"choices\":[{\"delta\":{\"content\":\"Hi", &mut buffer);
    assert_eq!(out, "");
    assert_eq!(buffer, "{\"choices\":[{\"delta\":{\"content\":\"Hi");
    let out = process_streamed_data("\"}}]}\n\n", &mut buffer);
    assert_eq!(out, "Hi ");
    assert_eq!(buffer, "");
}

#[test]
fn text_that_does_not_parse_stays_in_buffer() {
    let mut buffer = String::new();
    let out = process_streamed_data("data: {oops}", &mut buffer);
    assert_eq!(out, "");
    assert_eq!(buffer, "{oops}");
}

#[test]
fn empty_chunk_changes_nothing() {
    let mut buffer = String::from("{\"a\":");
    let out = process_streamed_data("", &mut buffer);
    assert_eq!(out, "");
    assert_eq!(buffer, "{\"a\":");
}

#[test]
fn absorb_parse_result_cases() {
    let mut out = String::from("a ");
    let mut buf: Vec<char> = "{x}".chars().collect();
    absorb_parse_result(&mut out, &mut buf, None);
    assert_eq!(out, "a ");
    assert_eq!(buf, vec!['{', 'x', '}']);
    absorb_parse_result(&mut out, &mut buf, Some(None));
    assert_eq!(out, "a ");
    assert!(buf.is_empty());
    let mut buf: Vec<char> = "{y}".chars().collect();
    absorb_parse_result(&mut out, &mut buf, Some(Some(String::from("b"))));
    assert_eq!(out, "a b ");
    assert!(buf.is_empty());
}

#[test]
fn collector_completes_with_pieces_one_per_line() {
    let mut collector = ResponseCollector::new();
    match collector.on_chunk(&event("Hello")) {
        StreamStep::Content(c) => assert_eq!(c, "Hello "),
        _ => panic!("expected content"),
    }
    match collector.on_chunk(&event("there")) {
        StreamStep::Content(c) => assert_eq!(c, "there "),
        _ => panic!("expected content"),
    }
    match collector.on_chunk("data: [DONE]\n\n") {
        StreamStep::Completed(i) => assert_eq!(i.response, "Hello \nthere "),
        _ => panic!("expected completion"),
    }
}

#[test]
fn collector_finishes_on_done_chunk() {
    let mut collector = ResponseCollector::new();
    assert!(matches!(collector.on_chunk("[DONE]"), StreamStep::Finished));
}

#[test]
fn collector_completes_empty_answer() {
    let mut collector = ResponseCollector::new();
    match collector.on_chunk("data: [DONE]") {
        StreamStep::Completed(i) => assert_eq!(i.response, ""),
        _ => panic!("expected completion"),
    }
}

#[test]
fn split_event_gives_same_text_as_whole() {
    let object = "{\"choices\":[{\"delta\":{\"content\":\"a}b\"},\"x\":{}}]}";
    let whole = format!("data: {}", object);
    let mut fresh = String::new();
    let expected = process_streamed_data(&whole, &mut fresh);
    assert_eq!(expected, "a}b ");
    for cut in 1..object.len() {
        let (first, second) = object.split_at(cut);
        let mut buffer = String::new();
        assert_eq!(process_streamed_data(&format!("data: {}", first), &mut buffer), "");
        assert_eq!(buffer, first);
        assert_eq!(process_streamed_data(second, &mut buffer), expected);
        assert_eq!(buffer, fresh);
    }
}

#[test]
fn done_chunk_before_answer_records_nothing() {
    let mut collector = ResponseCollector::new();
    assert!(matches!(collector.on_chunk(&event("x")), StreamStep::Content(_)));
    assert!(matches!(collector.on_chunk("[DONE]"), StreamStep::Finished));
}
