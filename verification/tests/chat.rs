use chat_recorder::chat_ai::{
    authorization_value, chat_request, check_status, completions_url, decode_chunk, ChatError,
    MessagesContainer,
};

#[test]
fn request_for_query() {
    let request = chat_request("What is Rust?");
    assert_eq!(request.model, "gpt-3.5-turbo");
    assert!(request.stream);
    assert_eq!(request.messages.len(), 1);
    assert_eq!(request.messages[0].role, "user");
    assert_eq!(request.messages[0].content, "What is Rust?");
}

#[test]
fn container_for_query() {
    let container = MessagesContainer::for_query("/hello");
    assert_eq!(container.messages.len(), 1);
    assert_eq!(container.messages[0].role, "user");
    assert_eq!(container.messages[0].content, "/hello");
}

#[test]
fn url_and_authorization() {
    assert_eq!(completions_url(), "https://api.openai.com/v1/chat/completions");
    assert_eq!(authorization_value("sk-test"), "Bearer sk-test");
}

#[test]
fn status_codes() {
    assert_eq!(check_status(200), Ok(()));
    assert_eq!(check_status(299), Ok(()));
    assert_eq!(check_status(199), Err(ChatError::Status(199)));
    assert_eq!(check_status(300), Err(ChatError::Status(300)));
    assert_eq!(check_status(401), Err(ChatError::Status(401)));
}

#[test]
fn decodes_utf8_chunks() {
    assert_eq!(decode_chunk(b"data: hi".to_vec()), Ok(String::from("data: hi")));
    assert_eq!(decode_chunk("grüße 👋".as_bytes().to_vec()), Ok(String::from("grüße 👋")));
    assert_eq!(decode_chunk(Vec::new()), Ok(String::new()));
}

fn std_failure(bytes: &[u8]) -> ChatError {
    let e = String::from_utf8(bytes.to_vec()).unwrap_err();
    ChatError::InvalidUtf8 {
        valid_up_to: e.utf8_error().valid_up_to(),
        error_len: e.utf8_error().error_len(),
    }
}

#[test]
fn refuses_invalid_utf8() {
    assert_eq!(
        decode_chunk(vec![0x61, 0xff]),
        Err(ChatError::InvalidUtf8 { valid_up_to: 1, error_len: Some(1) })
    );
    assert_eq!(
        decode_chunk(vec![0xc0, 0x80]),
        Err(ChatError::InvalidUtf8 { valid_up_to: 0, error_len: Some(1) })
    );
    assert_eq!(
        decode_chunk(vec![0x61, 0xe2, 0x82]),
        Err(ChatError::InvalidUtf8 { valid_up_to: 1, error_len: None })
    );
    for bytes in [&[0xed, 0xa0, 0x80][..], &[0x61, 0x62, 0xf0, 0x9f, 0x91][..], &[0xe2, 0x28, 0xa1][..]] {
        assert_eq!(decode_chunk(bytes.to_vec()), Err(std_failure(bytes)));
    }
}

#[test]
fn chunkwise_decoding_matches_whole() {
    let chunks: Vec<Vec<u8>> = vec!["data: ".into(), "grüße".into(), " 👋".into(), Vec::new()];
    let mut text = String::new();
    for c in &chunks {
        text.push_str(&decode_chunk(c.clone()).unwrap());
    }
    let whole: Vec<u8> = chunks.concat();
    assert_eq!(decode_chunk(whole), Ok(text));
}
