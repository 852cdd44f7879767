//! The pieces of a streamed chat-completion request and of its answer that do
//! not need the network: the request body, the authorization value, the
//! meaning of the status code, and the decoding of each answer chunk.
use vstd::prelude::*;
use vstd::string::StringExecFns;

verus! {

/// One message of a chat conversation.
#[derive(Debug)]
pub struct Message {
    pub role: String,
    pub content: String,
}

/// The messages sent with a request.
#[derive(Debug)]
pub struct MessagesContainer {
    pub messages: Vec<Message>,
}

/// The body of a chat-completion request.
#[derive(Debug)]
pub struct ChatRequest {
    pub model: String,
    pub stream: bool,
    pub messages: Vec<Message>,
}

/// Why a chunk of the answer stream is not text.
#[derive(Debug, PartialEq, Eq, Structural)]
pub enum ChatError {
    /// The service answered with a status outside `200..=299`.
    Status(u16),
    /// The chunk's bytes are not valid UTF-8: the longest valid prefix is
    /// `valid_up_to` bytes long; `error_len` is the length of the invalid
    /// sequence that follows it, or `None` where the input ends inside a
    /// sequence.
    InvalidUtf8 { valid_up_to: usize, error_len: Option<usize> },
}

/// The message is the user's `query`.
pub open spec fn is_user_message(m: Message, query: Seq<char>) -> bool {
    m.role@ == "user"@ && m.content@ == query
}

impl MessagesContainer {
    /// The messages of a one-question conversation: the user's `query`.
    pub fn for_query(query: &str) -> (res: Self)
        ensures
            res.messages@.len() == 1,
            is_user_message(res.messages@[0], query@),
    {
        let message = Message { role: String::from_str("user"), content: String::from_str(query) };
        let mut messages: Vec<Message> = Vec::new();
        messages.push(message);
        MessagesContainer { messages }
    }
}

/// The request for a streamed answer to `query` from `gpt-3.5-turbo`.
pub fn chat_request(query: &str) -> (res: ChatRequest)
    ensures
        res.model@ == "gpt-3.5-turbo"@,
        res.stream,
        res.messages@.len() == 1,
        is_user_message(res.messages@[0], query@),
{
    let container = MessagesContainer::for_query(query);
    ChatRequest {
        model: String::from_str("gpt-3.5-turbo"),
        stream: true,
        messages: container.messages,
    }
}

/// The address of the chat-completion service.
pub fn completions_url() -> (res: String)
    ensures
        res@ == "https://api.openai.com/v1/chat/completions"@,
{
    String::from_str("https://api.openai.com/v1/chat/completions")
}

/// The value of the `Authorization` header for `api_key`.
pub fn authorization_value(api_key: &str) -> (res: String)
    ensures
        res@ == "Bearer "@ + api_key@,
{
    let mut res = String::from_str("Bearer ");
    res.append(api_key);
    res
}

/// Whether the status code is a success: `200..=299`, as
/// `reqwest::StatusCode::is_success` decides.
pub open spec fn is_success(code: u16) -> bool {
    200 <= code <= 299
}

/// Accepts a successful status, and refuses any other with
/// `ChatError::Status`.
pub fn check_status(code: u16) -> (res: Result<(), ChatError>)
    ensures
        is_success(code) <==> res is Ok,
        !is_success(code) ==> res == Err::<(), ChatError>(ChatError::Status(code)),
{
    if 200 <= code && code <= 299 {
        Ok(())
    } else {
        Err(ChatError::Status(code))
    }
}

/// Where a byte sequence stops being UTF-8: its longest valid prefix has `k`
/// bytes; `err_len`, where present, is the length of the invalid sequence
/// after it, and where absent the input ends 1 to 3 bytes after that prefix.
pub open spec fn utf8_failure(bytes: Seq<u8>, k: int, err_len: Option<usize>) -> bool {
    &&& 0 <= k <= bytes.len()
    &&& vstd::utf8::valid_utf8(bytes.take(k))
    &&& forall|j: int| k < j <= bytes.len() ==> !vstd::utf8::valid_utf8(#[trigger] bytes.take(j))
    &&& match err_len {
        Some(n) => 1 <= n && k + n <= bytes.len(),
        None => 1 <= bytes.len() - k <= 3,
    }
}

/// What `Utf8Error::error_len` gives for bytes that are not valid UTF-8: the
/// length of the invalid sequence after the longest valid prefix, or `None`
/// where the input ends inside a sequence.
pub uninterp spec fn utf8_error_len(bytes: Seq<u8>) -> Option<usize>;

/// `String::from_utf8`: the string that the bytes encode, where they are valid
/// UTF-8; otherwise `Utf8Error::valid_up_to` and `Utf8Error::error_len` of
/// the error. Trusted: std documents that it fails exactly on invalid UTF-8
/// (`valid_utf8` / `decode_utf8` state UTF-8 as the standard defines it),
/// that `valid_up_to` is the largest index up to which the input is valid
/// UTF-8, and that `error_len` is the length of the invalid sequence there,
/// or `None` where the input ends 1 to 3 bytes after it; which of the two,
/// and the exact length, is a function of the bytes, named `utf8_error_len`.
#[verifier::external_body]
fn string_from_utf8(bytes: Vec<u8>) -> (res: Result<String, (usize, Option<usize>)>)
    ensures
        res is Ok <==> vstd::utf8::valid_utf8(bytes@),
        res matches Ok(s) ==> s@ == vstd::utf8::decode_utf8(bytes@),
        res matches Err((k, n)) ==> utf8_failure(bytes@, k as int, n) && n == utf8_error_len(
            bytes@,
        ),
{
    match String::from_utf8(bytes) {
        Ok(s) => Ok(s),
        Err(e) => Err((e.utf8_error().valid_up_to(), e.utf8_error().error_len())),
    }
}

/// The outcome for a chunk from what decoding its bytes gave: the text, or
/// `ChatError::InvalidUtf8` with where and how decoding failed.
pub fn chunk_outcome(decoded: Result<String, (usize, Option<usize>)>) -> (res: Result<
    String,
    ChatError,
>)
    ensures
        decoded matches Ok(s) ==> res == Ok::<String, ChatError>(s),
        decoded matches Err((k, n)) ==> res == Err::<String, ChatError>(
            ChatError::InvalidUtf8 { valid_up_to: k, error_len: n },
        ),
{
    match decoded {
        Ok(s) => Ok(s),
        Err((valid_up_to, error_len)) => Err(ChatError::InvalidUtf8 { valid_up_to, error_len }),
    }
}

/// The text of one chunk of the answer stream; `ChatError::InvalidUtf8`,
/// with where and how decoding failed, exactly where its bytes are not
/// valid UTF-8.
pub fn decode_chunk(bytes: Vec<u8>) -> (res: Result<String, ChatError>)
    ensures
        res is Ok <==> vstd::utf8::valid_utf8(bytes@),
        res matches Ok(s) ==> s@ == vstd::utf8::decode_utf8(bytes@),
        res matches Err(e) ==> e matches ChatError::InvalidUtf8 { valid_up_to, error_len }
            && utf8_failure(bytes@, valid_up_to as int, error_len) && error_len
            == utf8_error_len(bytes@),
{
    chunk_outcome(string_from_utf8(bytes))
}

/// Text that the service sends in UTF-8 decodes to the same text.
pub proof fn law_utf8_text_decodes_to_itself(text: Seq<char>)
    ensures
        vstd::utf8::valid_utf8(vstd::utf8::encode_utf8(text)),
        vstd::utf8::decode_utf8(vstd::utf8::encode_utf8(text)) == text,
{
    vstd::utf8::encode_utf8_valid_utf8(text);
    vstd::utf8::encode_utf8_decode_utf8(text);
}

proof fn lemma_first_scalar_append(a: Seq<u8>, b: Seq<u8>)
    requires
        vstd::utf8::valid_first_scalar(a),
    ensures
        vstd::utf8::valid_first_scalar(a + b),
        vstd::utf8::decode_first_scalar(a + b) == vstd::utf8::decode_first_scalar(a),
        vstd::utf8::length_of_first_scalar(a + b) == vstd::utf8::length_of_first_scalar(a),
        vstd::utf8::pop_first_scalar(a + b) == vstd::utf8::pop_first_scalar(a) + b,
{
    let c = a + b;
    assert(c[0] == a[0]);
    if a.len() >= 2 {
        assert(c[1] == a[1]);
    }
    if a.len() >= 3 {
        assert(c[2] == a[2]);
    }
    if a.len() >= 4 {
        assert(c[3] == a[3]);
    }
    let k = vstd::utf8::length_of_first_scalar(a);
    assert(c.subrange(k, c.len() as int) == a.subrange(k, a.len() as int) + b);
}

proof fn lemma_utf8_append(a: Seq<u8>, b: Seq<u8>)
    requires
        vstd::utf8::valid_utf8(a),
        vstd::utf8::valid_utf8(b),
    ensures
        vstd::utf8::valid_utf8(a + b),
        vstd::utf8::decode_utf8(a + b) == vstd::utf8::decode_utf8(a) + vstd::utf8::decode_utf8(b),
    decreases a.len(),
{
    if a.len() == 0 {
        assert(a + b == b);
        assert(vstd::utf8::decode_utf8(a) == Seq::<char>::empty());
    } else {
        lemma_first_scalar_append(a, b);
        let rest = vstd::utf8::pop_first_scalar(a);
        assert(rest.len() < a.len());
        lemma_utf8_append(rest, b);
        assert(vstd::utf8::decode_utf8(a + b) == seq![
            vstd::utf8::decode_first_scalar(a) as char,
        ] + vstd::utf8::decode_utf8(rest + b));
    }
}

/// The byte chunks written one after another.
pub open spec fn concat_bytes(chunks: Seq<Seq<u8>>) -> Seq<u8>
    decreases chunks.len(),
{
    if chunks.len() == 0 {
        seq![]
    } else {
        chunks[0] + concat_bytes(chunks.drop_first())
    }
}

/// The texts of the chunks, decoded one by one and written one after another.
pub open spec fn decoded_chunks(chunks: Seq<Seq<u8>>) -> Seq<char>
    decreases chunks.len(),
{
    if chunks.len() == 0 {
        seq![]
    } else {
        vstd::utf8::decode_utf8(chunks[0]) + decoded_chunks(chunks.drop_first())
    }
}

/// Where every chunk of the answer is valid UTF-8 on its own, decoding chunk
/// by chunk gives the text of the whole answer: the chunks together are
/// valid UTF-8, and their texts, joined, are its text.
pub proof fn law_chunkwise_decoding(chunks: Seq<Seq<u8>>)
    requires
        forall|i: int| 0 <= i < chunks.len() ==> vstd::utf8::valid_utf8(#[trigger] chunks[i]),
    ensures
        vstd::utf8::valid_utf8(concat_bytes(chunks)),
        vstd::utf8::decode_utf8(concat_bytes(chunks)) == decoded_chunks(chunks),
    decreases chunks.len(),
{
    if chunks.len() == 0 {
        assert(vstd::utf8::decode_utf8(Seq::<u8>::empty()) == Seq::<char>::empty());
    } else {
        let rest = chunks.drop_first();
        assert forall|i: int| 0 <= i < rest.len() implies vstd::utf8::valid_utf8(#[trigger] rest[i]) by {
            assert(rest[i] == chunks[i + 1]);
        }
        assert(vstd::utf8::valid_utf8(chunks[0]));
        law_chunkwise_decoding(rest);
        lemma_utf8_append(chunks[0], concat_bytes(rest));
    }
}

} // verus!
