//! Turning the streamed answer of the chat service into text.
//!
//! The service sends server-sent events: pieces of the form `data: {json}`.
//! A network chunk may hold several events, or only part of one; what has not
//! yet formed a whole JSON object is kept in a buffer for the next chunk.
use vstd::prelude::*;

use crate::text::{
    append_chars, chars_of, contains, last_index_of, occurs_at, push_char, rfind_char, split,
    split_chars, split_from, starts_with, string_of, subvec, views,
};

verus! {

/// What `serde_json` makes of `text`: `None` where `text` is not one JSON
/// value; otherwise the string at `choices[0].delta.content`, if there is one.
pub uninterp spec fn json_delta_content(text: Seq<char>) -> Option<Option<Seq<char>>>;

/// No piece of `text` that is shorter than it and ends at a `}` parses as
/// JSON.
pub open spec fn no_shorter_object_parses(text: Seq<char>) -> bool {
    forall|k: int|
        0 < k < text.len() && text[k - 1] == '}' ==> (#[trigger] json_delta_content(
            text.take(k),
        )) is None
}

/// Parses `text` as a JSON value with `serde_json::from_str::<serde_json::Value>`
/// and reads the string at `["choices"][0]["delta"]["content"]` with the
/// `Value` index operators, `Value::get` and `Value::as_str`. Trusted: the
/// result is a function of `text` alone, named `json_delta_content`; and
/// where a text that ends with `}` parses, no shorter piece of it that ends
/// with `}` parses. The latter holds because `from_str` refuses any
/// non-whitespace after a complete value (`Deserializer::end`,
/// `ErrorCode::TrailingCharacters`): a piece ending at `}` that parsed would
/// be a complete object, read the same way at the start of the longer text,
/// which would then have the rest, ending with `}`, trailing after it.
#[verifier::external_body]
fn parse_delta_content(text: &str) -> (res: Option<Option<String>>)
    ensures
        parsed_view(res) == json_delta_content(text@),
        res is Some && text@.len() > 0 && text@.last() == '}' ==> no_shorter_object_parses(
            text@,
        ),
{
    match serde_json::from_str::<serde_json::Value>(text) {
        Ok(json) => Some(
            json["choices"].get(0).and_then(|choice| choice["delta"]["content"].as_str()).map(
                |content| content.to_string(),
            ),
        ),
        Err(_) => None,
    }
}

/// The characters of a parse result.
pub open spec fn parsed_view(p: Option<Option<String>>) -> Option<Option<Seq<char>>> {
    match p {
        None => None,
        Some(None) => Some(None),
        Some(Some(s)) => Some(Some(s@)),
    }
}

/// The pattern that opens each server-sent event.
pub open spec fn data_prefix() -> Seq<char> {
    seq!['d', 'a', 't', 'a', ':', ' ']
}

/// What a piece of content adds to the output: the content and a space.
pub open spec fn content_text(c: Option<Seq<char>>) -> Seq<char> {
    match c {
        Some(t) => t.push(' '),
        None => seq![],
    }
}

/// Output and buffer after a parse attempt on the buffer's text up to its
/// last `}`: where it parsed, its content (if any) is output and the buffer
/// is emptied; where it did not, both stay as they are.
pub open spec fn absorb_parsed(out: Seq<char>, buf: Seq<char>, parsed: Option<Option<Seq<char>>>) -> (
    Seq<char>,
    Seq<char>,
) {
    match parsed {
        None => (out, buf),
        Some(c) => (out + content_text(c), seq![]),
    }
}

/// Output and buffer after one non-empty event piece `seg` is appended to the
/// buffer `buf`.
pub open spec fn absorb_segment(out: Seq<char>, buf: Seq<char>, seg: Seq<char>) -> (
    Seq<char>,
    Seq<char>,
) {
    let b = buf + seg;
    match last_index_of(b, '}') {
        None => (out, b),
        Some(p) => absorb_parsed(out, b, json_delta_content(b.take(p + 1))),
    }
}

/// Output and buffer after the pieces `segs`, empty ones skipped.
pub open spec fn absorb_all(segs: Seq<Seq<char>>, out: Seq<char>, buf: Seq<char>) -> (
    Seq<char>,
    Seq<char>,
)
    decreases segs.len(),
{
    if segs.len() == 0 {
        (out, buf)
    } else {
        let next = if segs[0].len() == 0 {
            (out, buf)
        } else {
            absorb_segment(out, buf, segs[0])
        };
        absorb_all(segs.drop_first(), next.0, next.1)
    }
}

/// The text extracted from one network chunk `stream`, and the buffer left
/// for the next one, given the buffer `buf` left by the previous one.
pub open spec fn streamed(stream: Seq<char>, buf: Seq<char>) -> (Seq<char>, Seq<char>) {
    absorb_all(split(stream, data_prefix()), seq![], buf)
}

/// Applies the result of a parse attempt on the buffer's text up to its last
/// `}`: on success the content, if any, is appended to `out` with a space,
/// and `buf` is emptied; on failure both are left as they are.
pub fn absorb_parse_result(
    out: &mut String,
    buf: &mut Vec<char>,
    parsed: Option<Option<String>>,
)
    ensures
        (final(out)@, final(buf)@) == absorb_parsed(old(out)@, old(buf)@, parsed_view(parsed)),
{
    match parsed {
        None => {},
        Some(content) => {
            if let Some(c) = content {
                out.append(c.as_str());
                push_char(out, ' ');
            }
            *buf = Vec::new();
        },
    }
}

/// Extracts the answer text from one network chunk of the event stream.
///
/// The chunk is split at each `data: `; each non-empty piece is appended to
/// `json_buffer`, and when the buffer's text up to its last `}` parses as
/// JSON, the `choices[0].delta.content` string (if any) is output followed by
/// a space, and the buffer is emptied. Text that does not parse yet stays in
/// the buffer for the next chunk.
pub fn process_streamed_data(stream: &str, json_buffer: &mut String) -> (res: String)
    ensures
        (res@, final(json_buffer)@) == streamed(stream@, old(json_buffer)@),
{
    let s = chars_of(stream);
    let pattern: Vec<char> = vec!['d', 'a', 't', 'a', ':', ' '];
    assert(pattern@ == data_prefix());
    let segs = split_chars(&s, &pattern);
    let ghost all = views(segs@);
    let mut out = String::new();
    let mut buf = chars_of(json_buffer.as_str());
    let n = segs.len();
    assert(all.skip(0) == all);
    for i in 0..n
        invariant
            n == segs@.len(),
            all == views(segs@),
            all == split(stream@, data_prefix()),
            absorb_all(all, seq![], old(json_buffer)@) == absorb_all(all.skip(i as int), out@, buf@),
    {
        assert(all.skip(i as int).drop_first() == all.skip(i + 1));
        assert(all.skip(i as int)[0] == segs@[i as int]@);
        if segs[i].len() > 0 {
            append_chars(&mut buf, &segs[i]);
            let blen = buf.len();
            match rfind_char(&buf, '}') {
                None => {},
                Some(p) => {
                    let candidate = subvec(&buf, 0, p + 1);
                    assert(candidate@ == buf@.take(p + 1));
                    let parsed = parse_delta_content(string_of(&candidate).as_str());
                    absorb_parse_result(&mut out, &mut buf, parsed);
                },
            }
        }
    }
    assert(all.skip(n as int) == Seq::<Seq<char>>::empty());
    *json_buffer = string_of(&buf);
    out
}

/// The pieces written one after another.
pub open spec fn concat(segs: Seq<Seq<char>>) -> Seq<char>
    decreases segs.len(),
{
    if segs.len() == 0 {
        seq![]
    } else {
        segs[0] + concat(segs.drop_first())
    }
}

proof fn lemma_no_brace_no_index(s: Seq<char>)
    requires
        !s.contains('}'),
    ensures
        last_index_of(s, '}') is None,
    decreases s.len(),
{
    if s.len() > 0 {
        assert(s[s.len() - 1] == s.last());
        assert(s.last() != '}');
        assert forall|k: int| 0 <= k < s.drop_last().len() implies s.drop_last()[k] != '}' by {
            assert(s.drop_last()[k] == s[k]);
        }
        lemma_no_brace_no_index(s.drop_last());
    }
}

/// Pieces with no `}`, after a buffer with no `}`, output nothing and are
/// kept, in order, in the buffer: an unfinished JSON object waits for the
/// rest of its text.
pub proof fn law_unfinished_json_is_kept(segs: Seq<Seq<char>>, out: Seq<char>, buf: Seq<char>)
    requires
        !buf.contains('}'),
        forall|j: int| 0 <= j < segs.len() ==> !(#[trigger] segs[j]).contains('}'),
    ensures
        absorb_all(segs, out, buf) == (out, buf + concat(segs)),
    decreases segs.len(),
{
    if segs.len() == 0 {
        assert(buf + Seq::<char>::empty() == buf);
    } else {
        let rest = segs.drop_first();
        assert forall|j: int| 0 <= j < rest.len() implies !(#[trigger] rest[j]).contains('}') by {
            assert(rest[j] == segs[j + 1]);
        }
        assert(!segs[0].contains('}'));
        if segs[0].len() == 0 {
            law_unfinished_json_is_kept(rest, out, buf);
            assert(segs[0] + concat(rest) == concat(rest));
        } else {
            let b = buf + segs[0];
            assert forall|k: int| 0 <= k < b.len() implies b[k] != '}' by {
                if k < buf.len() {
                    assert(b[k] == buf[k]);
                } else {
                    assert(b[k] == segs[0][k - buf.len()]);
                }
            }
            lemma_no_brace_no_index(b);
            law_unfinished_json_is_kept(rest, out, b);
            assert(b + concat(rest) == buf + (segs[0] + concat(rest)));
        }
    }
}

proof fn lemma_split_without_pattern(s: Seq<char>, p: Seq<char>, cur: Seq<char>)
    requires
        p.len() > 0,
        !contains(s, p),
    ensures
        split_from(s, p, cur) == seq![cur + s],
    decreases s.len(),
{
    if s.len() == 0 {
        assert(cur + s == cur);
    } else {
        if starts_with(s, p) {
            assert(s.subrange(0, p.len() as int) == s.take(p.len() as int));
            assert(occurs_at(s, p, 0));
        }
        let t = s.drop_first();
        assert forall|i: int| !occurs_at(t, p, i) by {
            if occurs_at(t, p, i) {
                assert(s.subrange(i + 1, i + 1 + p.len()) == t.subrange(i, i + p.len()));
                assert(occurs_at(s, p, i + 1));
            }
        }
        lemma_split_without_pattern(t, p, cur.push(s[0]));
        assert(cur.push(s[0]) + t == cur + s);
    }
}

proof fn lemma_split_event(x: Seq<char>)
    requires
        !contains(x, data_prefix()),
    ensures
        split(data_prefix() + x, data_prefix()) == seq![Seq::<char>::empty(), x],
{
    let p = data_prefix();
    let s = p + x;
    assert(s.take(6) == p);
    assert(s.skip(6) == x);
    lemma_split_without_pattern(x, p, seq![]);
    assert(Seq::<char>::empty() + x == x);
}

proof fn lemma_contains_in_parts(a: Seq<char>, b: Seq<char>, p: Seq<char>)
    ensures
        contains(a, p) ==> contains(a + b, p),
        contains(b, p) ==> contains(a + b, p),
{
    if contains(a, p) {
        let i = choose|i: int| occurs_at(a, p, i);
        assert((a + b).subrange(i, i + p.len()) == a.subrange(i, i + p.len()));
        assert(occurs_at(a + b, p, i));
    }
    if contains(b, p) {
        let i = choose|i: int| occurs_at(b, p, i);
        assert((a + b).subrange(a.len() + i, a.len() + i + p.len()) == b.subrange(i, i + p.len()));
        assert(occurs_at(a + b, p, a.len() + i));
    }
}

proof fn lemma_last_index_of(s: Seq<char>, c: char)
    ensures
        last_index_of(s, c) matches Some(p) ==> 0 <= p < s.len() && s[p] == c,
        s.len() > 0 && s.last() == c ==> last_index_of(s, c) == Some(s.len() - 1),
    decreases s.len(),
{
    if s.len() > 0 && s.last() != c {
        lemma_last_index_of(s.drop_last(), c);
    }
}

/// An event cut in two between network chunks gives the same text and the
/// same buffer as when it arrives whole: the first part is kept and shows
/// nothing, and the second part completes it. This holds where no shorter
/// piece of the event text that ends at a `}` parses as JSON; the contract
/// of `parse_delta_content` states that of every text ending with `}` that
/// it parses, so it holds of every event whose JSON object parses.
pub proof fn law_split_event_as_whole(j1: Seq<char>, j2: Seq<char>)
    requires
        j1.len() > 0,
        j2.len() > 0,
        (j1 + j2).last() == '}',
        !contains(j1 + j2, data_prefix()),
    ensures
        no_shorter_object_parses(j1 + j2) ==> {
            &&& streamed(data_prefix() + j1, seq![]) == (Seq::<char>::empty(), j1)
            &&& streamed(j2, j1) == streamed(data_prefix() + (j1 + j2), seq![])
        },
{
    let j = j1 + j2;
    let p = data_prefix();
    let empty = Seq::<char>::empty();
    lemma_contains_in_parts(j1, j2, p);
    lemma_split_event(j1);
    lemma_split_event(j);
    lemma_split_without_pattern(j2, p, empty);
    assert(empty + j2 == j2);
    assert(empty + j1 == j1);
    assert(empty + j == j);
    assert(j1 + j2 == j);
    lemma_last_index_of(j1, '}');
    lemma_last_index_of(j, '}');
    assert(j.take(j.len() as int) == j);
    if no_shorter_object_parses(j) {
        if let Some(q) = last_index_of(j1, '}') {
            assert(j[q] == j1[q]);
            assert(j.take(q + 1) == j1.take(q + 1));
            assert(json_delta_content(j.take(q + 1)) is None);
        }
        assert(seq![empty, j1].drop_first() == seq![j1]);
        assert(seq![j2].drop_first() == Seq::<Seq<char>>::empty());
        assert(seq![empty, j].drop_first() == seq![j]);
        assert(seq![j].drop_first() == Seq::<Seq<char>>::empty());
        assert(seq![j1].drop_first() == Seq::<Seq<char>>::empty());
        reveal_with_fuel(absorb_all, 3);
    }
}

proof fn lemma_split_skip_piece(x: Seq<char>, y: Seq<char>, p: Seq<char>, cur: Seq<char>)
    requires
        forall|i: int| 0 <= i < x.len() ==> !occurs_at(x + y, p, i),
    ensures
        split_from(x + y, p, cur) == split_from(y, p, cur + x),
    decreases x.len(),
{
    if x.len() == 0 {
        assert(x + y == y);
        assert(cur + x == cur);
    } else {
        let s = x + y;
        if p.len() > 0 && starts_with(s, p) {
            assert(s.subrange(0, p.len() as int) == s.take(p.len() as int));
            assert(occurs_at(s, p, 0));
        }
        let t = x.drop_first();
        assert(s.drop_first() == t + y);
        assert(s[0] == x[0]);
        assert forall|i: int| 0 <= i < t.len() implies !occurs_at(t + y, p, i) by {
            if occurs_at(t + y, p, i) {
                assert(s.subrange(i + 1, i + 1 + p.len()) == (t + y).subrange(i, i + p.len()));
                assert(occurs_at(s, p, i + 1));
            }
        }
        lemma_split_skip_piece(t, y, p, cur.push(x[0]));
        assert(cur.push(x[0]) + t == cur + x);
    }
}

proof fn lemma_split_first_piece(e: Seq<char>, p: Seq<char>, cur: Seq<char>)
    ensures
        split_from(e, p, seq![]).len() >= 1,
        split_from(e, p, cur) == seq![cur + split_from(e, p, seq![])[0]] + split_from(
            e,
            p,
            seq![],
        ).drop_first(),
    decreases e.len(),
{
    let empty = Seq::<char>::empty();
    if e.len() == 0 {
        assert(cur + empty == cur);
        assert(seq![empty].drop_first() == Seq::<Seq<char>>::empty());
        assert(seq![cur] + Seq::<Seq<char>>::empty() == seq![cur]);
    } else if p.len() > 0 && starts_with(e, p) {
        let r = split_from(e.skip(p.len() as int), p, empty);
        assert(split_from(e, p, empty) == seq![empty] + r);
        assert((seq![empty] + r)[0] == empty);
        assert((seq![empty] + r).drop_first() == r);
        assert(cur + empty == cur);
    } else {
        let t = e.drop_first();
        lemma_split_first_piece(t, p, cur.push(e[0]));
        lemma_split_first_piece(t, p, seq![e[0]]);
        let f = split_from(t, p, empty)[0];
        let rest = split_from(t, p, empty).drop_first();
        assert(split_from(e, p, empty) == split_from(t, p, empty.push(e[0])));
        assert(empty.push(e[0]) == seq![e[0]]);
        assert((seq![seq![e[0]] + f] + rest)[0] == seq![e[0]] + f);
        assert((seq![seq![e[0]] + f] + rest).drop_first() == rest);
        assert(cur + (seq![e[0]] + f) == cur.push(e[0]) + f);
    }
}

proof fn lemma_no_straddle(x: Seq<char>, y: Seq<char>)
    requires
        x.len() > 0,
        x.last() == '}',
        !contains(x, data_prefix()),
    ensures
        forall|i: int| 0 <= i < x.len() ==> !occurs_at(x + y, data_prefix(), i),
{
    let p = data_prefix();
    assert forall|i: int| 0 <= i < x.len() implies !occurs_at(x + y, p, i) by {
        if occurs_at(x + y, p, i) {
            if i + p.len() <= x.len() {
                assert((x + y).subrange(i, i + p.len()) == x.subrange(i, i + p.len()));
                assert(occurs_at(x, p, i));
            } else {
                let m = x.len() - 1;
                assert((x + y)[m] == '}');
                assert((x + y).subrange(i, i + p.len())[m - i] == (x + y)[m]);
                assert(p[m - i] != '}');
            }
        }
    }
}

/// An event cut in two between network chunks gives the same text and the
/// same buffer as when it arrives whole, whatever further events follow it
/// in the second chunk: with the first part `j1` in the buffer, the chunk
/// `j2 + e` gives what the chunk `data: ` + `j1 + j2` + `e` gives from an
/// empty buffer.
pub proof fn law_cut_event_before_more_events(j1: Seq<char>, j2: Seq<char>, e: Seq<char>)
    requires
        j2.len() > 0,
        (j1 + j2).last() == '}',
        !contains(j1 + j2, data_prefix()),
    ensures
        streamed(j2 + e, j1) == streamed(data_prefix() + (j1 + j2) + e, seq![]),
{
    let j = j1 + j2;
    let p = data_prefix();
    let empty = Seq::<char>::empty();
    lemma_contains_in_parts(j1, j2, p);
    assert(j2.last() == j.last());
    lemma_no_straddle(j2, e);
    lemma_no_straddle(j, e);
    lemma_split_skip_piece(j2, e, p, empty);
    lemma_split_skip_piece(j, e, p, empty);
    assert(empty + j2 == j2);
    assert(empty + j == j);
    let w = p + j + e;
    assert(w.take(6) == p);
    assert(w.skip(6) == j + e);
    assert(split(w, p) == seq![empty] + split_from(j + e, p, empty));
    lemma_split_first_piece(e, p, j2);
    lemma_split_first_piece(e, p, j);
    let f = split_from(e, p, empty)[0];
    let t = split_from(e, p, empty).drop_first();
    let ss = seq![j2 + f] + t;
    let ws = seq![empty] + (seq![j + f] + t);
    assert(split(j2 + e, p) == ss);
    assert(split(w, p) == ws);
    assert(ss[0] == j2 + f);
    assert(ss.drop_first() == t);
    assert(ws[0] == empty);
    assert(ws.drop_first() == seq![j + f] + t);
    assert((seq![j + f] + t)[0] == j + f);
    assert((seq![j + f] + t).drop_first() == t);
    assert(j1 + (j2 + f) == empty + (j + f));
    reveal_with_fuel(absorb_all, 2);
    assert(absorb_all(ws.drop_first(), empty, empty) == absorb_all(t, absorb_segment(empty, empty, j + f).0, absorb_segment(empty, empty, j + f).1));
}

} // verus!
