//! The command line: what each typed character does to the line being
//! edited, what a submitted `/` command asks for, and how the streamed answer
//! to a chat query is collected.
use vstd::prelude::*;

use crate::santize::{process_streamed_data, streamed};
use crate::text::{
    chars_eq, chars_of, contains, contains_chars, ends_with, ends_with_chars, join, join_chars,
    parse_i32, parse_i32_chars, starts_with, starts_with_chars, string_of, subvec, trim,
    trim_chars, trim_start, occurs_at, views,
};
use crate::types::Interaction;

verus! {

/// The character the key reader sends when Enter is pressed on its own.
pub const ENTER_SIGNAL: char = '\x1F';

/// The character the key reader sends for Backspace.
pub const BACKSPACE_SIGNAL: char = '\x08';

/// The character the key reader sends for an Enter that is part of pasted text.
pub const PASTED_NEWLINE: char = '\n';

/// A submitted command line that starts with `/`.
pub enum Command {
    /// Copy the answers of the last so many interactions to the clipboard.
    Copy(i32),
    /// Leave the application.
    Exit,
    /// Send the whole line, `/` included, to the chat service.
    Query(String),
}

/// The meaning of a [`Command`].
pub enum CommandView {
    Copy(i32),
    Exit,
    Query(Seq<char>),
}

impl View for Command {
    type V = CommandView;

    open spec fn view(&self) -> CommandView {
        match self {
            Command::Copy(n) => CommandView::Copy(*n),
            Command::Exit => CommandView::Exit,
            Command::Query(q) => CommandView::Query(q@),
        }
    }
}

/// The meaning of an optional command.
pub open spec fn command_option_view(o: Option<Command>) -> Option<CommandView> {
    match o {
        Some(c) => Some(c@),
        None => None,
    }
}

/// `/copy`
pub open spec fn copy_word() -> Seq<char> {
    seq!['/', 'c', 'o', 'p', 'y']
}

/// `/exit`
pub open spec fn exit_word() -> Seq<char> {
    seq!['/', 'e', 'x', 'i', 't']
}

/// `/`
pub open spec fn slash() -> Seq<char> {
    seq!['/']
}

/// A count of at least one.
pub open spec fn at_least_one(n: i32) -> i32 {
    if n < 1 {
        1
    } else {
        n
    }
}

/// What follows `/copy` in a line that starts with it, surrounding
/// whitespace removed.
pub open spec fn copy_argument(cmd: Seq<char>) -> Seq<char> {
    trim(cmd.skip(copy_word().len() as int))
}

/// A copy command, as documented: `/copy` alone, or `/copy` followed by a
/// number, with or without whitespace between (`/copy 3`, `/copy3`).
pub open spec fn is_copy_command(cmd: Seq<char>) -> bool {
    ||| cmd == copy_word()
    ||| starts_with(cmd, copy_word()) && parse_i32(copy_argument(cmd)) is Some
}

/// How many interactions a copy command asks for: its number, at least one;
/// one for `/copy` alone.
pub open spec fn copy_number(cmd: Seq<char>) -> i32 {
    match parse_i32(copy_argument(cmd)) {
        Some(n) => at_least_one(n),
        None => 1,
    }
}

/// What a submitted `/` command line asks for.
pub open spec fn classify(cmd: Seq<char>) -> CommandView {
    if cmd == exit_word() {
        CommandView::Exit
    } else if is_copy_command(cmd) {
        CommandView::Copy(copy_number(cmd))
    } else {
        CommandView::Query(cmd)
    }
}

/// What a submitted `/` command line asks for: `/exit` to leave; a copy
/// command to copy answers; anything else is a query for the chat service.
pub fn parse_command(command: &str) -> (res: Command)
    ensures
        res@ == classify(command@),
{
    let cmd = chars_of(command);
    let exit: Vec<char> = vec!['/', 'e', 'x', 'i', 't'];
    assert(exit@ == exit_word());
    if chars_eq(&cmd, &exit) {
        return Command::Exit;
    }
    let word: Vec<char> = vec!['/', 'c', 'o', 'p', 'y'];
    assert(word@ == copy_word());
    if chars_eq(&cmd, &word) {
        assert(copy_argument(cmd@) == Seq::<char>::empty());
        return Command::Copy(1);
    }
    if starts_with_chars(&cmd, &word) {
        assert(cmd@.skip(5) == cmd@.subrange(5, cmd@.len() as int));
        let rest = trim_chars(&subvec(&cmd, 5, cmd.len()));
        if let Some(n) = parse_i32_chars(&rest) {
            return Command::Copy(
                if n < 1 {
                    1
                } else {
                    n
                },
            );
        }
    }
    Command::Query(string_of(&cmd))
}

/// The line after character `c` arrives, and the command it submits, if any.
/// Enter submits a line that starts with `/` and empties it, and leaves any
/// other line as it is; a pasted newline is ignored; Backspace removes the
/// last character; any other character is appended.
pub open spec fn step(buf: Seq<char>, c: char) -> (Seq<char>, Option<CommandView>) {
    if c == ENTER_SIGNAL {
        if starts_with(buf, slash()) {
            (seq![], Some(classify(buf)))
        } else {
            (buf, None)
        }
    } else if c == PASTED_NEWLINE {
        (buf, None)
    } else if c == BACKSPACE_SIGNAL {
        (
            if buf.len() > 0 {
                buf.drop_last()
            } else {
                buf
            },
            None,
        )
    } else {
        (buf.push(c), None)
    }
}

/// The command line being typed.
pub struct CommandBuffer {
    chars: Vec<char>,
}

impl View for CommandBuffer {
    type V = Seq<char>;

    closed spec fn view(&self) -> Seq<char> {
        self.chars@
    }
}

impl CommandBuffer {
    /// An empty line.
    pub fn new() -> (res: Self)
        ensures
            res@ == Seq::<char>::empty(),
    {
        CommandBuffer { chars: Vec::new() }
    }

    /// The text of the line.
    pub fn contents(&self) -> (res: String)
        ensures
            res@ == self@,
    {
        string_of(&self.chars)
    }

    /// Takes one character from the key reader; returns the command that it
    /// submits, if any.
    pub fn handle_char(&mut self, c: char) -> (res: Option<Command>)
        ensures
            (final(self)@, command_option_view(res)) == step(old(self)@, c),
    {
        if c == ENTER_SIGNAL {
            let slash_chars: Vec<char> = vec!['/'];
            assert(slash_chars@ == slash());
            if starts_with_chars(&self.chars, &slash_chars) {
                let line = string_of(&self.chars);
                self.chars = Vec::new();
                Some(parse_command(line.as_str()))
            } else {
                None
            }
        } else if c == PASTED_NEWLINE {
            None
        } else if c == BACKSPACE_SIGNAL {
            if self.chars.len() > 0 {
                self.chars.pop();
            }
            None
        } else {
            self.chars.push(c);
            None
        }
    }
}

/// Backspace right after a typed character takes it back.
pub proof fn law_backspace_undoes_typing(buf: Seq<char>, c: char)
    requires
        c != ENTER_SIGNAL,
        c != PASTED_NEWLINE,
        c != BACKSPACE_SIGNAL,
    ensures
        step(step(buf, c).0, BACKSPACE_SIGNAL) == (buf, None::<CommandView>),
{
    assert(buf.push(c).drop_last() == buf);
}

/// Enter on a line that starts with `/` submits exactly that line and
/// leaves an empty line; on any other line it submits nothing and keeps it.
pub proof fn law_enter_submits_slash_lines(buf: Seq<char>)
    ensures
        starts_with(buf, slash()) ==> step(buf, ENTER_SIGNAL) == (
            Seq::<char>::empty(),
            Some(classify(buf)),
        ),
        !starts_with(buf, slash()) ==> step(buf, ENTER_SIGNAL) == (buf, None::<CommandView>),
{
}

/// A copy command always asks for at least one interaction.
pub proof fn law_copy_count_positive(cmd: Seq<char>)
    ensures
        classify(cmd) matches CommandView::Copy(n) ==> n >= 1,
{
}

/// `/exit` leaves the application, and `/copy` alone copies the latest
/// answer.
pub proof fn law_exit_and_bare_copy()
    ensures
        classify(exit_word()) == CommandView::Exit,
        classify(copy_word()) == CommandView::Copy(1),
{
    let c = copy_word();
    assert(c != exit_word()) by {
        assert(c[1] != exit_word()[1]);
    }
    assert(c.skip(5) == Seq::<char>::empty());
}

/// Only the documented copy forms copy: a line that starts with `/copy` but
/// is neither `/copy` alone nor `/copy` and a number goes to the chat service.
pub proof fn law_other_copy_lines_are_queries(cmd: Seq<char>)
    requires
        cmd != exit_word(),
        cmd != copy_word(),
        parse_i32(copy_argument(cmd)) is None,
    ensures
        classify(cmd) == CommandView::Query(cmd),
{
    if cmd == copy_word() {
        assert(cmd.take(5) == cmd);
    }
}

/// `/copy` alone, submitted, copies the latest answer.
pub proof fn law_bare_copy_copies_latest(v: Seq<Interaction>)
    requires
        v.len() > 0,
    ensures
        step(copy_word(), ENTER_SIGNAL) == (Seq::<char>::empty(), Some(CommandView::Copy(1))),
        crate::clipboard_utils::copy_text(v, 1) == v.last().response@,
{
    law_exit_and_bare_copy();
    assert(copy_word().take(1) == slash());
    crate::clipboard_utils::law_copy_latest(v, 1);
}

/// `DONE`
pub open spec fn done_word() -> Seq<char> {
    seq!['D', 'O', 'N', 'E']
}

/// Whether a text ends with `DONE`, the last word of a finished stream.
pub fn response_is_complete(text: &str) -> (res: bool)
    ensures
        res == ends_with(text@, done_word()),
{
    let done: Vec<char> = vec!['D', 'O', 'N', 'E'];
    assert(done@ == done_word());
    ends_with_chars(&chars_of(text), &done)
}

/// `[DONE]`, a chunk that ends the stream.
pub open spec fn done_chunk() -> Seq<char> {
    seq!['[', 'D', 'O', 'N', 'E', ']']
}

/// `data: [DONE]`, the event that ends a streamed answer.
pub open spec fn done_event() -> Seq<char> {
    seq!['d', 'a', 't', 'a', ':', ' ', '[', 'D', 'O', 'N', 'E', ']']
}

/// What one chunk of the streamed answer means to the collector.
pub enum StreamStep {
    /// The stream ended with nothing to record.
    Finished,
    /// The answer is complete: record this interaction.
    Completed(Interaction),
    /// More text of the answer, to show at once.
    Content(String),
}

/// The meaning of a [`StreamStep`].
pub enum StepView {
    Finished,
    Completed(Seq<char>),
    Content(Seq<char>),
}

impl View for StreamStep {
    type V = StepView;

    open spec fn view(&self) -> StepView {
        match self {
            StreamStep::Finished => StepView::Finished,
            StreamStep::Completed(i) => StepView::Completed(i.response@),
            StreamStep::Content(c) => StepView::Content(c@),
        }
    }
}

/// The collector's state (unparsed event text, pieces so far) after a chunk,
/// and what the chunk means: `[DONE]` finishes with nothing to record and no
/// change; a chunk holding `data: [DONE]` completes the answer, the pieces
/// so far one per line, with no change; any other chunk yields its text,
/// which becomes the next piece.
pub open spec fn chunk_step(s: (Seq<char>, Seq<Seq<char>>), chunk: Seq<char>) -> (
    (Seq<char>, Seq<Seq<char>>),
    StepView,
) {
    if chunk == done_chunk() {
        (s, StepView::Finished)
    } else if contains(chunk, done_event()) {
        (s, StepView::Completed(join(s.1, seq!['\n'])))
    } else {
        let (c, b) = streamed(chunk, s.0);
        ((b, s.1.push(c)), StepView::Content(c))
    }
}

/// The text pieces of a list of strings.
pub open spec fn string_views(v: Seq<String>) -> Seq<Seq<char>> {
    v.map_values(|s: String| s@)
}

/// Collects the streamed answer to one chat query.
pub struct ResponseCollector {
    json_buffer: String,
    pieces: Vec<String>,
}

impl View for ResponseCollector {
    /// The unparsed event text, and the text pieces received so far.
    type V = (Seq<char>, Seq<Seq<char>>);

    closed spec fn view(&self) -> (Seq<char>, Seq<Seq<char>>) {
        (self.json_buffer@, string_views(self.pieces@))
    }
}

impl ResponseCollector {
    /// A collector that has received nothing.
    pub fn new() -> (res: Self)
        ensures
            res@.0 == Seq::<char>::empty(),
            res@.1 == Seq::<Seq<char>>::empty(),
    {
        ResponseCollector { json_buffer: String::new(), pieces: Vec::new() }
    }

    /// Takes one chunk of the stream. `[DONE]` ends it with nothing to
    /// record; a chunk holding `data: [DONE]` completes the answer, which is
    /// the pieces received so far, one per line; any other chunk yields its
    /// text, which is kept as the next piece.
    pub fn on_chunk(&mut self, chunk: &str) -> (res: StreamStep)
        ensures
            (final(self)@, res@) == chunk_step(old(self)@, chunk@),
    {
        let text = chars_of(chunk);
        let done: Vec<char> = vec!['[', 'D', 'O', 'N', 'E', ']'];
        assert(done@ == done_chunk());
        if chars_eq(&text, &done) {
            return StreamStep::Finished;
        }
        let event: Vec<char> = vec!['d', 'a', 't', 'a', ':', ' ', '[', 'D', 'O', 'N', 'E', ']'];
        assert(event@ == done_event());
        if contains_chars(&text, &event) {
            let mut parts: Vec<Vec<char>> = Vec::new();
            let n = self.pieces.len();
            for i in 0..n
                invariant
                    n == self.pieces@.len(),
                    views(parts@) == string_views(self.pieces@).take(i as int),
            {
                let ghost before = views(parts@);
                parts.push(chars_of(self.pieces[i].as_str()));
                assert(views(parts@) == before.push(self.pieces@[i as int]@));
                assert(string_views(self.pieces@).take(i + 1) == string_views(self.pieces@).take(
                    i as int,
                ).push(self.pieces@[i as int]@));
            }
            assert(string_views(self.pieces@).take(n as int) == string_views(self.pieces@));
            let sep: Vec<char> = vec!['\n'];
            assert(sep@ == seq!['\n']);
            let full = string_of(&join_chars(&parts, &sep));
            return StreamStep::Completed(Interaction::new(full));
        }
        let content = process_streamed_data(chunk, &mut self.json_buffer);
        let ghost before = string_views(self.pieces@);
        self.pieces.push(content.clone());
        assert(string_views(self.pieces@) == before.push(content@));
        StreamStep::Content(content)
    }
}

/// A chunk that ends the stream.
pub open spec fn is_terminal(k: Seq<char>) -> bool {
    k == done_chunk() || contains(k, done_event())
}

/// What a query task does with the items of its stream, from collector state
/// `s`: `None` items are errors, which are skipped; the first chunk that ends
/// the stream stops it. Gives the answer it records, if any, and the texts
/// it shows before stopping.
pub open spec fn run_stream(s: (Seq<char>, Seq<Seq<char>>), items: Seq<Option<Seq<char>>>) -> (
    Option<Seq<char>>,
    Seq<Seq<char>>,
)
    decreases items.len(),
{
    if items.len() == 0 {
        (None, seq![])
    } else {
        match items[0] {
            None => run_stream(s, items.drop_first()),
            Some(k) => {
                let (s2, v) = chunk_step(s, k);
                match v {
                    StepView::Finished => (None, seq![]),
                    StepView::Completed(r) => (Some(r), seq![]),
                    StepView::Content(c) => {
                        let (r, rest) = run_stream(s2, items.drop_first());
                        (r, seq![c] + rest)
                    },
                }
            },
        }
    }
}

/// Item `i` is a chunk holding `data: [DONE]` (and not `[DONE]` itself), and
/// no earlier item ended the stream.
pub open spec fn answer_ends_at(items: Seq<Option<Seq<char>>>, i: int) -> bool {
    &&& 0 <= i < items.len()
    &&& items[i] is Some
    &&& items[i].unwrap() != done_chunk()
    &&& contains(items[i].unwrap(), done_event())
    &&& forall|j: int| 0 <= j < i ==> (#[trigger] items[j]) is Some ==> !is_terminal(items[j].unwrap())
}

proof fn lemma_answer_shift(items: Seq<Option<Seq<char>>>, i: int)
    requires
        items.len() > 0,
        items[0] is None || !is_terminal(items[0].unwrap()),
    ensures
        answer_ends_at(items.drop_first(), i) ==> answer_ends_at(items, i + 1),
        i >= 0 && answer_ends_at(items, i + 1) ==> answer_ends_at(items.drop_first(), i),
{
    let rest = items.drop_first();
    if 0 <= i < rest.len() {
        assert(items[i + 1] == rest[i]);
        if answer_ends_at(rest, i) {
            assert forall|j: int| 0 <= j < i + 1 && (#[trigger] items[j]) is Some implies !is_terminal(
                items[j].unwrap(),
            ) by {
                if j > 0 {
                    assert(items[j] == rest[j - 1]);
                }
            }
        }
        if answer_ends_at(items, i + 1) {
            assert forall|j: int| 0 <= j < i && (#[trigger] rest[j]) is Some implies !is_terminal(
                rest[j].unwrap(),
            ) by {
                assert(rest[j] == items[j + 1]);
            }
        }
    }
}

/// Over a whole stream, a query task records at most one answer; it records
/// one exactly when a chunk holding `data: [DONE]` comes before any `[DONE]`
/// chunk; and that answer is the pieces it held when it started followed by
/// the texts it showed, one per line. From a fresh collector, the answer is
/// exactly the shown texts, one per line.
pub proof fn law_stream_records_shown_text(
    s: (Seq<char>, Seq<Seq<char>>),
    items: Seq<Option<Seq<char>>>,
)
    ensures
        run_stream(s, items).0 matches Some(r) ==> r == join(s.1 + run_stream(s, items).1, seq!['\n']),
        run_stream(s, items).0 is Some <==> exists|i: int| answer_ends_at(items, i),
    decreases items.len(),
{
    if items.len() == 0 {
        assert(s.1 + Seq::<Seq<char>>::empty() == s.1);
    } else {
        let rest = items.drop_first();
        let shifted = items[0] is None || !is_terminal(items[0].unwrap());
        if shifted {
            let (s2, v) = match items[0] {
                None => (s, StepView::Finished),
                Some(k) => chunk_step(s, k),
            };
            let next = if items[0] is None { s } else { s2 };
            law_stream_records_shown_text(next, rest);
            if items[0] is Some {
                let k = items[0].unwrap();
                let (c, b) = streamed(k, s.0);
                assert(next.1 + run_stream(next, rest).1 == s.1 + (seq![c] + run_stream(
                    next,
                    rest,
                ).1));
            }
            if exists|i: int| answer_ends_at(items, i) {
                let i = choose|i: int| answer_ends_at(items, i);
                if i == 0 {
                    assert(is_terminal(items[0].unwrap()));
                }
                lemma_answer_shift(items, i - 1);
            }
            if exists|i: int| answer_ends_at(rest, i) {
                let i = choose|i: int| answer_ends_at(rest, i);
                lemma_answer_shift(items, i);
            }
        } else {
            let k = items[0].unwrap();
            if k == done_chunk() {
                assert forall|i: int| !answer_ends_at(items, i) by {
                    if 0 < i < items.len() && answer_ends_at(items, i) {
                        assert(items[0] is Some ==> !is_terminal(items[0].unwrap()));
                    }
                }
            } else {
                assert(answer_ends_at(items, 0));
                assert(s.1 + Seq::<Seq<char>>::empty() == s.1);
            }
        }
    }
}

/// After a chunk that does not end the stream, the collector holds exactly
/// the buffer that `process_streamed_data` leaves, and the text it returns
/// is shown and becomes the next piece: unfinished event text is carried to
/// the next chunk.
pub proof fn law_collector_carries_unparsed_text(s: (Seq<char>, Seq<Seq<char>>), k: Seq<char>)
    requires
        !is_terminal(k),
    ensures
        chunk_step(s, k).0.0 == streamed(k, s.0).1,
        chunk_step(s, k).0.1 == s.1.push(streamed(k, s.0).0),
        chunk_step(s, k).1 == StepView::Content(streamed(k, s.0).0),
{
}

proof fn lemma_done_event_step(s: (Seq<char>, Seq<Seq<char>>))
    ensures
        chunk_step(s, done_event()) == (s, StepView::Completed(join(s.1, seq!['\n']))),
{
    assert(occurs_at(done_event(), done_event(), 0)) by {
        assert(done_event().subrange(0, 12) == done_event());
    }
    assert(done_event() != done_chunk()) by {
        assert(done_event().len() != done_chunk().len());
    }
}

#[verifier::rlimit(40)]
proof fn lemma_three_chunk_run(
    s0: (Seq<char>, Seq<Seq<char>>),
    k1: Seq<char>,
    k2: Seq<char>,
)
    requires
        !is_terminal(k1),
        !is_terminal(k2),
    ensures
        ({
            let s1 = chunk_step(s0, k1).0;
            let s2 = chunk_step(s1, k2).0;
            run_stream(s0, seq![Some(k1), Some(k2), Some(done_event())]).0 == Some(
                join(s2.1, seq!['\n']),
            )
        }),
{
    let s1 = chunk_step(s0, k1).0;
    let s2 = chunk_step(s1, k2).0;
    law_collector_carries_unparsed_text(s0, k1);
    law_collector_carries_unparsed_text(s1, k2);
    lemma_done_event_step(s2);
    let items = seq![Some(k1), Some(k2), Some(done_event())];
    let i1 = seq![Some(k2), Some(done_event())];
    let i2 = seq![Some(done_event())];
    assert(items.drop_first() == i1);
    assert(i1.drop_first() == i2);
    assert(run_stream(s2, i2).0 == Some(join(s2.1, seq!['\n'])));
    assert(run_stream(s1, i1).0 == run_stream(s2, i2).0);
    assert(run_stream(s0, items).0 == run_stream(s1, i1).0);
}

/// A stream whose event is cut across two chunks, the second also carrying
/// further events `e`, records the text of the same stream with the event
/// whole, after the empty piece that the first chunk shows.
pub proof fn law_cut_event_is_recorded(j1: Seq<char>, j2: Seq<char>, e: Seq<char>)
    requires
        j1.len() > 0,
        j2.len() > 0,
        (j1 + j2).last() == '}',
        !contains(j1 + j2, crate::santize::data_prefix()),
        !is_terminal(crate::santize::data_prefix() + j1),
        !is_terminal(j2 + e),
    ensures
        crate::santize::no_shorter_object_parses(j1 + j2) ==> run_stream(
            (Seq::<char>::empty(), Seq::<Seq<char>>::empty()),
            seq![
                Some(crate::santize::data_prefix() + j1),
                Some(j2 + e),
                Some(done_event()),
            ],
        ).0 == Some(
            seq!['\n'] + streamed(crate::santize::data_prefix() + (j1 + j2) + e, seq![]).0,
        ),
{
    let empty = Seq::<char>::empty();
    let d = crate::santize::data_prefix();
    let s0 = (empty, Seq::<Seq<char>>::empty());
    crate::santize::law_split_event_as_whole(j1, j2);
    crate::santize::law_cut_event_before_more_events(j1, j2, e);
    lemma_three_chunk_run(s0, d + j1, j2 + e);
    if crate::santize::no_shorter_object_parses(j1 + j2) {
        let x = streamed(d + (j1 + j2) + e, seq![]);
        law_collector_carries_unparsed_text(s0, d + j1);
        let s1 = chunk_step(s0, d + j1).0;
        assert(s1.0 == j1);
        assert(s1.1 == seq![empty]);
        law_collector_carries_unparsed_text(s1, j2 + e);
        let s2 = chunk_step(s1, j2 + e).0;
        assert(s2.1 == seq![empty, x.0]);
        assert(seq![empty, x.0].drop_last() == seq![empty]);
        assert(join(seq![empty, x.0], seq!['\n']) == seq!['\n'] + x.0);
    }
}

/// A line that does not start with `/copy` and is not `/exit` is a query
/// of exactly that line.
pub proof fn law_non_copy_lines_are_queries(cmd: Seq<char>)
    requires
        !starts_with(cmd, copy_word()),
        cmd != exit_word(),
    ensures
        classify(cmd) == CommandView::Query(cmd),
{
    if cmd == copy_word() {
        assert(cmd.take(5) == cmd);
    }
}

/// `/copy N`, with or without a space, for digits spelling a count `N`
/// between 1 and `i32::MAX`, asks for exactly `N` interactions.
pub proof fn law_copy_number_is_read(d: Seq<char>, space: bool)
    requires
        d.len() > 0,
        crate::text::all_digits(d),
        1 <= crate::text::digits_value(d) <= i32::MAX,
    ensures
        classify(copy_word() + (if space { seq![' '] } else { Seq::<char>::empty() }) + d)
            == CommandView::Copy(crate::text::digits_value(d) as i32),
{
    let gap: Seq<char> = if space { seq![' '] } else { Seq::<char>::empty() };
    let cmd = copy_word() + gap + d;
    assert(cmd[1] == 'c');
    assert(cmd != exit_word()) by {
        assert(exit_word()[1] == 'e');
    }
    assert(cmd.take(5) == copy_word());
    let rest = cmd.skip(5);
    assert(rest == gap + d);
    assert(crate::text::is_digit(d[0]));
    assert(crate::text::is_digit(d[d.len() - 1]));
    if space {
        assert(crate::text::is_space(' '));
        assert((gap + d).drop_first() == d);
    }
    assert(trim_start(d) == d);
    assert(trim_start(rest) == d);
    assert(crate::text::trim_end(d) == d);
    assert(crate::text::unsigned_part(d) == d);
}

} // verus!
