//! The log stream that a controller reads over a WebSocket.
use vstd::prelude::*;
use vstd::string::*;
use vstd::utf8::*;
use crate::config::opt_text;
use crate::error::{ServerError, ServerErrorView};
use crate::http::{
    Request, RequestView, header, header_view, only_query_param_is_found, query_param, query_view,
    response_bytes,
};
use crate::runtime::{
    LOG_BUFFER_LIMIT, LOG_COUNT_LIMIT, LogView, added_lines_are_the_last, pushed_all,
};
use crate::session::{
    State, StateView, hex_digit, match_session, mismatch_view, parse_session_id, session_of_text,
    session_text_view,
};
use crate::text::{join, joined, texts};
use crate::websocket::{
    close_frame, close_frame_view, text_frame, text_frame_view, upgrade_response, upgrade_view,
};

verus! {

/// How a request for the log stream is answered.
#[derive(Debug)]
pub enum LogsAnswer {
    /// Send the bytes and end the connection.
    Refuse(Vec<u8>),
    /// End the connection with an error.
    Fail(ServerError),
    /// Send the bytes and stream the log. The text is the interval that was asked
    /// for, in seconds.
    Accept(Vec<u8>, LogStream, Option<String>),
}

/// How a request for the log stream is answered.
#[verifier::ext_equal]
pub enum LogsAnswerView {
    Refuse(Seq<u8>),
    Fail(ServerErrorView),
    Accept(Seq<u8>, LogStreamView, Option<Seq<char>>),
}

/// A log stream: the session it belongs to, and how many lines were sent.
#[derive(Debug)]
pub struct LogStream {
    pub session_id: u128,
    pub sent: u64,
}

/// What a log stream is at.
#[verifier::ext_equal]
pub struct LogStreamView {
    pub session_id: u128,
    pub sent: nat,
}

impl View for LogStream {
    type V = LogStreamView;

    open spec fn view(&self) -> LogStreamView {
        LogStreamView { session_id: self.session_id, sent: self.sent as nat }
    }
}

impl View for LogsAnswer {
    type V = LogsAnswerView;

    open spec fn view(&self) -> LogsAnswerView {
        match self {
            LogsAnswer::Refuse(bytes) => LogsAnswerView::Refuse(bytes@),
            LogsAnswer::Fail(error) => LogsAnswerView::Fail(error@),
            LogsAnswer::Accept(bytes, stream, interval) => LogsAnswerView::Accept(
                bytes@,
                stream@,
                opt_text(*interval),
            ),
        }
    }
}

/// The session id that a request for the log stream names, as it is read.
pub open spec fn asked_session(path: Seq<char>) -> Option<u128> {
    match query_view(path, "session_id"@) {
        Some(text) => session_of_text(text),
        None => None,
    }
}

/// How a request for the log stream is answered, by the session id that was read.
pub open spec fn logs_answer_view(
    request: RequestView,
    session: Option<u128>,
    state: StateView,
) -> LogsAnswerView {
    match session {
        None => LogsAnswerView::Refuse(
            close_frame_view(4400, "session_id should be a valid UUID."@),
        ),
        Some(id) => if !state.has_session(id) {
            LogsAnswerView::Refuse(response_bytes(mismatch_view()))
        } else {
            match header_view(request.headers, "sec-websocket-key"@) {
                None => LogsAnswerView::Fail(ServerErrorView::Tls("Missing Sec-WebSocket-Key"@)),
                Some(key) => LogsAnswerView::Accept(
                    encode_utf8(upgrade_view(key)),
                    LogStreamView { session_id: id, sent: 0 },
                    query_view(request.path, "interval"@),
                ),
            }
        },
    }
}

/// Answers a request for the log stream, by the session id that was read.
pub fn answer_logs(request: &Request, session: Option<u128>, state: &State) -> (answer: LogsAnswer)
    ensures
        answer@ == logs_answer_view(request@, session, state@),
{
    let id: u128 = match session {
        Some(id) => id,
        None => {
            return LogsAnswer::Refuse(close_frame(4400, "session_id should be a valid UUID."));
        },
    };
    match match_session(state, id) {
        Err(response) => LogsAnswer::Refuse(response.as_bytes()),
        Ok(()) => match header(request, "sec-websocket-key") {
            None => LogsAnswer::Fail(ServerError::Tls("Missing Sec-WebSocket-Key".to_owned())),
            Some(key) => LogsAnswer::Accept(
                upgrade_response(key.as_str()),
                LogStream { session_id: id, sent: 0 },
                query_param(request.path.as_str(), "interval"),
            ),
        },
    }
}

/// The session id that a request for the log stream names.
pub fn logs_session(request: &Request) -> (session: Option<u128>)
    ensures
        session == asked_session(request@.path),
{
    match query_param(request.path.as_str(), "session_id") {
        Some(text) => parse_session_id(text.as_str()),
        None => None,
    }
}

/// Refuses a request for the log stream that names no session, without looking
/// at the state of the node.
pub fn refuse_logs(request: &Request, session: Option<u128>) -> (answer: Option<LogsAnswer>)
    ensures
        match answer {
            Some(refusal) => session is None && forall|state: StateView|
                refusal@ == #[trigger] logs_answer_view(request@, session, state),
            None => session is Some,
        },
{
    match session {
        Some(_) => None,
        None => Some(
            LogsAnswer::Refuse(close_frame(4400, "session_id should be a valid UUID.")),
        ),
    }
}

/// Answers a request for the log stream.
pub fn open_logs(request: &Request, state: &State) -> (answer: LogsAnswer)
    ensures
        answer@ == logs_answer_view(request@, asked_session(request@.path), state@),
{
    answer_logs(request, logs_session(request), state)
}

/// What to do next for a log stream.
#[derive(Debug)]
pub enum StreamStep {
    /// Send the frame and end the connection.
    Close(Vec<u8>),
    /// Send the frame, then sleep.
    Send(Vec<u8>),
    /// Sleep.
    Wait,
}

/// What to do next for a log stream.
#[verifier::ext_equal]
pub enum StreamStepView {
    Close(Seq<u8>),
    Send(Seq<u8>),
    Wait,
}

impl View for StreamStep {
    type V = StreamStepView;

    open spec fn view(&self) -> StreamStepView {
        match self {
            StreamStep::Close(frame) => StreamStepView::Close(frame@),
            StreamStep::Send(frame) => StreamStepView::Send(frame@),
            StreamStep::Wait => StreamStepView::Wait,
        }
    }
}

/// The payload with which lines are sent.
pub open spec fn lines_payload(lines: Seq<Seq<char>>) -> Seq<u8> {
    encode_utf8(joined(lines, "\n"@))
}

impl LogStreamView {
    /// The lines of a log that were not sent and that the log still holds.
    pub open spec fn unsent(self, log: LogView) -> Seq<Seq<char>> {
        if log.total() <= self.sent {
            Seq::empty()
        } else if self.sent <= log.dropped {
            log.lines
        } else {
            log.lines.skip(self.sent - log.dropped)
        }
    }

    /// The stream after the lines of a log were sent.
    pub open spec fn caught_up(self, log: LogView) -> LogStreamView {
        LogStreamView {
            sent: if log.total() > self.sent {
                log.total()
            } else {
                self.sent
            },
            ..self
        }
    }

    /// The next turn of a log stream. The stream ends with its session. What was
    /// logged since the last turn, as far as the log still holds it, is sent in
    /// one frame.
    pub open spec fn turn(self, state: StateView) -> (LogStreamView, StreamStepView) {
        let log = state.core.logs;
        if !state.has_session(self.session_id) {
            (self, StreamStepView::Close(close_frame_view(1000, "Session ended."@)))
        } else if log.total() > self.sent {
            (
                self.caught_up(log),
                StreamStepView::Send(text_frame_view(lines_payload(self.unsent(log)))),
            )
        } else {
            (self, StreamStepView::Wait)
        }
    }
}

/// The lines of a list from a position on.
fn lines_from(list: &Vec<String>, from: usize) -> (tail: Vec<String>)
    requires
        from <= list@.len(),
    ensures
        texts(tail@) == texts(list@).skip(from as int),
{
    let mut tail: Vec<String> = Vec::new();
    let mut i: usize = from;
    while i < list.len()
        invariant
            from <= i <= list@.len(),
            tail@ == list@.subrange(from as int, i as int),
        decreases list@.len() - i,
    {
        tail.push(list[i].clone());
        assert(list@.subrange(from as int, i + 1) =~= list@.subrange(from as int, i as int).push(
            list@[i as int],
        ));
        i = i + 1;
    }
    assert(texts(tail@) =~= texts(list@).skip(from as int));
    tail
}

impl LogStream {
    /// Takes the next turn of the log stream.
    pub fn turn(&mut self, state: &State) -> (step: StreamStep)
        ensures
            (final(self)@, step@) == old(self)@.turn(state@),
    {
        if match_session(state, self.session_id).is_err() {
            return StreamStep::Close(close_frame(1000, "Session ended."));
        }
        let log = state.core.logs_snapshot();
        let dropped: u64 = state.core.logs_dropped();
        let n: usize = log.len();
        assert(texts(log@).len() == n);
        let total: u64 = dropped + n as u64;
        if total > self.sent {
            let from: usize = if self.sent <= dropped {
                0
            } else {
                (self.sent - dropped) as usize
            };
            let tail = lines_from(&log, from);
            assert(texts(log@).skip(0) =~= texts(log@));
            assert(texts(tail@) == self@.unsent(state@.core.logs));
            self.sent = total;
            StreamStep::Send(text_frame(join(tail.as_slice(), "\n").as_str()))
        } else {
            StreamStep::Wait
        }
    }
}

/// A log stream never outlives its session.
pub proof fn stream_ends_with_session(stream: LogStreamView, state: StateView)
    requires
        !state.has_session(stream.session_id),
    ensures
        stream.turn(state) == (
            stream,
            StreamStepView::Close(close_frame_view(1000, "Session ended."@)),
        ),
{
}

/// A stream that has just begun sends all that the log holds.
pub proof fn new_stream_sends_the_log(state: StateView, id: u128)
    requires
        state.has_session(id),
        state.core.logs.lines.len() > 0,
    ensures
        (LogStreamView { session_id: id, sent: 0 }).turn(state).1 == StreamStepView::Send(
            text_frame_view(lines_payload(state.core.logs.lines)),
        ),
{
}

proof fn lemma_unsent_is_added(stream: LogStreamView, log: LogView, added: Seq<Seq<char>>)
    requires
        log.lines.len() <= LOG_BUFFER_LIMIT,
        stream.sent == log.total(),
        added.len() <= LOG_BUFFER_LIMIT,
        log.dropped + added.len() <= LOG_COUNT_LIMIT,
    ensures
        stream.unsent(pushed_all(log, added)) == added,
        stream.caught_up(pushed_all(log, added)).sent == pushed_all(log, added).total(),
        pushed_all(log, added).total() == log.total() + added.len(),
{
    added_lines_are_the_last(log, added);
    let after = pushed_all(log, added);
    if added.len() == 0 {
        assert(added =~= Seq::empty());
    } else if stream.sent <= after.dropped {
        assert(after.lines.len() == added.len());
        assert(after.lines.skip(0) =~= after.lines);
    }
}

/// A stream that has sent all of a log sends just the lines that were added since,
/// each once and in order, however many lines were logged before. This holds
/// where no more lines were added than a log keeps.
pub proof fn stream_sends_new_lines_once(
    stream: LogStreamView,
    state: StateView,
    log: LogView,
    added: Seq<Seq<char>>,
)
    requires
        state.has_session(stream.session_id),
        log.lines.len() <= LOG_BUFFER_LIMIT,
        stream.sent == log.total(),
        added.len() <= LOG_BUFFER_LIMIT,
        log.dropped + added.len() <= LOG_COUNT_LIMIT,
        state.core.logs == pushed_all(log, added),
    ensures
        ({
            let (after, step) = stream.turn(state);
            &&& after.sent == state.core.logs.total()
            &&& if added.len() > 0 {
                step == StreamStepView::Send(text_frame_view(lines_payload(added)))
            } else {
                step == StreamStepView::Wait
            }
        }),
{
    lemma_unsent_is_added(stream, log, added);
}

/// The lines that a stream sends in a number of turns, before each of which some
/// lines are logged.
pub open spec fn streamed(
    stream: LogStreamView,
    log: LogView,
    batches: Seq<Seq<Seq<char>>>,
) -> Seq<Seq<char>>
    decreases batches.len(),
{
    if batches.len() == 0 {
        Seq::empty()
    } else {
        let after = pushed_all(log, batches[0]);
        stream.unsent(after) + streamed(stream.caught_up(after), after, batches.drop_first())
    }
}

/// The lines of a number of batches, one batch after the other.
pub open spec fn logged(batches: Seq<Seq<Seq<char>>>) -> Seq<Seq<char>>
    decreases batches.len(),
{
    if batches.len() == 0 {
        Seq::empty()
    } else {
        batches[0] + logged(batches.drop_first())
    }
}

/// Every line that is logged while a stream runs is sent, once and in order, also
/// after the log has filled up, as long as between two turns no more lines are
/// logged than the log keeps.
pub proof fn stream_sends_every_line(
    stream: LogStreamView,
    log: LogView,
    batches: Seq<Seq<Seq<char>>>,
)
    requires
        log.lines.len() <= LOG_BUFFER_LIMIT,
        stream.sent == log.total(),
        forall|i: int| 0 <= i < batches.len() ==> (#[trigger] batches[i]).len() <= LOG_BUFFER_LIMIT,
        log.dropped + logged(batches).len() <= LOG_COUNT_LIMIT,
    ensures
        streamed(stream, log, batches) == logged(batches),
    decreases batches.len(),
{
    if batches.len() > 0 {
        let first = batches[0];
        let after = pushed_all(log, first);
        let rest = batches.drop_first();
        lemma_unsent_is_added(stream, log, first);
        added_lines_are_the_last(log, first);
        assert forall|i: int| 0 <= i < rest.len() implies (#[trigger] rest[i]).len()
            <= LOG_BUFFER_LIMIT by {
            assert(rest[i] == batches[i + 1]);
        }
        stream_sends_every_line(stream.caught_up(after), after, rest);
    }
}

proof fn lemma_session_text_is_plain(id: u128)
    ensures
        !session_text_view(id).contains('&'),
{
    let text = session_text_view(id);
    assert forall|i: int| 0 <= i < text.len() implies #[trigger] text[i] != '&' by {
        let place = if i < 8 {
            31 - i
        } else if i < 13 {
            32 - i
        } else if i < 18 {
            33 - i
        } else if i < 23 {
            34 - i
        } else {
            35 - i
        };
        assert(0 <= hex_digit(id, place as nat) < 16) by {
            let q = id as int / vstd::arithmetic::power::pow(16, place as nat);
            assert(0 <= q % 16 < 16);
        }
    }
}

/// A controller that asks for the log with the session id that it was told is
/// asking for the log of that session.
pub proof fn told_session_is_asked_for(id: u128)
    requires
        session_of_text(session_text_view(id)) == Some(id),
    ensures
        asked_session("/logs?session_id="@ + session_text_view(id)) == Some(id),
{
    reveal_strlit("/logs?session_id=");
    reveal_strlit("/logs");
    reveal_strlit("session_id");
    let text = session_text_view(id);
    lemma_session_text_is_plain(id);
    only_query_param_is_found("/logs"@, "session_id"@, text);
    assert("/logs?session_id="@ + text =~= "/logs"@ + seq!['?'] + ("session_id"@ + seq!['=']
        + text));
}

} // verus!
