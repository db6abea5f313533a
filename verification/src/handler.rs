//! The life of one accepted connection as a state machine. The caller owns
//! the byte stream: it performs each `Action` and reports what came of it as
//! the next `Event`. Every decision of the protocol is taken here.
//!
//! The rate limiter is consulted once for each connection, when it is
//! accepted and before anything is read from it; the requests that follow on
//! a kept-alive connection are not checked again.

use crate::fields::FieldMap;
use crate::headers::all_headers;
use crate::headers::collected;
use crate::headers::ends_headers;
use crate::headers::is_end_of_headers;
use crate::headers::parse_header_line;
use crate::headers::wants_keep_alive;
use crate::headers::with_header;
use crate::request::assembled;
use crate::request::method_of;
use crate::request::parse_request_line;
use crate::request::parsed_request_line;
use crate::request::rejection_text;
use crate::request::ParsedRequest;
use crate::request::Rejection;
use crate::request::RequestLine;
use crate::request::RequestLineView;
use vstd::prelude::*;

verus! {

/// What the caller reports after it has tried to read a line.
#[derive(Debug, PartialEq, Eq)]
pub enum Event {
    /// One line as read from the stream, line terminator included. The empty
    /// line stands for the end of the stream.
    Line(String),
    /// Reading from the stream or writing to it failed.
    TransportError,
}

/// An event over character sequences.
pub enum EventView {
    Line(Seq<char>),
    TransportError,
}

impl View for Event {
    type V = EventView;

    open spec fn view(&self) -> EventView {
        match self {
            Event::Line(line) => EventView::Line(line@),
            Event::TransportError => EventView::TransportError,
        }
    }
}

/// What the caller is to do next.
#[derive(Debug, PartialEq, Eq)]
pub enum Action {
    /// Read one line from the stream and report it.
    ReadLine,
    /// Write `response` to the stream. Then, if `keep_open`, read the next
    /// line and report it; otherwise close the stream.
    Respond { response: String, keep_open: bool },
    /// Close the stream without writing anything.
    Close,
}

/// An action over character sequences.
pub enum ActionView {
    ReadLine,
    Respond { response: Seq<char>, keep_open: bool },
    Close,
}

impl View for Action {
    type V = ActionView;

    open spec fn view(&self) -> ActionView {
        match self {
            Action::ReadLine => ActionView::ReadLine,
            Action::Respond { response, keep_open } => ActionView::Respond {
                response: response@,
                keep_open: *keep_open,
            },
            Action::Close => ActionView::Close,
        }
    }
}

/// The states of a connection.
pub enum ConnectionView {
    /// Waiting for the request line of the next request.
    AwaitingRequest,
    /// A request line was accepted; its header lines are being read.
    ReadingHeaders { line: RequestLineView, headers: Map<Seq<char>, Seq<char>> },
    /// Nothing more will be read or written.
    Closed,
}

/// How a connection starts. A client over its quota is answered at once and
/// nothing is read from it; any other connection waits for a request line.
pub open spec fn opening(rate_limited: bool) -> (ConnectionView, ActionView) {
    if rate_limited {
        (
            ConnectionView::Closed,
            ActionView::Respond {
                response: rejection_text(Rejection::RateLimited),
                keep_open: false,
            },
        )
    } else {
        (ConnectionView::AwaitingRequest, ActionView::ReadLine)
    }
}

/// What is sent once the header block of a request has ended, and the state
/// that follows. A request with a served method is answered and, if it asked
/// for it, the connection waits for the next request; everything else closes
/// the connection.
pub open spec fn completion(line: RequestLineView, headers: Map<Seq<char>, Seq<char>>) -> (
    ConnectionView,
    ActionView,
) {
    match assembled(line, headers) {
        Ok(request) => (
            if request.keep_alive() {
                ConnectionView::AwaitingRequest
            } else {
                ConnectionView::Closed
            },
            ActionView::Respond { response: request.response(), keep_open: request.keep_alive() },
        ),
        Err(rejection) => (
            ConnectionView::Closed,
            ActionView::Respond { response: rejection_text(rejection), keep_open: false },
        ),
    }
}

/// The state that follows `state` on `event`, and the action that the caller
/// is asked for.
pub open spec fn transition(state: ConnectionView, event: EventView) -> (
    ConnectionView,
    ActionView,
) {
    match state {
        ConnectionView::Closed => (ConnectionView::Closed, ActionView::Close),
        ConnectionView::AwaitingRequest => match event {
            EventView::TransportError => (ConnectionView::Closed, ActionView::Close),
            EventView::Line(text) => if text.len() == 0 {
                (ConnectionView::Closed, ActionView::Close)
            } else {
                match parsed_request_line(text) {
                    Ok(line) => (
                        ConnectionView::ReadingHeaders { line, headers: Map::empty() },
                        ActionView::ReadLine,
                    ),
                    Err(rejection) => (
                        ConnectionView::Closed,
                        ActionView::Respond {
                            response: rejection_text(rejection),
                            keep_open: false,
                        },
                    ),
                }
            },
        },
        ConnectionView::ReadingHeaders { line, headers } => match event {
            EventView::TransportError => (ConnectionView::Closed, ActionView::Close),
            EventView::Line(text) => if ends_headers(text) {
                completion(line, headers)
            } else {
                (
                    ConnectionView::ReadingHeaders { line, headers: with_header(headers, text) },
                    ActionView::ReadLine,
                )
            },
        },
    }
}

/// Where a connection stands between two events.
#[derive(Clone, Copy, PartialEq, Eq, Structural)]
enum Phase {
    AwaitingRequest,
    ReadingHeaders,
    Closed,
}

/// One accepted connection.
pub struct Connection {
    phase: Phase,
    line: RequestLine,
    headers: FieldMap,
}

impl View for Connection {
    type V = ConnectionView;

    closed spec fn view(&self) -> ConnectionView {
        match self.phase {
            Phase::AwaitingRequest => ConnectionView::AwaitingRequest,
            Phase::ReadingHeaders => ConnectionView::ReadingHeaders {
                line: self.line@,
                headers: self.headers@,
            },
            Phase::Closed => ConnectionView::Closed,
        }
    }
}

/// The request line that a connection holds while it reads no headers:
/// three empty tokens.
fn no_request_line() -> (line: RequestLine)
    ensures
        line@ == (RequestLineView {
            method: Seq::<char>::empty(),
            target: Seq::<char>::empty(),
            version: Seq::<char>::empty(),
        }),
{
    RequestLine { method: String::new(), target: String::new(), version: String::new() }
}

impl Connection {
    /// Starts a connection, given the rate limiter's verdict on its client.
    pub fn open(rate_limited: bool) -> (start: (Connection, Action))
        ensures
            (start.0@, start.1@) == opening(rate_limited),
    {
        if rate_limited {
            let connection = Connection {
                phase: Phase::Closed,
                line: no_request_line(),
                headers: FieldMap::new(),
            };
            let response = Rejection::RateLimited.response();
            (connection, Action::Respond { response, keep_open: false })
        } else {
            let connection = Connection {
                phase: Phase::AwaitingRequest,
                line: no_request_line(),
                headers: FieldMap::new(),
            };
            (connection, Action::ReadLine)
        }
    }

    /// Tells whether the connection is closed.
    pub fn is_closed(&self) -> (closed: bool)
        ensures
            closed == (self@ is Closed),
    {
        match self.phase {
            Phase::Closed => true,
            _ => false,
        }
    }

    /// Takes the next event and says what to do next.
    pub fn step(&mut self, event: Event) -> (action: Action)
        ensures
            (final(self)@, action@) == transition(old(self)@, event@),
    {
        match self.phase {
            Phase::Closed => Action::Close,
            Phase::AwaitingRequest => match event {
                Event::TransportError => {
                    self.phase = Phase::Closed;
                    Action::Close
                },
                Event::Line(text) => {
                    if text.as_str().is_empty() {
                        self.phase = Phase::Closed;
                        return Action::Close;
                    }
                    match parse_request_line(text.as_str()) {
                        Ok(line) => {
                            self.line = line;
                            self.headers = FieldMap::new();
                            self.phase = Phase::ReadingHeaders;
                            Action::ReadLine
                        },
                        Err(rejection) => {
                            self.phase = Phase::Closed;
                            Action::Respond { response: rejection.response(), keep_open: false }
                        },
                    }
                },
            },
            Phase::ReadingHeaders => match event {
                Event::TransportError => {
                    self.phase = Phase::Closed;
                    Action::Close
                },
                Event::Line(text) => {
                    if is_end_of_headers(text.as_str()) {
                        let mut line = no_request_line();
                        let mut headers = FieldMap::new();
                        core::mem::swap(&mut line, &mut self.line);
                        core::mem::swap(&mut headers, &mut self.headers);
                        match ParsedRequest::assemble(line, headers) {
                            Ok(request) => {
                                let keep_open = request.keep_alive();
                                let response = request.response();
                                if keep_open {
                                    self.phase = Phase::AwaitingRequest;
                                } else {
                                    self.phase = Phase::Closed;
                                }
                                Action::Respond { response, keep_open }
                            },
                            Err(rejection) => {
                                self.phase = Phase::Closed;
                                Action::Respond {
                                    response: rejection.response(),
                                    keep_open: false,
                                }
                            },
                        }
                    } else {
                        match parse_header_line(text.as_str()) {
                            Some((name, value)) => {
                                self.headers.insert(name, value);
                            },
                            None => {},
                        }
                        Action::ReadLine
                    }
                },
            },
        }
    }
}

/// The state reached from `state` when `events` are taken in order.
pub open spec fn run(state: ConnectionView, events: Seq<EventView>) -> ConnectionView
    decreases events.len(),
{
    if events.len() == 0 {
        state
    } else {
        transition(run(state, events.drop_last()), events.last()).0
    }
}

/// The number of responses sent while `events` are taken in order from
/// `state`.
pub open spec fn responses(state: ConnectionView, events: Seq<EventView>) -> nat
    decreases events.len(),
{
    if events.len() == 0 {
        0
    } else {
        let sent = responses(state, events.drop_last());
        if transition(run(state, events.drop_last()), events.last()).1 is Respond {
            sent + 1
        } else {
            sent
        }
    }
}

/// The action asked for on the last of `events`, which are taken in order
/// from `state`.
pub open spec fn last_action(state: ConnectionView, events: Seq<EventView>) -> ActionView
    recommends
        events.len() > 0,
{
    transition(run(state, events.drop_last()), events.last()).1
}

/// The events of reading `texts`, one line each.
pub open spec fn lines_read(texts: Seq<Seq<char>>) -> Seq<EventView> {
    Seq::new(texts.len(), |i: int| EventView::Line(texts[i]))
}

/// The events of reading one whole request: its request line, its header
/// lines, and the line that ends the header block.
pub open spec fn exchange(request_line: Seq<char>, header_lines: Seq<Seq<char>>, end: Seq<char>)
    -> Seq<EventView> {
    seq![EventView::Line(request_line)] + lines_read(header_lines) + seq![EventView::Line(end)]
}

/// Taking events one batch after another is taking them all in order: the
/// states agree and the responses add up.
pub proof fn lemma_run_concat(state: ConnectionView, first: Seq<EventView>, second: Seq<EventView>)
    ensures
        run(state, first + second) == run(run(state, first), second),
        responses(state, first + second) == responses(state, first) + responses(
            run(state, first),
            second,
        ),
    decreases second.len(),
{
    if second.len() > 0 {
        assert((first + second).drop_last() =~= first + second.drop_last());
        lemma_run_concat(state, first, second.drop_last());
    }
}

/// A closed connection stays closed whatever is reported to it, and sends
/// nothing.
pub proof fn lemma_closed_is_final(events: Seq<EventView>)
    ensures
        run(ConnectionView::Closed, events) == ConnectionView::Closed,
        responses(ConnectionView::Closed, events) == 0,
    decreases events.len(),
{
    if events.len() > 0 {
        lemma_closed_is_final(events.drop_last());
    }
}

/// While the header lines of a request are read, nothing is sent and the
/// headers read so far are collected.
pub proof fn lemma_headers_are_collected(
    request_line: Seq<char>,
    line: RequestLineView,
    header_lines: Seq<Seq<char>>,
)
    requires
        parsed_request_line(request_line) == Ok::<RequestLineView, Rejection>(line),
        all_headers(header_lines),
    ensures
        run(
            ConnectionView::AwaitingRequest,
            seq![EventView::Line(request_line)] + lines_read(header_lines),
        ) == (ConnectionView::ReadingHeaders {
            line,
            headers: collected(header_lines),
        }),
        responses(
            ConnectionView::AwaitingRequest,
            seq![EventView::Line(request_line)] + lines_read(header_lines),
        ) == 0,
    decreases header_lines.len(),
{
    let first = seq![EventView::Line(request_line)];
    let events = first + lines_read(header_lines);
    if header_lines.len() == 0 {
        assert(responses(ConnectionView::AwaitingRequest, events.drop_last()) == 0);
    } else {
        assert(events.drop_last() =~= first + lines_read(header_lines.drop_last()));
        lemma_headers_are_collected(request_line, line, header_lines.drop_last());
    }
}

/// A whole request with a well-formed request line is answered exactly once,
/// when its header block ends, and what is sent and what follows are decided
/// by the request line and the headers collected.
pub proof fn lemma_exchange(
    request_line: Seq<char>,
    line: RequestLineView,
    header_lines: Seq<Seq<char>>,
    end: Seq<char>,
)
    requires
        parsed_request_line(request_line) == Ok::<RequestLineView, Rejection>(line),
        all_headers(header_lines),
        ends_headers(end),
    ensures
        run(ConnectionView::AwaitingRequest, exchange(request_line, header_lines, end))
            == completion(line, collected(header_lines)).0,
        responses(ConnectionView::AwaitingRequest, exchange(request_line, header_lines, end))
            == 1,
        last_action(ConnectionView::AwaitingRequest, exchange(request_line, header_lines, end))
            == completion(line, collected(header_lines)).1,
{
    let events = exchange(request_line, header_lines, end);
    let before = seq![EventView::Line(request_line)] + lines_read(header_lines);
    assert(events.drop_last() =~= before);
    lemma_headers_are_collected(request_line, line, header_lines);
}

/// A connection whose request does not ask to be kept alive (it has no
/// `Connection` header, or one whose lowercased value is not `keep-alive`)
/// serves exactly that one request and is closed: whatever is reported to it
/// afterwards, nothing more is sent.
pub proof fn lemma_serves_once_then_closes(
    request_line: Seq<char>,
    line: RequestLineView,
    header_lines: Seq<Seq<char>>,
    end: Seq<char>,
    more: Seq<EventView>,
)
    requires
        parsed_request_line(request_line) == Ok::<RequestLineView, Rejection>(line),
        all_headers(header_lines),
        ends_headers(end),
        !wants_keep_alive(collected(header_lines)),
    ensures
        last_action(ConnectionView::AwaitingRequest, exchange(request_line, header_lines, end))
            matches ActionView::Respond { keep_open, .. } && !keep_open,
        run(ConnectionView::AwaitingRequest, exchange(request_line, header_lines, end) + more)
            == ConnectionView::Closed,
        responses(
            ConnectionView::AwaitingRequest,
            exchange(request_line, header_lines, end) + more,
        ) == 1,
{
    lemma_exchange(request_line, line, header_lines, end);
    lemma_run_concat(
        ConnectionView::AwaitingRequest,
        exchange(request_line, header_lines, end),
        more,
    );
    lemma_closed_is_final(more);
}

/// A connection whose request asks to be kept alive and names a served
/// method answers it and waits for the next request.
pub proof fn lemma_keep_alive_awaits_next(
    request_line: Seq<char>,
    line: RequestLineView,
    header_lines: Seq<Seq<char>>,
    end: Seq<char>,
)
    requires
        parsed_request_line(request_line) == Ok::<RequestLineView, Rejection>(line),
        all_headers(header_lines),
        ends_headers(end),
        wants_keep_alive(collected(header_lines)),
        method_of(line.method) is Some,
    ensures
        run(ConnectionView::AwaitingRequest, exchange(request_line, header_lines, end))
            == ConnectionView::AwaitingRequest,
        responses(ConnectionView::AwaitingRequest, exchange(request_line, header_lines, end))
            == 1,
        last_action(ConnectionView::AwaitingRequest, exchange(request_line, header_lines, end))
            matches ActionView::Respond { keep_open, .. } && keep_open,
{
    lemma_exchange(request_line, line, header_lines, end);
}

/// A connection that waits for a request is closed, and nothing is sent,
/// when the client closes the stream or the transport fails.
pub proof fn lemma_stream_end_closes(event: EventView)
    requires
        event == EventView::TransportError || event == EventView::Line(Seq::<char>::empty()),
    ensures
        transition(ConnectionView::AwaitingRequest, event) == (
            ConnectionView::Closed,
            ActionView::Close,
        ),
{
}

/// The lines of one whole request as the client sends them.
pub struct RequestLines {
    pub request_line: Seq<char>,
    pub header_lines: Seq<Seq<char>>,
    pub end: Seq<char>,
}

impl RequestLines {
    /// The events of reading this request.
    pub open spec fn events(self) -> Seq<EventView> {
        exchange(self.request_line, self.header_lines, self.end)
    }

    /// The request is complete and its request line is well formed.
    pub open spec fn well_formed(self) -> bool {
        &&& parsed_request_line(self.request_line) is Ok
        &&& all_headers(self.header_lines)
        &&& ends_headers(self.end)
    }

    /// The request is answered and the connection is kept open after it: it
    /// names a served method and asks to be kept alive.
    pub open spec fn keeps_open(self) -> bool {
        &&& self.well_formed()
        &&& method_of(parsed_request_line(self.request_line)->Ok_0.method) is Some
        &&& wants_keep_alive(collected(self.header_lines))
    }
}

/// The events of reading `requests` one after another.
pub open spec fn session(requests: Seq<RequestLines>) -> Seq<EventView>
    decreases requests.len(),
{
    if requests.len() == 0 {
        Seq::empty()
    } else {
        session(requests.drop_last()) + requests.last().events()
    }
}

/// As long as each request asks to be kept alive and names a served method,
/// every one of them is answered and the connection goes on waiting for the
/// next.
pub proof fn lemma_keep_alive_session(requests: Seq<RequestLines>)
    requires
        forall|i: int| 0 <= i < requests.len() ==> (#[trigger] requests[i]).keeps_open(),
    ensures
        run(ConnectionView::AwaitingRequest, session(requests)) == ConnectionView::AwaitingRequest,
        responses(ConnectionView::AwaitingRequest, session(requests)) == requests.len(),
    decreases requests.len(),
{
    if requests.len() > 0 {
        let earlier = requests.drop_last();
        let last = requests.last();
        lemma_keep_alive_session(earlier);
        lemma_run_concat(ConnectionView::AwaitingRequest, session(earlier), last.events());
        lemma_keep_alive_awaits_next(
            last.request_line,
            parsed_request_line(last.request_line)->Ok_0,
            last.header_lines,
            last.end,
        );
    }
}

/// A kept-alive connection serves requests until one of them does not ask to
/// be kept alive: that one is still answered, and then the connection is
/// closed.
pub proof fn lemma_session_ends_with_last_request(requests: Seq<RequestLines>, last: RequestLines)
    requires
        forall|i: int| 0 <= i < requests.len() ==> (#[trigger] requests[i]).keeps_open(),
        last.well_formed(),
        !wants_keep_alive(collected(last.header_lines)),
    ensures
        run(ConnectionView::AwaitingRequest, session(requests) + last.events())
            == ConnectionView::Closed,
        responses(ConnectionView::AwaitingRequest, session(requests) + last.events())
            == requests.len() + 1,
{
    lemma_keep_alive_session(requests);
    lemma_run_concat(ConnectionView::AwaitingRequest, session(requests), last.events());
    lemma_serves_once_then_closes(
        last.request_line,
        parsed_request_line(last.request_line)->Ok_0,
        last.header_lines,
        last.end,
        Seq::empty(),
    );
    assert(last.events() + Seq::<EventView>::empty() =~= last.events());
}

/// A kept-alive connection serves requests until the client closes the
/// stream: then it is closed and nothing more is sent.
pub proof fn lemma_session_ends_with_stream(requests: Seq<RequestLines>)
    requires
        forall|i: int| 0 <= i < requests.len() ==> (#[trigger] requests[i]).keeps_open(),
    ensures
        run(
            ConnectionView::AwaitingRequest,
            session(requests) + seq![EventView::Line(Seq::<char>::empty())],
        ) == ConnectionView::Closed,
        responses(
            ConnectionView::AwaitingRequest,
            session(requests) + seq![EventView::Line(Seq::<char>::empty())],
        ) == requests.len(),
{
    let end = seq![EventView::Line(Seq::<char>::empty())];
    lemma_keep_alive_session(requests);
    lemma_run_concat(ConnectionView::AwaitingRequest, session(requests), end);
    assert(responses(ConnectionView::AwaitingRequest, end.drop_last()) == 0);
}

} // verus!
