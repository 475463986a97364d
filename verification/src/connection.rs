//! One connection from its first line to its close, as a state machine.
//!
//! The caller owns the socket and the file system. The state says what it
//! has to do next; it does that, and hands back what came of it as an event.
//! Exactly one response is written per connection.

use vstd::prelude::*;
use crate::request::{
    Request, RequestView, collect_headers, ends_headers, header_of, is_headers_end,
    lemma_headers_stop_at_end, parse_header_line, parse_request, parse_request_line,
    request_line_of, request_of_lines,
};
use crate::response::{
    Response, ResponseView, Status, bare, echo_reply, file_reply, lemma_replies_well_formed,
    user_agent_reply, well_formed, wire, content_view,
};
use crate::route::{Route, RouteView, route, route_of};
use crate::text::lines;

verus! {

/// What follows from a complete request: a response, or a file to read
/// first.
#[derive(Debug, Clone, PartialEq, Eq)]
pub enum Dispatch {
    /// The response is ready.
    Reply(Response),
    /// The file named by this path, relative to the base directory, has to be
    /// read; its content decides the response.
    ReadFile(Vec<u8>),
}

/// The mathematical value of a `Dispatch`.
pub enum DispatchView {
    Reply(ResponseView),
    ReadFile(Seq<u8>),
}

impl View for Dispatch {
    type V = DispatchView;

    open spec fn view(&self) -> DispatchView {
        match self {
            Dispatch::Reply(r) => DispatchView::Reply(r@),
            Dispatch::ReadFile(p) => DispatchView::ReadFile(p@),
        }
    }
}

/// What follows from a request: its route decides, and only the path and the
/// headers are looked at.
pub open spec fn dispatch_of(path: Seq<u8>, headers: Seq<(Seq<u8>, Seq<u8>)>) -> DispatchView {
    match route_of(path) {
        RouteView::Root => DispatchView::Reply(bare(Status::Success)),
        RouteView::UserAgent => DispatchView::Reply(user_agent_reply(headers)),
        RouteView::Echo(rest) => DispatchView::Reply(echo_reply(rest)),
        RouteView::File(rest) => DispatchView::ReadFile(rest),
        RouteView::NotFound => DispatchView::Reply(bare(Status::NotFound)),
    }
}

/// The response to a request, where `file` is what reading the requested
/// file gives (`None` for a failure). It is looked at only on the file
/// route.
pub open spec fn response_of(request: RequestView, file: Option<Seq<u8>>) -> ResponseView {
    match dispatch_of(request.path, request.headers) {
        DispatchView::Reply(r) => r,
        DispatchView::ReadFile(_) => file_reply(file),
    }
}

/// The response is well formed, whatever the request and the file.
pub proof fn lemma_response_well_formed(request: RequestView, file: Option<Seq<u8>>)
    ensures
        well_formed(response_of(request, file)),
{
    match route_of(request.path) {
        RouteView::Echo(rest) => lemma_replies_well_formed(
            Status::Success,
            request.headers,
            rest,
            file,
        ),
        _ => lemma_replies_well_formed(Status::Success, request.headers, Seq::empty(), file),
    }
    lemma_replies_well_formed(Status::NotFound, request.headers, Seq::empty(), file);
}

/// Handling a request changes nothing that a later request could see: the
/// bytes of the response are a function of the path, the headers and what
/// reading the file gave. Two requests that agree in these are answered with
/// the same bytes, whatever their methods and versions.
pub proof fn lemma_same_request_same_bytes(a: RequestView, b: RequestView, file: Option<Seq<u8>>)
    requires
        a.path == b.path,
        a.headers == b.headers,
    ensures
        response_of(a, file) == response_of(b, file),
        wire(response_of(a, file)) == wire(response_of(b, file)),
{
}

/// Routes a request and runs its handler, as far as that needs no file.
pub fn dispatch(request: &Request) -> (d: Dispatch)
    ensures
        d@ == dispatch_of(request@.path, request@.headers),
{
    match route(request.path.as_slice()) {
        Route::Root => Dispatch::Reply(Response::root()),
        Route::UserAgent => Dispatch::Reply(Response::user_agent(request)),
        Route::Echo(rest) => Dispatch::Reply(Response::echo(rest.as_slice())),
        Route::File(rest) => Dispatch::ReadFile(rest),
        Route::NotFound => Dispatch::Reply(Response::not_found()),
    }
}

/// The state of a connection. Each state but the last says what its owner
/// has to do next. A connection that has just been accepted awaits its
/// request line. A request whose handler needs no file is dispatched within
/// the step that ends its headers, so only the file route rests in
/// `Dispatching`.
#[derive(Debug, Clone, PartialEq, Eq)]
pub enum Connection {
    /// Read a line: the request line is awaited.
    ParsingRequestLine,
    /// Read a line: a header, or the line that ends them, is awaited. The
    /// request holds the headers that have arrived.
    ParsingHeaders(Request),
    /// Read the file named by this path, relative to the base directory.
    Dispatching(Vec<u8>),
    /// Write this response.
    WritingResponse(Response),
    /// Close the connection; nothing more is read or written.
    Closed,
}

/// The mathematical value of a `Connection`.
pub enum ConnectionView {
    ParsingRequestLine,
    ParsingHeaders(RequestView),
    Dispatching(Seq<u8>),
    WritingResponse(ResponseView),
    Closed,
}

impl View for Connection {
    type V = ConnectionView;

    open spec fn view(&self) -> ConnectionView {
        match self {
            Connection::ParsingRequestLine => ConnectionView::ParsingRequestLine,
            Connection::ParsingHeaders(q) => ConnectionView::ParsingHeaders(q@),
            Connection::Dispatching(p) => ConnectionView::Dispatching(p@),
            Connection::WritingResponse(r) => ConnectionView::WritingResponse(r@),
            Connection::Closed => ConnectionView::Closed,
        }
    }
}

/// What the owner of a connection reports.
#[derive(Debug, Clone, PartialEq, Eq)]
pub enum Event {
    /// A line was read; it is empty if the data has ended.
    Line(Vec<u8>),
    /// The file was read, or could not be (`None`, whatever the cause).
    File(Option<Vec<u8>>),
    /// The response was written.
    Written,
}

/// The mathematical value of an `Event`.
pub enum EventView {
    Line(Seq<u8>),
    File(Option<Seq<u8>>),
    Written,
}

impl View for Event {
    type V = EventView;

    open spec fn view(&self) -> EventView {
        match self {
            Event::Line(l) => EventView::Line(l@),
            Event::File(c) => EventView::File(content_view(*c)),
            Event::Written => EventView::Written,
        }
    }
}

/// The state after a line has arrived while the request line was awaited: a
/// malformed request line is answered with 400 at once.
pub open spec fn after_request_line(line: Seq<u8>) -> ConnectionView {
    match request_line_of(line) {
        Some(q) => ConnectionView::ParsingHeaders(q),
        None => ConnectionView::WritingResponse(bare(Status::BadRequest)),
    }
}

/// The state after a line has arrived while headers were awaited.
pub open spec fn after_header_line(request: RequestView, line: Seq<u8>) -> ConnectionView {
    if ends_headers(line) {
        match dispatch_of(request.path, request.headers) {
            DispatchView::Reply(r) => ConnectionView::WritingResponse(r),
            DispatchView::ReadFile(p) => ConnectionView::Dispatching(p),
        }
    } else {
        match header_of(line) {
            Some(h) => ConnectionView::ParsingHeaders(
                RequestView { headers: request.headers.push(h), ..request },
            ),
            None => ConnectionView::ParsingHeaders(request),
        }
    }
}

/// The response to a request once reading the file, where one was asked
/// for, has given `file`.
pub fn respond(request: &Request, file: Option<Vec<u8>>) -> (r: Response)
    ensures
        r@ == response_of(request@, content_view(file)),
        well_formed(r@),
{
    proof {
        lemma_response_well_formed(request@, content_view(file));
    }
    match dispatch(request) {
        Dispatch::Reply(r) => r,
        Dispatch::ReadFile(_) => Response::file(file),
    }
}

/// The bytes that answer the bytes of a connection: the response to the
/// request that they hold, or the 400 response if they hold none.
pub open spec fn answer_of(input: Seq<u8>, file: Option<Seq<u8>>) -> Seq<u8> {
    match request_of_lines(lines(input)) {
        Ok(q) => wire(response_of(q, file)),
        Err(_) => wire(bare(Status::BadRequest)),
    }
}

/// Handles one request from the bytes that arrived to the bytes to send
/// back, where reading the file, if one is asked for, gives `file`.
pub fn handle_request(input: &[u8], file: Option<Vec<u8>>) -> (out: Vec<u8>)
    ensures
        out@ == answer_of(input@, content_view(file)),
{
    match parse_request(input) {
        Ok(request) => respond(&request, file).to_bytes(),
        Err(_) => Response::bad_request().to_bytes(),
    }
}

/// The transition function. An event that the state does not await closes
/// the connection.
pub open spec fn next_state(state: ConnectionView, event: EventView) -> ConnectionView {
    match (state, event) {
        (ConnectionView::ParsingRequestLine, EventView::Line(l)) => after_request_line(l),
        (ConnectionView::ParsingHeaders(q), EventView::Line(l)) => after_header_line(q, l),
        (ConnectionView::Dispatching(_), EventView::File(c)) => ConnectionView::WritingResponse(
            file_reply(c),
        ),
        (_, _) => ConnectionView::Closed,
    }
}

/// Whatever state a connection is in and whatever is reported to it, a
/// response that it then has to write is well formed.
pub proof fn lemma_step_writes_well_formed(state: ConnectionView, event: EventView)
    ensures
        next_state(state, event) matches ConnectionView::WritingResponse(r) ==> well_formed(r),
{
    match (state, event) {
        (ConnectionView::ParsingHeaders(q), EventView::Line(l)) => {
            lemma_response_well_formed(q, None);
        },
        (ConnectionView::Dispatching(_), EventView::File(c)) => {
            lemma_replies_well_formed(Status::Success, Seq::empty(), Seq::empty(), c);
        },
        (_, _) => {
            lemma_replies_well_formed(Status::BadRequest, Seq::empty(), Seq::empty(), None);
        },
    }
}

/// At most one response is written on a connection: once a response is to be
/// written, every event closes the connection, and a closed connection stays
/// closed.
pub proof fn lemma_one_response_then_closed(state: ConnectionView, event: EventView)
    requires
        state is WritingResponse || state is Closed,
    ensures
        next_state(state, event) is Closed,
{
}

/// The state after the lines `ls` have arrived one after the other.
pub open spec fn after_lines(state: ConnectionView, ls: Seq<Seq<u8>>) -> ConnectionView
    decreases ls.len(),
{
    if ls.len() == 0 {
        state
    } else {
        after_lines(next_state(state, EventView::Line(ls[0])), ls.skip(1))
    }
}

/// While headers are awaited, lines that do not end them add their headers
/// to the request, in order.
pub proof fn lemma_headers_accumulate(request: RequestView, hs: Seq<Seq<u8>>, rest: Seq<Seq<u8>>)
    requires
        forall|i: int| 0 <= i < hs.len() ==> !ends_headers(#[trigger] hs[i]),
    ensures
        after_lines(ConnectionView::ParsingHeaders(request), hs + rest) == after_lines(
            ConnectionView::ParsingHeaders(
                RequestView { headers: request.headers + collect_headers(hs), ..request },
            ),
            rest,
        ),
    decreases hs.len(),
{
    if hs.len() == 0 {
        assert(hs + rest == rest);
        assert(request.headers + collect_headers(hs) == request.headers);
    } else {
        let all = hs + rest;
        assert(all[0] == hs[0]);
        assert(all.skip(1) == hs.skip(1) + rest);
        assert forall|i: int| 0 <= i < hs.skip(1).len() implies !ends_headers(
            #[trigger] hs.skip(1)[i],
        ) by {
            assert(hs.skip(1)[i] == hs[i + 1]);
        }
        let next = match header_of(hs[0]) {
            Some(h) => RequestView { headers: request.headers.push(h), ..request },
            None => request,
        };
        assert(next_state(ConnectionView::ParsingHeaders(request), EventView::Line(hs[0]))
            == ConnectionView::ParsingHeaders(next));
        lemma_headers_accumulate(next, hs.skip(1), rest);
        assert(next.headers + collect_headers(hs.skip(1)) == request.headers + collect_headers(hs));
    }
}

/// The connection and the parser agree. Let a request line, header lines of
/// which none ends the headers, and a line that ends them arrive at a
/// connection that has just been accepted. If the parser accepts these lines,
/// the connection holds the parsed request before the last line, and after
/// it what follows from that request; if not, the request line alone has led
/// to the 400 response.
pub proof fn lemma_connection_follows_parser(first: Seq<u8>, hs: Seq<Seq<u8>>, end: Seq<u8>)
    requires
        forall|i: int| 0 <= i < hs.len() ==> !ends_headers(#[trigger] hs[i]),
        ends_headers(end),
    ensures
        match request_of_lines(seq![first] + hs + seq![end]) {
            Ok(q) => {
                &&& after_lines(ConnectionView::ParsingRequestLine, seq![first] + hs)
                    == ConnectionView::ParsingHeaders(q)
                &&& after_lines(ConnectionView::ParsingRequestLine, seq![first] + hs + seq![end])
                    == match dispatch_of(q.path, q.headers) {
                    DispatchView::Reply(r) => ConnectionView::WritingResponse(r),
                    DispatchView::ReadFile(p) => ConnectionView::Dispatching(p),
                }
            },
            Err(_) => after_lines(ConnectionView::ParsingRequestLine, seq![first])
                == ConnectionView::WritingResponse(bare(Status::BadRequest)),
        },
{
    let start = ConnectionView::ParsingRequestLine;
    let all = seq![first] + hs + seq![end];
    assert(all[0] == first);
    assert(all.skip(1) == hs + seq![end]);
    assert(hs + seq![end] + Seq::<Seq<u8>>::empty() == hs + seq![end]);
    lemma_headers_stop_at_end(hs, end, Seq::empty());
    match request_line_of(first) {
        Some(q0) => {
            let q = RequestView { headers: collect_headers(hs), ..q0 };
            assert(q0.headers + collect_headers(hs) == collect_headers(hs));
            let short = seq![first] + hs;
            assert(short[0] == first);
            assert(short.skip(1) == hs);
            assert(hs + Seq::<Seq<u8>>::empty() == hs);
            lemma_headers_accumulate(q0, hs, Seq::empty());
            assert(after_lines(ConnectionView::ParsingHeaders(q), Seq::empty())
                == ConnectionView::ParsingHeaders(q));
            lemma_headers_accumulate(q0, hs, seq![end]);
            let last = seq![end];
            assert(last.skip(1).len() == 0);
            assert(after_lines(ConnectionView::ParsingHeaders(q), last) == after_lines(
                next_state(ConnectionView::ParsingHeaders(q), EventView::Line(end)),
                last.skip(1),
            ));
        },
        None => {
            let one = seq![first];
            assert(one.skip(1).len() == 0);
            assert(after_lines(start, one) == after_lines(
                next_state(start, EventView::Line(first)),
                one.skip(1),
            ));
        },
    }
}

impl Connection {
    /// The state of a connection that has just been accepted.
    pub fn accepted() -> (c: Connection)
        ensures
            c@ == ConnectionView::ParsingRequestLine,
    {
        Connection::ParsingRequestLine
    }

    /// The state that follows on an event.
    pub fn step(self, event: Event) -> (next: Connection)
        ensures
            next@ == next_state(self@, event@),
    {
        match (self, event) {
            (Connection::ParsingRequestLine, Event::Line(line)) => {
                match parse_request_line(line.as_slice()) {
                    Ok(q) => Connection::ParsingHeaders(q),
                    Err(_) => Connection::WritingResponse(Response::bad_request()),
                }
            },
            (Connection::ParsingHeaders(request), Event::Line(line)) => {
                if is_headers_end(line.as_slice()) {
                    match dispatch(&request) {
                        Dispatch::Reply(r) => Connection::WritingResponse(r),
                        Dispatch::ReadFile(p) => Connection::Dispatching(p),
                    }
                } else {
                    match parse_header_line(line.as_slice()) {
                        Some(h) => {
                            let mut request = request;
                            let ghost before = request@;
                            request.headers.push(h);
                            assert(request@.headers == before.headers.push(h@));
                            Connection::ParsingHeaders(request)
                        },
                        None => Connection::ParsingHeaders(request),
                    }
                }
            },
            (Connection::Dispatching(_), Event::File(content)) => Connection::WritingResponse(
                Response::file(content),
            ),
            (_, _) => Connection::Closed,
        }
    }
}

} // verus!
