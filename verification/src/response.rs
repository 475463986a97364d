//! Responses, the handlers that build them and their form on the wire.

use vstd::prelude::*;
use vstd::string::StringSliceAdditionalSpecFns;
use crate::request::{Header, Request, first_value_from, header_views};
use crate::text::{append, append_decimal, decimal};

verus! {

/// The status of a response.
#[derive(Debug, Clone, Copy, PartialEq, Eq, Structural)]
pub enum Status {
    Success,
    BadRequest,
    NotFound,
}

/// The status code.
pub open spec fn code_of(status: Status) -> nat {
    match status {
        Status::Success => 200,
        Status::BadRequest => 400,
        Status::NotFound => 404,
    }
}

/// The reason phrase.
pub open spec fn reason_of(status: Status) -> Seq<u8> {
    match status {
        Status::Success => "OK".spec_bytes(),
        Status::BadRequest => "Bad Request".spec_bytes(),
        Status::NotFound => "Not Found".spec_bytes(),
    }
}

impl Status {
    /// The status code.
    pub fn code(self) -> (c: u16)
        ensures
            c == code_of(self),
    {
        match self {
            Status::Success => 200,
            Status::BadRequest => 400,
            Status::NotFound => 404,
        }
    }

    /// The reason phrase.
    pub fn reason(self) -> (r: &'static [u8])
        ensures
            r@ == reason_of(self),
    {
        match self {
            Status::Success => "OK".as_bytes(),
            Status::BadRequest => "Bad Request".as_bytes(),
            Status::NotFound => "Not Found".as_bytes(),
        }
    }
}

/// A response: status, headers in the order in which they are written, and
/// the body if there is one. A response without a body differs from one with
/// an empty body: only the second announces its length.
#[derive(Debug, Clone, PartialEq, Eq)]
pub struct Response {
    pub status: Status,
    pub headers: Vec<Header>,
    pub body: Option<Vec<u8>>,
}

/// The mathematical value of a `Response`.
pub struct ResponseView {
    pub status: Status,
    pub headers: Seq<(Seq<u8>, Seq<u8>)>,
    pub body: Option<Seq<u8>>,
}

impl View for Response {
    type V = ResponseView;

    open spec fn view(&self) -> ResponseView {
        ResponseView {
            status: self.status,
            headers: header_views(self.headers@),
            body: content_view(self.body),
        }
    }
}

/// The optional bytes as a mathematical value.
pub open spec fn content_view(content: Option<Vec<u8>>) -> Option<Seq<u8>> {
    match content {
        Some(c) => Some(c@),
        None => None,
    }
}

/// A response that has a body announces the body's length in bytes in a
/// `Content-Length` header.
pub open spec fn well_formed(r: ResponseView) -> bool {
    r.body is Some ==> r.headers.contains(
        ("Content-Length".spec_bytes(), decimal(r.body->0.len())),
    )
}

/// The response that is a status alone.
pub open spec fn bare(status: Status) -> ResponseView {
    ResponseView { status, headers: Seq::empty(), body: None }
}

/// The successful response that carries `body`, of the given content type.
pub open spec fn carrying(content_type: Seq<u8>, body: Seq<u8>) -> ResponseView {
    ResponseView {
        status: Status::Success,
        headers: seq![
            ("Content-Type".spec_bytes(), content_type),
            ("Content-Length".spec_bytes(), decimal(body.len())),
        ],
        body: Some(body),
    }
}

/// What the user-agent handler answers: the value of the first `User-Agent`
/// header as plain text, or 404 without one.
pub open spec fn user_agent_reply(headers: Seq<(Seq<u8>, Seq<u8>)>) -> ResponseView {
    match first_value_from(headers, "User-Agent".spec_bytes(), 0) {
        Some(v) => carrying("text/plain".spec_bytes(), v),
        None => bare(Status::NotFound),
    }
}

/// What the echo handler answers: the rest of the path as plain text.
pub open spec fn echo_reply(rest: Seq<u8>) -> ResponseView {
    carrying("text/plain".spec_bytes(), rest)
}

/// What the file handler answers: the content that was read, or 404 if the
/// read failed.
pub open spec fn file_reply(content: Option<Seq<u8>>) -> ResponseView {
    match content {
        Some(c) => carrying("application/octet-stream".spec_bytes(), c),
        None => bare(Status::NotFound),
    }
}

/// Every response that a handler builds is well formed.
pub proof fn lemma_replies_well_formed(
    status: Status,
    headers: Seq<(Seq<u8>, Seq<u8>)>,
    rest: Seq<u8>,
    content: Option<Seq<u8>>,
)
    ensures
        well_formed(bare(status)),
        well_formed(user_agent_reply(headers)),
        well_formed(echo_reply(rest)),
        well_formed(file_reply(content)),
{
    assert forall|content_type: Seq<u8>, body: Seq<u8>|
        well_formed(#[trigger] carrying(content_type, body)) by {
        let r = carrying(content_type, body);
        assert(r.headers[1] == ("Content-Length".spec_bytes(), decimal(body.len())));
    }
}

/// The status line: version, code, reason and line end.
pub open spec fn status_line(status: Status) -> Seq<u8> {
    "HTTP/1.1 ".spec_bytes() + decimal(code_of(status)) + " ".spec_bytes() + reason_of(status)
        + "\r\n".spec_bytes()
}

/// The header lines, each as name, colon, space, value and line end.
pub open spec fn header_block(headers: Seq<(Seq<u8>, Seq<u8>)>) -> Seq<u8>
    decreases headers.len(),
{
    if headers.len() == 0 {
        Seq::empty()
    } else {
        header_block(headers.drop_last()) + headers.last().0 + ": ".spec_bytes() + headers.last().1
            + "\r\n".spec_bytes()
    }
}

/// The bytes of a response on the wire: status line, header lines, an empty
/// line, and the body if there is one.
pub open spec fn wire(r: ResponseView) -> Seq<u8> {
    status_line(r.status) + header_block(r.headers) + "\r\n".spec_bytes() + match r.body {
        Some(b) => b,
        None => Seq::empty(),
    }
}

impl Response {
    /// A response that is a status alone: no header, no body.
    pub fn bare(status: Status) -> (r: Response)
        ensures
            r@ == bare(status),
            well_formed(r@),
    {
        let r = Response { status, headers: Vec::new(), body: None };
        assert(r@.headers == Seq::<(Seq<u8>, Seq<u8>)>::empty());
        r
    }

    /// A successful response that carries `body`: it names the content type
    /// and the body's length.
    pub fn carrying(content_type: &[u8], body: Vec<u8>) -> (r: Response)
        ensures
            r@ == carrying(content_type@, body@),
            well_formed(r@),
    {
        let mut length: Vec<u8> = Vec::new();
        append_decimal(&mut length, body.len());
        assert(length@ == decimal(body@.len()));
        let mut headers: Vec<Header> = Vec::new();
        headers.push(
            Header {
                name: vstd::slice::slice_to_vec("Content-Type".as_bytes()),
                value: vstd::slice::slice_to_vec(content_type),
            },
        );
        headers.push(
            Header { name: vstd::slice::slice_to_vec("Content-Length".as_bytes()), value: length },
        );
        let r = Response { status: Status::Success, headers, body: Some(body) };
        assert(r@.headers == carrying(content_type@, body@).headers);
        assert(r@.headers[1] == ("Content-Length".spec_bytes(), decimal(body@.len())));
        r
    }

    /// The answer of the root handler: 200 and nothing else.
    pub fn root() -> (r: Response)
        ensures
            r@ == bare(Status::Success),
    {
        Response::bare(Status::Success)
    }

    /// The answer to a path that no route matches: 404 and nothing else.
    pub fn not_found() -> (r: Response)
        ensures
            r@ == bare(Status::NotFound),
    {
        Response::bare(Status::NotFound)
    }

    /// The answer to a malformed request line: 400 and nothing else.
    pub fn bad_request() -> (r: Response)
        ensures
            r@ == bare(Status::BadRequest),
    {
        Response::bare(Status::BadRequest)
    }

    /// The answer of the user-agent handler.
    pub fn user_agent(request: &Request) -> (r: Response)
        ensures
            r@ == user_agent_reply(request@.headers),
            well_formed(r@),
    {
        match request.header_value("User-Agent".as_bytes()) {
            Some(value) => Response::carrying(
                "text/plain".as_bytes(),
                vstd::slice::slice_to_vec(value),
            ),
            None => Response::bare(Status::NotFound),
        }
    }

    /// The answer of the echo handler to the rest of the path, taken as it
    /// stands.
    pub fn echo(rest: &[u8]) -> (r: Response)
        ensures
            r@ == echo_reply(rest@),
            well_formed(r@),
    {
        Response::carrying("text/plain".as_bytes(), vstd::slice::slice_to_vec(rest))
    }

    /// The answer of the file handler to what reading the file gave: the
    /// content, or `None` for any failure.
    pub fn file(content: Option<Vec<u8>>) -> (r: Response)
        ensures
            r@ == file_reply(content_view(content)),
            well_formed(r@),
    {
        match content {
            Some(c) => Response::carrying("application/octet-stream".as_bytes(), c),
            None => Response::bare(Status::NotFound),
        }
    }

    /// The bytes to write to the connection.
    pub fn to_bytes(&self) -> (out: Vec<u8>)
        ensures
            out@ == wire(self@),
    {
        let mut out: Vec<u8> = Vec::new();
        append(&mut out, "HTTP/1.1 ".as_bytes());
        append_decimal(&mut out, self.status.code() as usize);
        append(&mut out, " ".as_bytes());
        append(&mut out, self.status.reason());
        append(&mut out, "\r\n".as_bytes());
        assert(out@ == status_line(self.status));
        let mut i: usize = 0;
        while i < self.headers.len()
            invariant
                0 <= i <= self.headers@.len(),
                out@ == status_line(self.status) + header_block(self@.headers.take(i as int)),
            decreases self.headers@.len() - i,
        {
            let ghost before = out@;
            append(&mut out, self.headers[i].name.as_slice());
            append(&mut out, ": ".as_bytes());
            append(&mut out, self.headers[i].value.as_slice());
            append(&mut out, "\r\n".as_bytes());
            proof {
                let next = self@.headers.take(i + 1);
                assert(next.drop_last() == self@.headers.take(i as int));
                assert(next.last() == self.headers@[i as int]@);
                assert(out@ == status_line(self.status) + header_block(next));
            }
            i += 1;
        }
        assert(self@.headers.take(i as int) == self@.headers);
        append(&mut out, "\r\n".as_bytes());
        match &self.body {
            Some(b) => {
                append(&mut out, b.as_slice());
            },
            None => {
                assert(out@ + Seq::<u8>::empty() == out@);
            },
        }
        out
    }
}

} // verus!
