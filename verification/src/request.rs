//! The request parser: from the lines of a connection to a `Request`.
//!
//! A line is what one read up to and including a line feed returns; at the end
//! of the data it may lack the line feed, and a read after the end returns the
//! empty line.

use vstd::prelude::*;
use crate::text::{
    bytes_eq, find_separator, lines, lines_from, next_line, separator_from, split_words,
    strip_line_end, views, without_line_end, words,
};

verus! {

/// One header: a name and a value, as they arrived.
#[derive(Debug, Clone, PartialEq, Eq)]
pub struct Header {
    pub name: Vec<u8>,
    pub value: Vec<u8>,
}

impl View for Header {
    type V = (Seq<u8>, Seq<u8>);

    open spec fn view(&self) -> (Seq<u8>, Seq<u8>) {
        (self.name@, self.value@)
    }
}

/// The views of a sequence of headers, in order.
pub open spec fn header_views(v: Seq<Header>) -> Seq<(Seq<u8>, Seq<u8>)> {
    Seq::new(v.len(), |j: int| v[j]@)
}

/// A parsed request. The path is kept raw; headers keep their order of
/// arrival and may repeat. A body is never read, so `body` is always `None`.
#[derive(Debug, Clone, PartialEq, Eq)]
pub struct Request {
    pub method: Vec<u8>,
    pub path: Vec<u8>,
    pub http_version: Vec<u8>,
    pub headers: Vec<Header>,
    pub body: Option<Vec<u8>>,
}

/// The mathematical value of a `Request`.
pub struct RequestView {
    pub method: Seq<u8>,
    pub path: Seq<u8>,
    pub http_version: Seq<u8>,
    pub headers: Seq<(Seq<u8>, Seq<u8>)>,
    pub body: Option<Seq<u8>>,
}

impl View for Request {
    type V = RequestView;

    open spec fn view(&self) -> RequestView {
        RequestView {
            method: self.method@,
            path: self.path@,
            http_version: self.http_version@,
            headers: header_views(self.headers@),
            body: match self.body {
                Some(b) => Some(b@),
                None => None,
            },
        }
    }
}

/// The value of the first header at or after position `i` whose name is
/// exactly `name`.
pub open spec fn first_value_from(
    headers: Seq<(Seq<u8>, Seq<u8>)>,
    name: Seq<u8>,
    i: int,
) -> Option<Seq<u8>>
    decreases headers.len() - i,
{
    if i < 0 || i >= headers.len() {
        None
    } else if headers[i].0 == name {
        Some(headers[i].1)
    } else {
        first_value_from(headers, name, i + 1)
    }
}

/// The optional bytes as a mathematical value.
pub open spec fn value_view(v: Option<&[u8]>) -> Option<Seq<u8>> {
    match v {
        Some(x) => Some(x@),
        None => None,
    }
}

impl Request {
    /// Looks a header up by its exact name, letter case included: the value
    /// of the first header of that name, in order of arrival.
    pub fn header_value(&self, name: &[u8]) -> (r: Option<&[u8]>)
        ensures
            value_view(r) == first_value_from(self@.headers, name@, 0),
    {
        let mut i: usize = 0;
        while i < self.headers.len()
            invariant
                0 <= i <= self.headers@.len(),
                first_value_from(self@.headers, name@, i as int) == first_value_from(
                    self@.headers,
                    name@,
                    0,
                ),
            decreases self.headers@.len() - i,
        {
            if bytes_eq(self.headers[i].name.as_slice(), name) {
                return Some(self.headers[i].value.as_slice());
            }
            i += 1;
        }
        None
    }
}

/// Why a request could not be parsed.
#[derive(Debug, Clone, Copy, PartialEq, Eq)]
pub enum ParseError {
    /// The request line does not consist of exactly three words.
    MalformedRequestLine,
}

/// The request that a request line opens: method, path and version are its
/// three words, and no header has arrived yet. `None` unless the line has
/// exactly three words.
pub open spec fn request_line_of(line: Seq<u8>) -> Option<RequestView> {
    let w = words(line);
    if w.len() == 3 {
        Some(
            RequestView {
                method: w[0],
                path: w[1],
                http_version: w[2],
                headers: Seq::empty(),
                body: None,
            },
        )
    } else {
        None
    }
}

/// The header that a line holds: the name is what stands before the first
/// colon-and-space, the value what stands after it up to the line end. White
/// space round the value stays. `None` if the line has no such separator.
pub open spec fn header_of(line: Seq<u8>) -> Option<(Seq<u8>, Seq<u8>)> {
    let i = separator_from(line, 0);
    if i < line.len() {
        Some((line.take(i), without_line_end(line.skip(i + 2))))
    } else {
        None
    }
}

/// Whether a line ends the headers: the empty line of a stream that has
/// ended, or a carriage return and a line feed alone.
pub open spec fn ends_headers(line: Seq<u8>) -> bool {
    line.len() == 0 || line == seq![0x0Du8, 0x0Au8]
}

/// The headers that a run of lines holds: every line before the first that
/// ends the headers gives its header, in order; a line without a separator
/// gives none.
pub open spec fn collect_headers(ls: Seq<Seq<u8>>) -> Seq<(Seq<u8>, Seq<u8>)>
    decreases ls.len(),
{
    if ls.len() == 0 || ends_headers(ls[0]) {
        Seq::empty()
    } else {
        match header_of(ls[0]) {
            Some(h) => seq![h] + collect_headers(ls.skip(1)),
            None => collect_headers(ls.skip(1)),
        }
    }
}

/// The request that a run of lines holds. The first line is the request
/// line, the lines after it hold the headers; a stream without any line has
/// no request line.
pub open spec fn request_of_lines(ls: Seq<Seq<u8>>) -> Result<RequestView, ParseError> {
    if ls.len() == 0 {
        Err(ParseError::MalformedRequestLine)
    } else {
        match request_line_of(ls[0]) {
            None => Err(ParseError::MalformedRequestLine),
            Some(r) => Ok(RequestView { headers: collect_headers(ls.skip(1)), ..r }),
        }
    }
}

/// A line that holds no header and does not end the headers leaves no trace:
/// the headers before it and after it are collected as if it had not been
/// sent.
pub proof fn lemma_line_without_header_is_skipped(
    before: Seq<Seq<u8>>,
    line: Seq<u8>,
    after: Seq<Seq<u8>>,
)
    requires
        header_of(line) is None,
        !ends_headers(line),
    ensures
        collect_headers(before + seq![line] + after) == collect_headers(before + after),
    decreases before.len(),
{
    let with = before + seq![line] + after;
    let without = before + after;
    if before.len() == 0 {
        assert(with[0] == line);
        assert(with.skip(1) == after);
        assert(without == after);
    } else {
        assert(with[0] == before[0] && without[0] == before[0]);
        assert(with.skip(1) == before.skip(1) + seq![line] + after);
        assert(without.skip(1) == before.skip(1) + after);
        lemma_line_without_header_is_skipped(before.skip(1), line, after);
    }
}

/// The headers end at the first line that ends them: what is sent after it
/// is not looked at.
pub proof fn lemma_headers_stop_at_end(
    before: Seq<Seq<u8>>,
    end: Seq<u8>,
    after: Seq<Seq<u8>>,
)
    requires
        forall|i: int| 0 <= i < before.len() ==> !ends_headers(#[trigger] before[i]),
        ends_headers(end),
    ensures
        collect_headers(before + seq![end] + after) == collect_headers(before),
    decreases before.len(),
{
    let all = before + seq![end] + after;
    if before.len() == 0 {
        assert(all[0] == end);
    } else {
        assert(all[0] == before[0]);
        assert(all.skip(1) == before.skip(1) + seq![end] + after);
        assert forall|i: int| 0 <= i < before.skip(1).len() implies !ends_headers(
            #[trigger] before.skip(1)[i],
        ) by {
            assert(before.skip(1)[i] == before[i + 1]);
        }
        lemma_headers_stop_at_end(before.skip(1), end, after);
    }
}

/// The same of a whole request: a header line without the separator changes
/// nothing of the request that is parsed.
pub proof fn lemma_request_ignores_line_without_header(
    request_line: Seq<u8>,
    before: Seq<Seq<u8>>,
    line: Seq<u8>,
    after: Seq<Seq<u8>>,
)
    requires
        header_of(line) is None,
        !ends_headers(line),
    ensures
        request_of_lines(seq![request_line] + before + seq![line] + after) == request_of_lines(
            seq![request_line] + before + after,
        ),
{
    let with = seq![request_line] + before + seq![line] + after;
    let without = seq![request_line] + before + after;
    assert(with.skip(1) == before + seq![line] + after);
    assert(without.skip(1) == before + after);
    lemma_line_without_header_is_skipped(before, line, after);
}

/// The result of parsing as a mathematical value.
pub open spec fn parsed_view(r: Result<Request, ParseError>) -> Result<RequestView, ParseError> {
    match r {
        Ok(q) => Ok(q@),
        Err(e) => Err(e),
    }
}

/// The optional header as a mathematical value.
pub open spec fn header_option_view(h: Option<Header>) -> Option<(Seq<u8>, Seq<u8>)> {
    match h {
        Some(x) => Some(x@),
        None => None,
    }
}

/// Parses the request line: exactly three words, taken as method, path and
/// version without looking at what they say.
pub fn parse_request_line(line: &[u8]) -> (r: Result<Request, ParseError>)
    ensures
        parsed_view(r) == match request_line_of(line@) {
            Some(q) => Ok::<RequestView, ParseError>(q),
            None => Err(ParseError::MalformedRequestLine),
        },
{
    let mut w: Vec<Vec<u8>> = split_words(line);
    if w.len() != 3 {
        return Err(ParseError::MalformedRequestLine);
    }
    assert(views(w@)[0] == w@[0]@ && views(w@)[1] == w@[1]@ && views(w@)[2] == w@[2]@);
    let http_version: Vec<u8> = w.pop().unwrap();
    let path: Vec<u8> = w.pop().unwrap();
    let method: Vec<u8> = w.pop().unwrap();
    let q = Request { method, path, http_version, headers: Vec::new(), body: None };
    assert(q@.headers == Seq::<(Seq<u8>, Seq<u8>)>::empty());
    Ok(q)
}

/// Parses one header line. A line without the separator holds no header.
pub fn parse_header_line(line: &[u8]) -> (r: Option<Header>)
    ensures
        header_option_view(r) == header_of(line@),
{
    match find_separator(line) {
        None => None,
        Some(i) => {
            let n: usize = line.len();
            let name: Vec<u8> = vstd::slice::slice_to_vec(vstd::slice::slice_subrange(line, 0, i));
            let rest: &[u8] = vstd::slice::slice_subrange(line, i + 2, n);
            let value: Vec<u8> = vstd::slice::slice_to_vec(strip_line_end(rest));
            Some(Header { name, value })
        },
    }
}

/// Whether a line ends the headers.
pub fn is_headers_end(line: &[u8]) -> (r: bool)
    ensures
        r == ends_headers(line@),
{
    if line.len() == 0 {
        true
    } else if line.len() == 2 {
        let r = line[0] == 0x0D && line[1] == 0x0A;
        assert(r ==> line@ == seq![0x0Du8, 0x0Au8]);
        r
    } else {
        false
    }
}

/// Parses a request from the bytes of a connection: the request line, then
/// headers up to the line that ends them or to the end of the data. What
/// follows the headers is not looked at.
pub fn parse_request(input: &[u8]) -> (r: Result<Request, ParseError>)
    ensures
        parsed_view(r) == request_of_lines(lines(input@)),
{
    let n: usize = input.len();
    if n == 0 {
        return Err(ParseError::MalformedRequestLine);
    }
    let first_end: usize = next_line(input, 0);
    let mut request: Request = match parse_request_line(
        vstd::slice::slice_subrange(input, 0, first_end),
    ) {
        Ok(q) => q,
        Err(e) => {
            return Err(e);
        },
    };
    assert(lines(input@).skip(1) == lines_from(input@, first_end as int));
    let ghost all = collect_headers(lines_from(input@, first_end as int));
    let mut headers: Vec<Header> = Vec::new();
    let mut i: usize = first_end;
    let mut open: bool = true;
    assert(header_views(headers@) + all == all);
    while open && i < n
        invariant
            n == input@.len(),
            first_end <= i <= n,
            open ==> header_views(headers@) + collect_headers(lines_from(input@, i as int)) == all,
            !open ==> header_views(headers@) == all,
        decreases n - i + if open { 1int } else { 0int },
    {
        let end: usize = next_line(input, i);
        let line: &[u8] = vstd::slice::slice_subrange(input, i, end);
        proof {
            let ls = lines_from(input@, i as int);
            assert(ls[0] == line@);
            assert(ls.skip(1) == lines_from(input@, end as int));
        }
        if is_headers_end(line) {
            open = false;
            assert(header_views(headers@) + Seq::<(Seq<u8>, Seq<u8>)>::empty() == header_views(
                headers@,
            ));
        } else {
            match parse_header_line(line) {
                Some(h) => {
                    let ghost before = headers@;
                    headers.push(h);
                    assert(header_views(headers@) == header_views(before) + seq![h@]);
                    assert(header_views(headers@) + collect_headers(
                        lines_from(input@, end as int),
                    ) == header_views(before) + (seq![h@] + collect_headers(
                        lines_from(input@, end as int),
                    )));
                },
                None => {},
            }
            i = end;
        }
    }
    assert(open ==> header_views(headers@) + Seq::<(Seq<u8>, Seq<u8>)>::empty() == header_views(
        headers@,
    ));
    request.headers = headers;
    Ok(request)
}

} // verus!
