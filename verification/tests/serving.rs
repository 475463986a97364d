use http_engine::connection::{dispatch, handle_request, respond, Connection, Dispatch, Event};
use http_engine::files::file_path;
use http_engine::request::{parse_request, Header, Request};
use http_engine::response::{Response, Status};
use http_engine::route::{route, Route};

fn header(name: &[u8], value: &[u8]) -> Header {
    Header { name: name.to_vec(), value: value.to_vec() }
}

fn value_of<'a>(response: &'a Response, name: &[u8]) -> Option<&'a [u8]> {
    response.headers.iter().find(|h| h.name == name).map(|h| h.value.as_slice())
}

/// Runs one connection: the lines are handed over one by one, then empty
/// lines; a file that is asked for reads as `file`.
fn serve(lines: &[&[u8]], file: Option<&[u8]>) -> Response {
    let mut connection = Connection::accepted();
    let mut next = lines.iter();
    loop {
        let event = match &connection {
            Connection::ParsingRequestLine | Connection::ParsingHeaders(_) => {
                Event::Line(next.next().map(|l| l.to_vec()).unwrap_or_default())
            }
            Connection::Dispatching(_) => Event::File(file.map(|f| f.to_vec())),
            Connection::WritingResponse(r) => return r.clone(),
            Connection::Closed => panic!("closed before a response"),
        };
        connection = connection.step(event);
    }
}

#[test]
fn root_is_200_without_body() {
    let r = serve(&[b"GET / HTTP/1.1\r\n", b"\r\n"], None);
    assert_eq!(r.status, Status::Success);
    assert_eq!(r.body, None);
    assert_eq!(value_of(&r, b"Content-Length"), None);
    assert!(r.headers.is_empty());
    assert_eq!(r.to_bytes(), b"HTTP/1.1 200 OK\r\n\r\n".to_vec());
}

#[test]
fn echo_returns_the_rest_of_the_path() {
    let r = serve(&[b"GET /echo/abc HTTP/1.1\r\n", b"\r\n"], None);
    assert_eq!(r.status, Status::Success);
    assert_eq!(value_of(&r, b"Content-Length"), Some(&b"3"[..]));
    assert_eq!(r.body, Some(b"abc".to_vec()));
    assert_eq!(
        r.to_bytes(),
        b"HTTP/1.1 200 OK\r\nContent-Type: text/plain\r\nContent-Length: 3\r\n\r\nabc".to_vec()
    );
}

#[test]
fn echo_of_nothing_is_an_empty_body() {
    let r = serve(&[b"GET /echo/ HTTP/1.1\r\n", b"\r\n"], None);
    assert_eq!(r.status, Status::Success);
    assert_eq!(value_of(&r, b"Content-Length"), Some(&b"0"[..]));
    assert_eq!(r.body, Some(Vec::new()));
    assert_eq!(
        r.to_bytes(),
        b"HTTP/1.1 200 OK\r\nContent-Type: text/plain\r\nContent-Length: 0\r\n\r\n".to_vec()
    );
}

#[test]
fn echo_does_not_decode() {
    let r = serve(&[b"GET /echo/a%20b/../c?x=1 HTTP/1.1\r\n", b"\r\n"], None);
    assert_eq!(r.body, Some(b"a%20b/../c?x=1".to_vec()));
    assert_eq!(value_of(&r, b"Content-Length"), Some(&b"14"[..]));
}

#[test]
fn user_agent_is_echoed() {
    let r = serve(
        &[b"GET /user-agent HTTP/1.1\r\n", b"Host: x\r\n", b"User-Agent: foo/1.0\r\n", b"\r\n"],
        None,
    );
    assert_eq!(r.status, Status::Success);
    assert_eq!(value_of(&r, b"Content-Length"), Some(&b"7"[..]));
    assert_eq!(value_of(&r, b"Content-Type"), Some(&b"text/plain"[..]));
    assert_eq!(r.body, Some(b"foo/1.0".to_vec()));
    assert_eq!(
        r.to_bytes(),
        b"HTTP/1.1 200 OK\r\nContent-Type: text/plain\r\nContent-Length: 7\r\n\r\nfoo/1.0".to_vec()
    );
}

#[test]
fn user_agent_missing_is_404() {
    let r = serve(&[b"GET /user-agent HTTP/1.1\r\n", b"Host: x\r\n", b"\r\n"], None);
    assert_eq!(r.status, Status::NotFound);
    assert_eq!(r.body, None);
    assert_eq!(r.to_bytes(), b"HTTP/1.1 404 Not Found\r\n\r\n".to_vec());
}

#[test]
fn user_agent_lookup_is_case_sensitive_and_takes_the_first() {
    let r = serve(
        &[
            b"GET /user-agent HTTP/1.1\r\n",
            b"user-agent: lower\r\n",
            b"User-Agent: first\r\n",
            b"User-Agent: second\r\n",
            b"\r\n",
        ],
        None,
    );
    assert_eq!(r.body, Some(b"first".to_vec()));
    let r = serve(&[b"GET /user-agent HTTP/1.1\r\n", b"user-agent: lower\r\n", b"\r\n"], None);
    assert_eq!(r.status, Status::NotFound);
}

#[test]
fn file_present_and_absent() {
    let lines: [&[u8]; 2] = [b"GET /files/x.txt HTTP/1.1\r\n", b"\r\n"];
    let r = serve(&lines, Some(b"hi"));
    assert_eq!(r.status, Status::Success);
    assert_eq!(value_of(&r, b"Content-Length"), Some(&b"2"[..]));
    assert_eq!(value_of(&r, b"Content-Type"), Some(&b"application/octet-stream"[..]));
    assert_eq!(r.body, Some(b"hi".to_vec()));
    assert_eq!(
        r.to_bytes(),
        b"HTTP/1.1 200 OK\r\nContent-Type: application/octet-stream\r\nContent-Length: 2\r\n\r\nhi"
            .to_vec()
    );
    let r = serve(&lines, None);
    assert_eq!(r.status, Status::NotFound);
    assert_eq!(r.body, None);
    assert_eq!(r.to_bytes(), b"HTTP/1.1 404 Not Found\r\n\r\n".to_vec());
}

#[test]
fn file_route_asks_for_the_rest_of_the_path() {
    let c = Connection::accepted()
        .step(Event::Line(b"GET /files/dir/x.txt HTTP/1.1\r\n".to_vec()))
        .step(Event::Line(b"\r\n".to_vec()));
    assert_eq!(c, Connection::Dispatching(b"dir/x.txt".to_vec()));
}

#[test]
fn unknown_path_is_404() {
    let r = serve(&[b"GET /missing HTTP/1.1\r\n", b"\r\n"], None);
    assert_eq!(r.status, Status::NotFound);
    assert_eq!(r.body, None);
    assert_eq!(r.to_bytes(), b"HTTP/1.1 404 Not Found\r\n\r\n".to_vec());
}

#[test]
fn one_word_request_line_is_400() {
    let c = Connection::accepted().step(Event::Line(b"BADREQUEST".to_vec()));
    assert_eq!(c, Connection::WritingResponse(Response::bad_request()));
    let r = serve(&[b"BADREQUEST"], None);
    assert_eq!(r.status, Status::BadRequest);
    assert_eq!(r.body, None);
    assert_eq!(r.to_bytes(), b"HTTP/1.1 400 Bad Request\r\n\r\n".to_vec());
    // a connection accepted afterwards starts afresh
    let r = serve(&[b"GET / HTTP/1.1\r\n", b"\r\n"], None);
    assert_eq!(r.status, Status::Success);
}

#[test]
fn broken_header_line_does_not_hide_later_headers() {
    let r = serve(
        &[
            b"GET /user-agent HTTP/1.1\r\n",
            b"this line has no separator\r\n",
            b"User-Agent: foo/1.0\r\n",
            b"\r\n",
        ],
        None,
    );
    assert_eq!(r.status, Status::Success);
    assert_eq!(r.body, Some(b"foo/1.0".to_vec()));
}

#[test]
fn same_request_same_bytes() {
    let input = b"GET /user-agent HTTP/1.1\r\nUser-Agent: foo/1.0\r\n\r\n";
    let a = parse_request(input).unwrap();
    let b = parse_request(input).unwrap();
    let first = respond(&a, None).to_bytes();
    assert_eq!(respond(&a, None).to_bytes(), first);
    assert_eq!(respond(&b, None).to_bytes(), first);
    let post = parse_request(b"POST /user-agent HTTP/1.0\r\nUser-Agent: foo/1.0\r\n\r\n").unwrap();
    assert_eq!(respond(&post, None).to_bytes(), first);
}

#[test]
fn end_of_data_ends_the_headers() {
    let r = serve(&[b"GET /echo/x HTTP/1.1\r\n", b"A: b\r\n"], None);
    assert_eq!(r.body, Some(b"x".to_vec()));
}

#[test]
fn states_in_order() {
    let c = Connection::accepted();
    assert_eq!(c, Connection::ParsingRequestLine);
    let c = c.step(Event::Line(b"GET /echo/a HTTP/1.1\r\n".to_vec()));
    let mut request = Request {
        method: b"GET".to_vec(),
        path: b"/echo/a".to_vec(),
        http_version: b"HTTP/1.1".to_vec(),
        headers: Vec::new(),
        body: None,
    };
    assert_eq!(c, Connection::ParsingHeaders(request.clone()));
    let c = c.step(Event::Line(b"no separator\r\n".to_vec()));
    assert_eq!(c, Connection::ParsingHeaders(request.clone()));
    let c = c.step(Event::Line(b"K: v \r\n".to_vec()));
    request.headers.push(header(b"K", b"v "));
    assert_eq!(c, Connection::ParsingHeaders(request));
    let c = c.step(Event::Line(b"\r\n".to_vec()));
    assert_eq!(c, Connection::WritingResponse(Response::echo(b"a")));
    let c = c.step(Event::Written);
    assert_eq!(c, Connection::Closed);
    let c = c.step(Event::Line(b"GET / HTTP/1.1\r\n".to_vec()));
    assert_eq!(c, Connection::Closed);
}

#[test]
fn unexpected_event_closes() {
    assert_eq!(Connection::accepted().step(Event::Written), Connection::Closed);
    assert_eq!(Connection::accepted().step(Event::File(None)), Connection::Closed);
    let c = Connection::Dispatching(b"x".to_vec()).step(Event::Line(b"\r\n".to_vec()));
    assert_eq!(c, Connection::Closed);
    let c = Connection::WritingResponse(Response::root()).step(Event::File(Some(Vec::new())));
    assert_eq!(c, Connection::Closed);
}

#[test]
fn routes_in_order_of_priority() {
    assert_eq!(route(b"/"), Route::Root);
    assert_eq!(route(b"/user-agent"), Route::UserAgent);
    assert_eq!(route(b"/echo/files/x"), Route::Echo(b"files/x".to_vec()));
    assert_eq!(route(b"/files//echo/"), Route::File(b"/echo/".to_vec()));
    assert_eq!(route(b"/files/"), Route::File(Vec::new()));
    assert_eq!(route(b"/echo"), Route::NotFound);
    assert_eq!(route(b"/user-agent/"), Route::NotFound);
    assert_eq!(route(b"//"), Route::NotFound);
    assert_eq!(route(b""), Route::NotFound);
    assert_eq!(route(b"/echo/\xC3\xA9"), Route::Echo(vec![0xC3, 0xA9]));
}

#[test]
fn method_and_version_do_not_route() {
    let r = parse_request(b"DELETE /echo/x FTP/9\r\n\r\n").unwrap();
    assert_eq!(dispatch(&r), Dispatch::Reply(Response::echo(b"x")));
    let r = parse_request(b"PUT /files/a.bin HTTP/1.1\r\n\r\n").unwrap();
    assert_eq!(dispatch(&r), Dispatch::ReadFile(b"a.bin".to_vec()));
    assert_eq!(respond(&r, Some(vec![0, 255])).body, Some(vec![0, 255]));
    assert_eq!(respond(&r, None), Response::not_found());
}

#[test]
fn status_codes_and_reasons() {
    assert_eq!(Status::Success.code(), 200);
    assert_eq!(Status::BadRequest.code(), 400);
    assert_eq!(Status::NotFound.code(), 404);
    assert_eq!(Status::Success.reason(), b"OK");
    assert_eq!(Status::BadRequest.reason(), b"Bad Request");
    assert_eq!(Status::NotFound.reason(), b"Not Found");
}

#[test]
fn wire_form_writes_headers_in_order() {
    let r = Response {
        status: Status::Success,
        headers: vec![header(b"B", b"2"), header(b"A", b"1"), header(b"B", b"3")],
        body: Some(b"xyz".to_vec()),
    };
    assert_eq!(r.to_bytes(), b"HTTP/1.1 200 OK\r\nB: 2\r\nA: 1\r\nB: 3\r\n\r\nxyz".to_vec());
    let r = Response::carrying(b"text/html", vec![b'a'; 120]);
    assert_eq!(r.headers, vec![header(b"Content-Type", b"text/html"), header(b"Content-Length", b"120")]);
}

#[test]
fn file_path_is_a_simple_join() {
    assert_eq!(file_path(b"/tmp/data", b"x.txt"), b"/tmp/data/x.txt".to_vec());
    assert_eq!(file_path(b"/tmp/data/", b"x.txt"), b"/tmp/data/x.txt".to_vec());
    assert_eq!(file_path(b"", b"x.txt"), b"x.txt".to_vec());
    assert_eq!(file_path(b".", b"a/../../b"), b"./a/../../b".to_vec());
    assert_eq!(file_path(b"dir", b""), b"dir/".to_vec());
    assert_eq!(file_path(b"dir", b"/etc/passwd"), b"dir//etc/passwd".to_vec());
}

#[test]
fn header_lookup_is_exact() {
    let r = parse_request(b"GET / HTTP/1.1\r\nA: 1\r\na: 2\r\nA: 3\r\nAB: 4\r\n\r\n").unwrap();
    assert_eq!(r.header_value(b"A"), Some(&b"1"[..]));
    assert_eq!(r.header_value(b"a"), Some(&b"2"[..]));
    assert_eq!(r.header_value(b"AB"), Some(&b"4"[..]));
    assert_eq!(r.header_value(b"B"), None);
    assert_eq!(r.header_value(b""), None);
}

#[test]
fn user_agent_value_keeps_the_space_round_it() {
    let r = serve(
        &[b"GET /user-agent HTTP/1.1\r\n", b"User-Agent:   curl 8  (x)  \r\n", b"\r\n"],
        None,
    );
    assert_eq!(r.body, Some(b"  curl 8  (x)  ".to_vec()));
    assert_eq!(value_of(&r, b"Content-Length"), Some(&b"15"[..]));
}

#[test]
fn handle_request_from_bytes_to_bytes() {
    assert_eq!(
        handle_request(b"GET /echo/abc HTTP/1.1\r\nHost: x\r\n\r\n", None),
        b"HTTP/1.1 200 OK\r\nContent-Type: text/plain\r\nContent-Length: 3\r\n\r\nabc".to_vec()
    );
    assert_eq!(handle_request(b"BADREQUEST\r\n\r\n", None), b"HTTP/1.1 400 Bad Request\r\n\r\n".to_vec());
    assert_eq!(handle_request(b"", Some(b"hi".to_vec())), b"HTTP/1.1 400 Bad Request\r\n\r\n".to_vec());
    assert_eq!(
        handle_request(b"GET /files/x.txt HTTP/1.1\r\n\r\n", Some(b"hi".to_vec())),
        b"HTTP/1.1 200 OK\r\nContent-Type: application/octet-stream\r\nContent-Length: 2\r\n\r\nhi"
            .to_vec()
    );
    assert_eq!(
        handle_request(b"GET /files/x.txt HTTP/1.1\r\n\r\n", None),
        b"HTTP/1.1 404 Not Found\r\n\r\n".to_vec()
    );
    // the file is looked at on the file route alone
    assert_eq!(handle_request(b"GET / HTTP/1.1\r\n\r\n", Some(b"hi".to_vec())), b"HTTP/1.1 200 OK\r\n\r\n".to_vec());
}

#[test]
fn same_bytes_in_same_bytes_out() {
    let input = b"GET /user-agent HTTP/1.1\r\nbroken\r\nUser-Agent: a b\r\n\r\n";
    let first = handle_request(input, None);
    for _ in 0..3 {
        assert_eq!(handle_request(input, None), first);
    }
    assert_eq!(
        first,
        b"HTTP/1.1 200 OK\r\nContent-Type: text/plain\r\nContent-Length: 3\r\n\r\na b".to_vec()
    );
}

#[test]
fn connection_and_parser_agree() {
    let lines: [&[u8]; 5] =
        [b"GET /user-agent HTTP/1.1\r\n", b"A: 1\r\n", b"junk\n", b"User-Agent: z\r\n", b"\r\n"];
    let mut connection = Connection::accepted();
    for line in &lines[..4] {
        connection = connection.step(Event::Line(line.to_vec()));
    }
    let parsed = parse_request(&lines.concat()).unwrap();
    assert_eq!(connection, Connection::ParsingHeaders(parsed.clone()));
    let connection = connection.step(Event::Line(lines[4].to_vec()));
    assert_eq!(connection, Connection::WritingResponse(respond(&parsed, None)));
}

#[test]
fn a_body_comes_with_its_length() {
    let bodies: [&[u8]; 4] = [b"", b"x", b"0123456789", &[0u8; 1000]];
    for body in bodies {
        for r in [
            Response::echo(body),
            Response::file(Some(body.to_vec())),
            Response::carrying(b"text/plain", body.to_vec()),
        ] {
            assert_eq!(r.body.as_deref(), Some(body));
            assert_eq!(value_of(&r, b"Content-Length"), Some(format!("{}", body.len()).as_bytes()));
        }
    }
    for r in [Response::root(), Response::not_found(), Response::bad_request(), Response::file(None)] {
        assert_eq!(r.body, None);
        assert!(r.headers.is_empty());
    }
}
