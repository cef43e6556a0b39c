use sidecar_bridge::exchange::{Action, Event, Exchange, Stage};
use sidecar_bridge::interceptor::{intercept, rewrite_target};
use sidecar_bridge::message::{
    BridgeRequest, BridgeResponse, Failure, Header, HeaderMap, ServerEndpoint,
};
use sidecar_bridge::request::{has_header, serialize_head};

fn endpoint() -> ServerEndpoint {
    ServerEndpoint::new(b"localhost", 7666)
}

fn get_request() -> BridgeRequest {
    BridgeRequest {
        method: b"GET".to_vec(),
        target: b"http://localhost:7666/api/items".to_vec(),
        headers: vec![Header::new(b"accept", b"*/*")],
        body: Vec::new(),
    }
}

/// Drives an exchange up to the point where the response is read.
fn receiving(request: BridgeRequest) -> Exchange {
    let has_body = !request.body.is_empty();
    let mut x = Exchange::begin(&endpoint(), request);
    assert!(matches!(x.step(Event::Connected), Action::Write(_)));
    if has_body {
        assert!(matches!(x.step(Event::Written), Action::Write(_)));
    }
    assert!(matches!(x.step(Event::Written), Action::Read));
    assert_eq!(x.stage(), Stage::Receiving);
    x
}

/// The response to `chunks` followed by the end of the connection.
fn respond_to(chunks: &[&[u8]]) -> BridgeResponse {
    let mut x = receiving(get_request());
    for chunk in chunks {
        match x.step(Event::Received(chunk.to_vec())) {
            Action::Respond(r) => return r,
            Action::Read => {}
            Action::Write(_) => panic!("nothing is written while reading"),
        }
    }
    match x.step(Event::Closed) {
        Action::Respond(r) => r,
        _ => panic!("the end of the connection must give a response"),
    }
}

fn value(headers: &HeaderMap, name: &[u8]) -> Option<Vec<u8>> {
    headers.get(name)
}

#[test]
fn scenario_well_formed_response() {
    let r = respond_to(&[
        b"HTTP/1.1 200 OK\r\nContent-Type: text/plain\r\nContent-Length: 5\r\n\r\nhello",
    ]);
    assert_eq!(r.status, 200);
    assert_eq!(r.headers.len(), 2);
    assert_eq!(value(&r.headers, b"content-type"), Some(b"text/plain".to_vec()));
    assert_eq!(value(&r.headers, b"content-length"), Some(b"5".to_vec()));
    assert_eq!(r.body, b"hello".to_vec());
}

#[test]
fn response_is_handed_out_before_the_connection_ends() {
    let mut x = receiving(get_request());
    let action = x.step(Event::Received(
        b"HTTP/1.1 200 OK\r\nContent-Length: 5\r\n\r\nhello".to_vec(),
    ));
    match action {
        Action::Respond(r) => {
            assert_eq!(r.status, 200);
            assert_eq!(r.body, b"hello".to_vec());
        }
        _ => panic!("the body is whole"),
    }
    assert_eq!(x.stage(), Stage::Finished);
}

#[test]
fn scenario_connection_refused() {
    let mut x = Exchange::begin(&endpoint(), get_request());
    match x.step(Event::ConnectFailed) {
        Action::Respond(r) => {
            assert_eq!(r.status, 500);
            assert_eq!(r.body, b"Error connecting to server".to_vec());
            let text = String::from_utf8(r.body).unwrap();
            assert!(text.contains("connect"));
            assert_eq!(r.headers.len(), 0);
        }
        _ => panic!("a refused connection must give a response"),
    }
    assert_eq!(x.stage(), Stage::Finished);
}

#[test]
fn scenario_truncated_body() {
    let r = respond_to(&[b"HTTP/1.1 200 OK\r\nContent-Length: 10\r\n\r\nhell"]);
    assert_eq!(r.status, 500);
    assert_eq!(r.body, b"Response body shorter than Content-Length".to_vec());
    assert_eq!(r.headers.len(), 0);
}

#[test]
fn partial_reads_give_the_same_response() {
    let wire: &[u8] =
        b"HTTP/1.1 404 Not Found\r\nX-One: 1\r\nContent-Length: 9\r\nX-Two: two\r\n\r\nnot found";
    let whole = respond_to(&[wire]);
    assert_eq!(whole.status, 404);
    assert_eq!(whole.body, b"not found".to_vec());
    for cut in 0..wire.len() {
        let parts = respond_to(&[&wire[..cut], &wire[cut..]]);
        assert_eq!(parts, whole);
    }
    let bytes: Vec<&[u8]> = wire.chunks(1).collect();
    assert_eq!(respond_to(&bytes), whole);
}

#[test]
fn body_runs_to_the_end_without_content_length() {
    let mut x = receiving(get_request());
    assert!(matches!(
        x.step(Event::Received(b"HTTP/1.1 200 OK\r\nX-A: b\r\n\r\nfirst ".to_vec())),
        Action::Read
    ));
    assert!(matches!(x.step(Event::Received(b"second".to_vec())), Action::Read));
    assert!(matches!(x.step(Event::Received(Vec::new())), Action::Read));
    match x.step(Event::Closed) {
        Action::Respond(r) => {
            assert_eq!(r.status, 200);
            assert_eq!(r.body, b"first second".to_vec());
            assert_eq!(value(&r.headers, b"x-a"), Some(b"b".to_vec()));
        }
        _ => panic!("the end of the connection must give a response"),
    }
}

#[test]
fn large_body_to_close_is_not_truncated() {
    let mut x = receiving(get_request());
    assert!(matches!(x.step(Event::Received(b"HTTP/1.1 200 OK\r\n\r\n".to_vec())), Action::Read));
    let mut expected: Vec<u8> = Vec::new();
    for i in 0..1000u32 {
        let chunk: Vec<u8> = (0..257u32).map(|j| ((i + j) % 251) as u8).collect();
        expected.extend_from_slice(&chunk);
        assert!(matches!(x.step(Event::Received(chunk)), Action::Read));
    }
    match x.step(Event::Closed) {
        Action::Respond(r) => assert_eq!(r.body, expected),
        _ => panic!("the end of the connection must give a response"),
    }
}

#[test]
fn exchanges_do_not_share_bytes() {
    let first = respond_to(&[b"HTTP/1.1 200 OK\r\n\r\none"]);
    let second = respond_to(&[b"HTTP/1.1 201 Created\r\n\r\ntwo"]);
    assert_eq!(first.body, b"one".to_vec());
    assert_eq!(second.status, 201);
    assert_eq!(second.body, b"two".to_vec());
}

#[test]
fn bytes_behind_the_announced_length_are_left_out() {
    let r = respond_to(&[b"HTTP/1.1 200 OK\r\nContent-Length: 2\r\n\r\nokEXTRA"]);
    assert_eq!(r.status, 200);
    assert_eq!(r.body, b"ok".to_vec());
}

#[test]
fn zero_length_body() {
    let r = respond_to(&[b"HTTP/1.1 204 No Content\r\nContent-Length: 0\r\n\r\n"]);
    assert_eq!(r.status, 204);
    assert_eq!(r.body, Vec::<u8>::new());
}

const MALFORMED: &[u8] = b"Malformed status line in server response";

#[test]
fn missing_protocol_token_gives_500() {
    for wire in [
        &b"HTTP/1.0 200 OK\r\nContent-Length: 2\r\n\r\nok"[..],
        &b"garbage\r\n\r\nbody"[..],
        &b"ICY 200 OK\r\n\r\n"[..],
        &b"200 OK\r\n\r\n"[..],
        &b"http/1.1 200 OK\r\n\r\n"[..],
        &b" HTTP/1.1 200 OK\r\n\r\n"[..],
        &b"HTTP/1.1200 OK\r\n\r\n"[..],
        &b"\r\n\r\n"[..],
    ] {
        let r = respond_to(&[wire]);
        assert_eq!(r.status, 500);
        assert_eq!(r.body, MALFORMED.to_vec());
        assert_eq!(r.headers.len(), 0);
    }
}

#[test]
fn non_numeric_status_gives_500() {
    for wire in [
        &b"HTTP/1.1 abc OK\r\n\r\nbody"[..],
        &b"HTTP/1.1 2x0 OK\r\n\r\n"[..],
        &b"HTTP/1.1 \r\n\r\nbody"[..],
        &b"HTTP/1.1 99999 OK\r\n\r\nbody"[..],
        &b"HTTP/1.1 -200 OK\r\n\r\nbody"[..],
        &b"HTTP/1.1 2.0 OK\r\n\r\nbody"[..],
    ] {
        let r = respond_to(&[wire]);
        assert_eq!(r.status, 500);
        assert_eq!(r.body, MALFORMED.to_vec());
        assert_eq!(r.headers.len(), 0);
    }
    let r = respond_to(&[b"HTTP/1.1 2 00 OK\r\n\r\nbody"]);
    assert_eq!(r.status, 500);
    assert_eq!(r.body, b"Internal Server Error".to_vec());
}

#[test]
fn malformed_status_line_never_gives_an_empty_body() {
    let r = respond_to(&[b"nonsense\r\n\r\n"]);
    assert_eq!((r.status, r.body), (500, MALFORMED.to_vec()));
    let r = respond_to(&[]);
    assert_eq!((r.status, r.body), (500, MALFORMED.to_vec()));
    let r = respond_to(&[b"HTTP/1.1 "]);
    assert_eq!((r.status, r.body), (500, MALFORMED.to_vec()));
    let r = respond_to(&[b"HTTP/1.1"]);
    assert_eq!((r.status, r.body), (500, MALFORMED.to_vec()));
}

#[test]
fn malformed_status_line_is_answered_when_the_line_ends() {
    let mut x = receiving(get_request());
    assert!(matches!(x.step(Event::Received(b"ICY 200 OK".to_vec())), Action::Read));
    match x.step(Event::Received(b"\r\nContent-Length: 2\r\n".to_vec())) {
        Action::Respond(r) => {
            assert_eq!(r.status, 500);
            assert_eq!(r.body, MALFORMED.to_vec());
        }
        _ => panic!("a malformed status line is known at its end"),
    }
    assert_eq!(x.stage(), Stage::Finished);
}

#[test]
fn status_words_are_split_on_white_space() {
    let r = respond_to(&[b"HTTP/1.1   201\tCreated\r\n\r\n"]);
    assert_eq!(r.status, 201);
    let r = respond_to(&[b"HTTP/1.1 +200 OK\r\n\r\n"]);
    assert_eq!(r.status, 200);
    let r = respond_to(&[b"HTTP/1.1 0404\r\n\r\n"]);
    assert_eq!(r.status, 404);
    let r = respond_to(&[b"HTTP/1.1 200\n\nx"]);
    assert_eq!(r.status, 200);
    assert_eq!(r.body, b"x".to_vec());
}

#[test]
fn status_out_of_range_gives_the_internal_failure() {
    for line in [
        &b"HTTP/1.1 99 Low\r\n\r\nbody"[..],
        &b"HTTP/1.1 600 High\r\n\r\nbody"[..],
        &b"HTTP/1.1 999 High\r\n\r\nbody"[..],
        &b"HTTP/1.1 1000 High\r\n\r\nbody"[..],
        &b"HTTP/1.1 0 Zero\r\n\r\nbody"[..],
    ] {
        let r = respond_to(&[line]);
        assert_eq!(r.status, 500);
        assert_eq!(r.body, b"Internal Server Error".to_vec());
    }
    for (line, code) in [
        (&b"HTTP/1.1 100 Continue\r\n\r\n"[..], 100u16),
        (&b"HTTP/1.1 599 Edge\r\n\r\n"[..], 599u16),
    ] {
        assert_eq!(respond_to(&[line]).status, code);
    }
}

#[test]
fn header_lines_are_trimmed_and_folded() {
    let r = respond_to(&[
        b"HTTP/1.1 200 OK\r\n  X-Mixed-CASE  :  some value \t\r\nno colon here\r\nETag:\"a:b\"\r\n\r\n",
    ]);
    assert_eq!(r.status, 200);
    assert_eq!(r.headers.len(), 2);
    assert_eq!(value(&r.headers, b"x-mixed-case"), Some(b"some value".to_vec()));
    assert_eq!(value(&r.headers, b"etag"), Some(b"\"a:b\"".to_vec()));
    assert_eq!(value(&r.headers, b"X-Mixed-CASE"), None);
}

#[test]
fn later_header_replaces_earlier_one() {
    let r = respond_to(&[b"HTTP/1.1 200 OK\r\nX-A: 1\r\nx-a: 2\r\nX-B: 3\r\nX-A: 4\r\n\r\n"]);
    assert_eq!(r.headers.len(), 2);
    assert_eq!(value(&r.headers, b"x-a"), Some(b"4".to_vec()));
    assert_eq!(value(&r.headers, b"x-b"), Some(b"3".to_vec()));
}

#[test]
fn short_lines_do_not_end_the_header_block() {
    let r = respond_to(&[b"HTTP/1.1 200 OK\r\nx\nA: b\r\n\r\nbody"]);
    assert_eq!(r.status, 200);
    assert_eq!(value(&r.headers, b"a"), Some(b"b".to_vec()));
    assert_eq!(r.body, b"body".to_vec());
}

#[test]
fn connection_ending_inside_the_header_block() {
    let r = respond_to(&[b"HTTP/1.1 200 OK\r\nA: b\r\nC: d"]);
    assert_eq!(r.status, 200);
    assert_eq!(r.headers.len(), 2);
    assert_eq!(value(&r.headers, b"c"), Some(b"d".to_vec()));
    assert_eq!(r.body, Vec::<u8>::new());
    let r = respond_to(&[b"HTTP/1.1 200 OK\r\nContent-Length: 3\r\n"]);
    assert_eq!(r.status, 500);
    assert_eq!(r.body, b"Response body shorter than Content-Length".to_vec());
    let r = respond_to(&[b"HTTP/1.1 202 Accepted"]);
    assert_eq!(r.status, 202);
    assert_eq!(r.headers.len(), 0);
}

#[test]
fn invalid_content_length() {
    for value in [&b"abc"[..], b"-1", b"1.5", b"", b"12 34", b"99999999999999999999999999"] {
        let mut wire = b"HTTP/1.1 200 OK\r\nContent-Length: ".to_vec();
        wire.extend_from_slice(value);
        wire.extend_from_slice(b"\r\n\r\nbody");
        let mut x = receiving(get_request());
        match x.step(Event::Received(wire)) {
            Action::Respond(r) => {
                assert_eq!(r.status, 500);
                assert_eq!(r.body, b"Invalid Content-Length header".to_vec());
            }
            _ => panic!("an invalid length is known at the end of the header block"),
        }
    }
}

#[test]
fn header_with_unacceptable_value_is_dropped() {
    let r = respond_to(&[b"HTTP/1.1 200 OK\r\nX-Good: fine\r\nX-Bad: a\x01b\r\nX-Cr: a\rb\r\n\r\nbody"]);
    assert_eq!(r.status, 200);
    assert_eq!(r.headers.len(), 1);
    assert_eq!(value(&r.headers, b"x-good"), Some(b"fine".to_vec()));
    assert_eq!(r.body, b"body".to_vec());
}

#[test]
fn header_with_unacceptable_name_gives_the_internal_failure() {
    for wire in [
        &b"HTTP/1.1 200 OK\r\nbad name: x\r\n\r\nbody"[..],
        &b"HTTP/1.1 200 OK\r\n: x\r\n\r\nbody"[..],
        &b"HTTP/1.1 200 OK\r\nna(me: x\r\n\r\nbody"[..],
    ] {
        let r = respond_to(&[wire]);
        assert_eq!(r.status, 500);
        assert_eq!(r.body, b"Internal Server Error".to_vec());
        assert_eq!(r.headers.len(), 0);
    }
    let r = respond_to(&[b"HTTP/1.1 200 OK\r\nbad name: a\x01b\r\n\r\nbody"]);
    assert_eq!(r.status, 200);
    assert_eq!(r.headers.len(), 0);
}

#[test]
fn failure_at_each_stage() {
    let mut x = Exchange::begin(&endpoint(), get_request());
    x.step(Event::Connected);
    match x.step(Event::WriteFailed) {
        Action::Respond(r) => {
            assert_eq!(r.status, 500);
            assert_eq!(r.body, b"Error sending request to server".to_vec());
        }
        _ => panic!(),
    }

    let mut with_body = get_request();
    with_body.method = b"POST".to_vec();
    with_body.body = b"{}".to_vec();
    let mut x = Exchange::begin(&endpoint(), with_body);
    x.step(Event::Connected);
    match x.step(Event::Written) {
        Action::Write(bytes) => assert_eq!(bytes, b"{}".to_vec()),
        _ => panic!(),
    }
    assert_eq!(x.stage(), Stage::SendingBody);
    match x.step(Event::WriteFailed) {
        Action::Respond(r) => {
            assert_eq!(r.status, 500);
            assert_eq!(r.body, b"Error sending request body to server".to_vec());
        }
        _ => panic!(),
    }

    let expect_read_failure = |fed: &[u8], text: &[u8]| {
        let mut x = receiving(get_request());
        if !fed.is_empty() {
            assert!(matches!(x.step(Event::Received(fed.to_vec())), Action::Read));
        }
        match x.step(Event::ReadFailed) {
            Action::Respond(r) => {
                assert_eq!(r.status, 500);
                assert_eq!(r.body, text.to_vec());
            }
            _ => panic!(),
        }
    };
    expect_read_failure(b"", b"Error parsing status line from server response");
    expect_read_failure(b"HTTP/1.1 2", b"Error parsing status line from server response");
    expect_read_failure(b"HTTP/1.1 200 OK\r\nA: ", b"Error reading headers from server response");
    expect_read_failure(
        b"HTTP/1.1 200 OK\r\nContent-Length: 9\r\n\r\nabc",
        b"Error reading response body",
    );
    expect_read_failure(
        b"HTTP/1.1 200 OK\r\n\r\nabc",
        b"Error reading response body (no Content-Length)",
    );
}

#[test]
fn events_out_of_turn_end_the_exchange() {
    let mut x = Exchange::begin(&endpoint(), get_request());
    match x.step(Event::Closed) {
        Action::Respond(r) => {
            assert_eq!(r.status, 500);
            assert_eq!(r.body, b"Internal Server Error".to_vec());
        }
        _ => panic!(),
    }
    assert_eq!(x.stage(), Stage::Finished);
    match x.step(Event::Connected) {
        Action::Respond(r) => assert_eq!(r.body, b"Internal Server Error".to_vec()),
        _ => panic!(),
    }
    let mut x = receiving(get_request());
    assert!(matches!(x.step(Event::Written), Action::Respond(_)));
}

#[test]
fn every_failure_has_its_own_text() {
    let all = [
        Failure::Connect,
        Failure::SendHead,
        Failure::SendBody,
        Failure::ReadStatus,
        Failure::ReadHeaders,
        Failure::ReadBody,
        Failure::ReadBodyToClose,
        Failure::MalformedStatusLine,
        Failure::InvalidContentLength,
        Failure::TruncatedBody,
        Failure::Internal,
    ];
    let mut texts: Vec<Vec<u8>> = Vec::new();
    for f in all {
        let r = BridgeResponse::failure(f);
        assert_eq!(r.status, 500);
        assert!(!r.body.is_empty());
        assert_eq!(r.headers.len(), 0);
        assert!(!texts.contains(&r.body));
        texts.push(r.body);
    }
}

#[test]
fn request_head_for_a_get() {
    let head = serialize_head(&endpoint(), &get_request());
    assert_eq!(
        head,
        b"GET http://localhost:7666/api/items HTTP/1.1\r\nHost: localhost:7666\r\naccept: */*\r\nContent-Length: 0\r\nContent-Type: application/json\r\n\r\n"
            .to_vec()
    );
}

#[test]
fn request_head_keeps_headers_in_order() {
    let request = BridgeRequest {
        method: b"POST".to_vec(),
        target: b"http://127.0.0.1:5000/x?y=1".to_vec(),
        headers: vec![
            Header::new(b"X-B", b"2"),
            Header::new(b"CONTENT-type", b"text/plain"),
            Header::new(b"X-B", b"1"),
            Header::new(b"Content-Length", b"999"),
        ],
        body: vec![7u8; 1234],
    };
    let head = serialize_head(&ServerEndpoint::new(b"127.0.0.1", 5000), &request);
    assert_eq!(
        head,
        b"POST http://127.0.0.1:5000/x?y=1 HTTP/1.1\r\nHost: 127.0.0.1:5000\r\nX-B: 2\r\nCONTENT-type: text/plain\r\nX-B: 1\r\nContent-Length: 999\r\nContent-Length: 1234\r\n\r\n"
            .to_vec()
    );
    assert!(has_header(&request.headers, b"content-type"));
    assert!(!has_header(&request.headers, b"accept"));
}

#[test]
fn exchange_writes_head_then_body() {
    let request = BridgeRequest {
        method: b"PUT".to_vec(),
        target: b"/a".to_vec(),
        headers: Vec::new(),
        body: b"payload".to_vec(),
    };
    let expected_head = serialize_head(&endpoint(), &request);
    let mut x = Exchange::begin(&endpoint(), request);
    assert_eq!(x.stage(), Stage::Connecting);
    match x.step(Event::Connected) {
        Action::Write(bytes) => assert_eq!(bytes, expected_head),
        _ => panic!(),
    }
    assert_eq!(x.stage(), Stage::SendingHead);
    match x.step(Event::Written) {
        Action::Write(bytes) => assert_eq!(bytes, b"payload".to_vec()),
        _ => panic!(),
    }
    assert!(matches!(x.step(Event::Written), Action::Read));
}

#[test]
fn endpoint_authority() {
    assert_eq!(ServerEndpoint::new(b"localhost", 7666).authority(), b"localhost:7666".to_vec());
    assert_eq!(ServerEndpoint::new(b"h", 0).authority(), b"h:0".to_vec());
    assert_eq!(ServerEndpoint::new(b"", 65535).authority(), b":65535".to_vec());
}

#[test]
fn target_is_rewritten() {
    let e = endpoint();
    assert_eq!(
        rewrite_target(b"tauri://localhost/api/items?x=1", &e),
        b"http://localhost:7666/api/items?x=1".to_vec()
    );
    assert_eq!(rewrite_target(b"/plain/path", &e), b"/plain/path".to_vec());
    assert_eq!(
        rewrite_target(b"tauri://localhost/a?next=tauri://localhost/b", &e),
        b"http://localhost:7666/a?next=http://localhost:7666/b".to_vec()
    );
    assert_eq!(rewrite_target(b"tauri://localhos", &e), b"tauri://localhos".to_vec());
    assert_eq!(rewrite_target(b"", &e), Vec::<u8>::new());
    assert_eq!(
        rewrite_target(b"tauri://localhost", &ServerEndpoint::new(b"127.0.0.1", 5000)),
        b"http://127.0.0.1:5000".to_vec()
    );
}

#[test]
fn intercepted_request_keeps_its_parts() {
    let headers = vec![Header::new(b"a", b"1"), Header::new(b"a", b"2")];
    let r = intercept(&endpoint(), b"DELETE", b"tauri://localhost/x", headers.clone(), b"b".to_vec());
    assert_eq!(r.method, b"DELETE".to_vec());
    assert_eq!(r.target, b"http://localhost:7666/x".to_vec());
    assert_eq!(r.headers, headers);
    assert_eq!(r.body, b"b".to_vec());
}
