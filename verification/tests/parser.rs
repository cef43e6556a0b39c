use sidecar_bridge::message::{Failure, HeaderMap};
use sidecar_bridge::response::{
    decide_framing, frame_at_close, line_is_blank, read_header, read_status, Framing, Phase,
    ResponseParser,
};

#[test]
fn status_lines() {
    assert_eq!(read_status(b"HTTP/1.1 200 OK\r\n"), Some(200));
    assert_eq!(read_status(b"HTTP/1.1 404"), Some(404));
    assert_eq!(read_status(b"HTTP/1.1 65535 x"), Some(65535));
    assert_eq!(read_status(b"HTTP/1.1 7 x"), Some(7));
    assert_eq!(read_status(b"HTTP/1.1 +500 x"), Some(500));
    assert_eq!(read_status(b"HTTP/1.1 \x0b 301 \x0c moved"), Some(301));
    assert_eq!(read_status(b"HTTP/1.1 65536 x"), None);
    assert_eq!(read_status(b"HTTP/1.1200 OK\r\n"), None);
    assert_eq!(read_status(b"http/1.1 200 OK\r\n"), None);
    assert_eq!(read_status(b" HTTP/1.1 200 OK\r\n"), None);
    assert_eq!(read_status(b"HTTP/1.1 20x OK\r\n"), None);
    assert_eq!(read_status(b"HTTP/1.1 \r\n"), None);
    assert_eq!(read_status(b"HTTP/1.1"), None);
    assert_eq!(read_status(b"ICY 200 OK\r\n"), None);
    assert_eq!(read_status(b""), None);
}

#[test]
fn header_lines() {
    let h = read_header(b"Content-Type: text/html; charset=utf-8\r\n").unwrap();
    assert_eq!(h.name, b"content-type".to_vec());
    assert_eq!(h.value, b"text/html; charset=utf-8".to_vec());
    let h = read_header(b"a:b:c").unwrap();
    assert_eq!((h.name, h.value), (b"a".to_vec(), b"b:c".to_vec()));
    let h = read_header(b":").unwrap();
    assert_eq!((h.name, h.value), (Vec::new(), Vec::new()));
    let h = read_header(b" \tX Y \t:\t\n").unwrap();
    assert_eq!((h.name, h.value), (b"x y".to_vec(), Vec::new()));
    assert!(read_header(b"no colon\r\n").is_none());
    assert!(read_header(b"").is_none());
}

#[test]
fn blank_lines() {
    assert!(line_is_blank(b"\r\n"));
    assert!(line_is_blank(b"\n"));
    assert!(!line_is_blank(b""));
    assert!(!line_is_blank(b"\r"));
    assert!(!line_is_blank(b" \n"));
    assert!(!line_is_blank(b"\n\n"));
    assert!(!line_is_blank(b"\r\r\n"));
    assert!(!line_is_blank(b"x\n"));
}

#[test]
fn framing_from_headers() {
    let mut m = HeaderMap::new();
    assert_eq!(decide_framing(&m), Framing::ToClose);
    m.insert(b"content-length".to_vec(), b"42".to_vec());
    assert_eq!(decide_framing(&m), Framing::Length(42));
    m.insert(b"content-length".to_vec(), b"+7".to_vec());
    assert_eq!(decide_framing(&m), Framing::Length(7));
    m.insert(b"content-length".to_vec(), b"4 2".to_vec());
    assert_eq!(decide_framing(&m), Framing::Invalid);
    m.insert(b"content-length".to_vec(), b"".to_vec());
    assert_eq!(decide_framing(&m), Framing::Invalid);
    let mut other = HeaderMap::new();
    other.insert(b"Content-Length".to_vec(), b"42".to_vec());
    assert_eq!(decide_framing(&other), Framing::ToClose);
}

#[test]
fn framing_at_the_end_of_the_connection() {
    let mut m = HeaderMap::new();
    let r = frame_at_close(200, &m, b"all of it");
    assert_eq!((r.status, r.body), (200, b"all of it".to_vec()));
    m.insert(b"content-length".to_vec(), b"3".to_vec());
    let r = frame_at_close(200, &m, b"all of it");
    assert_eq!((r.status, r.body), (200, b"all".to_vec()));
    let r = frame_at_close(200, &m, b"al");
    assert_eq!(r.status, 500);
    assert_eq!(r.body, b"Response body shorter than Content-Length".to_vec());
    m.insert(b"content-length".to_vec(), b"three".to_vec());
    let r = frame_at_close(200, &m, b"all of it");
    assert_eq!(r.status, 500);
    assert_eq!(r.body, b"Invalid Content-Length header".to_vec());
    let r = frame_at_close(99, &HeaderMap::new(), b"x");
    assert_eq!(r.body, b"Internal Server Error".to_vec());
}

#[test]
fn parser_goes_through_its_phases() {
    let mut p = ResponseParser::new();
    assert_eq!(p.phase(), Phase::AwaitStatusLine);
    assert_eq!(p.read_failure(), Failure::ReadStatus);
    assert!(p.feed(b"HTTP/1.1 20").is_none());
    assert_eq!(p.phase(), Phase::AwaitStatusLine);
    assert!(p.feed(b"0 OK\r\nContent-Le").is_none());
    assert_eq!(p.phase(), Phase::AwaitHeaders);
    assert_eq!(p.read_failure(), Failure::ReadHeaders);
    assert!(p.feed(b"ngth: 4\r\n\r").is_none());
    assert_eq!(p.phase(), Phase::AwaitHeaders);
    assert!(p.feed(b"\nab").is_none());
    assert_eq!(p.phase(), Phase::AwaitBody);
    assert_eq!(p.read_failure(), Failure::ReadBody);
    let r = p.feed(b"cdef").unwrap();
    assert_eq!((r.status, r.body.clone()), (200, b"abcd".to_vec()));
    assert_eq!(r.headers.get(b"content-length"), Some(b"4".to_vec()));
    assert_eq!(p.phase(), Phase::Done);
    assert_eq!(p.read_failure(), Failure::Internal);
    assert!(p.feed(b"more").is_none());
    assert!(p.close().is_none());
}

#[test]
fn parser_close_in_each_phase() {
    let mut p = ResponseParser::new();
    let r = p.close().unwrap();
    assert_eq!(r.status, 500);
    assert_eq!(r.body, b"Malformed status line in server response".to_vec());
    assert_eq!(r.headers.len(), 0);
    assert!(p.close().is_none());

    let mut p = ResponseParser::new();
    assert!(p.feed(b"HTTP/1.1 200").is_none());
    let r = p.close().unwrap();
    assert_eq!((r.status, r.body.len(), r.headers.len()), (200, 0, 0));

    let mut p = ResponseParser::new();
    assert!(p.feed(b"HTTP/1.1 77").is_none());
    let r = p.close().unwrap();
    assert_eq!(r.body, b"Internal Server Error".to_vec());

    let mut p = ResponseParser::new();
    assert!(p.feed(b"HTTP/1.1 201 Created\r\nA: 1\r\nB").is_none());
    let r = p.close().unwrap();
    assert_eq!((r.status, r.headers.len()), (201, 1));

    let mut p = ResponseParser::new();
    assert!(p.feed(b"HTTP/1.1 201 Created\r\nA: 1\r\nB:").is_none());
    let r = p.close().unwrap();
    assert_eq!((r.status, r.headers.len()), (201, 2));
    assert_eq!(r.headers.get(b"b"), Some(Vec::new()));

    let mut p = ResponseParser::new();
    assert!(p.feed(b"HTTP/1.1 200 OK\r\n\r\ntail").is_none());
    assert_eq!(p.read_failure(), Failure::ReadBodyToClose);
    let r = p.close().unwrap();
    assert_eq!((r.status, r.body), (200, b"tail".to_vec()));
}

#[test]
fn status_is_rejected_as_soon_as_its_line_is_read() {
    let mut p = ResponseParser::new();
    assert!(p.feed(b"HTTP/1.1 700 Odd").is_none());
    let r = p.feed(b"\r").is_none();
    assert!(r);
    let r = p.feed(b"\n").unwrap();
    assert_eq!(r.status, 500);
    assert_eq!(r.body, b"Internal Server Error".to_vec());
    assert_eq!(p.phase(), Phase::Done);
}
