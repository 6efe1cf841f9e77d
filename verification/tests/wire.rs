//! Tests of the byte-level wire protocol: parsing requests, encoding
//! responses, and reading encoded responses back.

use vr_lib::ParseError;
use vr_lib::Request;
use vr_lib::Response;
use vr_lib::parse_as_response;

fn padded(req: &[u8]) -> Vec<u8> {
    let mut buf = vec![0u8; vr_lib::MAX_REQ_SIZE];
    buf[..req.len()].copy_from_slice(req);
    buf
}

#[test]
fn parse_simple_get() {
    let req = Request::from_utf8(b"GET / HTTP/1.1\r\n\r\n").unwrap();
    assert_eq!(req.request_line, b"GET / HTTP/1.1".to_vec());
    assert!(req.headers.is_empty());
    assert!(req.body.is_empty());
}

#[test]
fn parse_nonempty_request_line_or_error() {
    // Parser total-ness: a parse either succeeds with a non-empty request
    // line or fails; it never yields an empty request line.
    let inputs: Vec<&[u8]> = vec![
        b"GET / HTTP/1.1\r\n\r\n",
        b"X\r\n",
        b"no terminator at all",
        b"\r\nGET / HTTP/1.1\r\n\r\n",
        b"",
    ];
    for input in inputs {
        match Request::from_utf8(input) {
            Ok(req) => assert!(!req.request_line.is_empty()),
            Err(_) => {},
        }
    }
}

#[test]
fn parse_headers_trimmed_in_order() {
    let req = Request::from_utf8(b"GET / HTTP/1.1\r\nHost:  example.com  \r\nAccept: */*\r\n\r\n")
        .unwrap();
    assert_eq!(req.headers.len(), 2);
    assert_eq!(req.headers[0].0, b"Host".to_vec());
    assert_eq!(req.headers[0].1, b"example.com".to_vec());
    assert_eq!(req.headers[1].0, b"Accept".to_vec());
    assert_eq!(req.headers[1].1, b"*/*".to_vec());
}

#[test]
fn parse_body_length_matches_declared() {
    // Body-length contract: Content-Length N with N bytes available gives a
    // body of exactly N bytes.
    let req = Request::from_utf8(b"POST / HTTP/1.1\r\nContent-Length: 5\r\n\r\nhello world")
        .unwrap();
    assert_eq!(req.body.len(), 5);
    assert_eq!(req.body, b"hello".to_vec());
}

#[test]
fn parse_nul_fill_does_not_corrupt() {
    let buf = padded(b"POST / HTTP/1.1\r\nContent-Length: 4\r\n\r\nabcd");
    let req = Request::from_utf8(&buf).unwrap();
    assert_eq!(req.request_line, b"POST / HTTP/1.1".to_vec());
    assert_eq!(req.headers.len(), 1);
    assert_eq!(req.body, b"abcd".to_vec());
}

#[test]
fn parse_zero_content_length_gives_empty_body() {
    let req = Request::from_utf8(b"POST / HTTP/1.1\r\nContent-Length: 0\r\n\r\n").unwrap();
    assert!(req.body.is_empty());
}

#[test]
fn parse_error_invalid_data_without_terminator() {
    assert_eq!(Request::from_utf8(b"no terminator pair").err(), Some(ParseError::InvalidData));
    assert_eq!(Request::from_utf8(b"").err(), Some(ParseError::InvalidData));
    assert_eq!(
        Request::from_utf8(b"\r\nGET / HTTP/1.1\r\n\r\n").err(),
        Some(ParseError::InvalidData)
    );
}

#[test]
fn parse_error_header_without_colon() {
    assert_eq!(
        Request::from_utf8(b"GET / HTTP/1.1\r\nbroken header line\r\n\r\n").err(),
        Some(ParseError::HeaderWithoutColon)
    );
}

#[test]
fn parse_error_bad_content_length() {
    assert_eq!(
        Request::from_utf8(b"GET / HTTP/1.1\r\nContent-Length: abc\r\n\r\n").err(),
        Some(ParseError::BadContentLength)
    );
    assert_eq!(
        Request::from_utf8(b"GET / HTTP/1.1\r\nContent-Length: 99999999999999999999999\r\n\r\n")
            .err(),
        Some(ParseError::BadContentLength)
    );
}

#[test]
fn parse_error_body_out_of_range() {
    assert_eq!(
        Request::from_utf8(b"POST / HTTP/1.1\r\nContent-Length: 99\r\n\r\nhi").err(),
        Some(ParseError::BodyOutOfRange)
    );
}

#[test]
fn parse_content_length_leading_zeros() {
    let req = Request::from_utf8(b"POST / HTTP/1.1\r\nContent-Length: 007\r\n\r\nabcdefgh")
        .unwrap();
    assert_eq!(req.body, b"abcdefg".to_vec());
}

#[test]
fn parse_declared_body_without_boundary_is_out_of_range() {
    // A declared body needs the blank terminator line; without one there
    // are no body bytes to read.
    assert_eq!(
        Request::from_utf8(b"POST / HTTP/1.1\r\nContent-Length: 3\r\nabc").err(),
        Some(ParseError::BodyOutOfRange)
    );
}

#[test]
fn parse_first_content_length_wins() {
    let req = Request::from_utf8(
        b"POST / HTTP/1.1\r\nContent-Length: 3\r\nContent-Length: 5\r\n\r\nabcdefgh",
    )
    .unwrap();
    assert_eq!(req.body, b"abc".to_vec());
}

#[test]
fn empty_request_and_response_are_empty() {
    let req = Request::empty();
    assert!(req.request_line.is_empty());
    assert!(req.headers.is_empty());
    assert!(req.body.is_empty());
    let res = Response::empty();
    assert!(res.status_line.is_empty());
    assert!(res.headers.is_empty());
    assert!(res.body.is_empty());
}

#[test]
fn encode_exact_bytes() {
    let res = Response {
        status_line: b"HTTP/1.1 200 OK".to_vec(),
        headers: vec![(b"Content-Type".to_vec(), b"application/json".to_vec())],
        body: b"{}".to_vec(),
    };
    assert_eq!(
        res.as_bytes(),
        b"HTTP/1.1 200 OK\r\nContent-Type: application/json\r\n\r\n{}".to_vec()
    );
}

#[test]
fn encode_empty_headers_and_body() {
    let res = Response {
        status_line: b"HTTP/1.1 404 NOT FOUND".to_vec(),
        headers: Vec::new(),
        body: Vec::new(),
    };
    assert_eq!(res.as_bytes(), b"HTTP/1.1 404 NOT FOUND\r\n\r\n".to_vec());
}

#[test]
fn response_round_trip_reconstructs_exactly() {
    // Round trip: parsing an encoded response reconstructs the status
    // line, the header pairs in order, and the body bytes exactly.
    let res = Response {
        status_line: b"HTTP/1.1 200 OK".to_vec(),
        headers: vec![
            (b"Content-Type".to_vec(), b"application/json".to_vec()),
            (b"X-Data".to_vec(), b"a:b:c".to_vec()),
        ],
        body: b"body with\r\nterminators\r\n\r\ninside".to_vec(),
    };
    let bytes = res.as_bytes();
    let back = parse_as_response(&bytes).unwrap();
    assert_eq!(back.status_line, res.status_line);
    assert_eq!(back.headers, res.headers);
    assert_eq!(back.body, res.body);
}

#[test]
fn response_round_trip_empty_value() {
    let res = Response {
        status_line: b"HTTP/1.1 204 NO CONTENT".to_vec(),
        headers: vec![(b"X-Empty".to_vec(), b"".to_vec())],
        body: Vec::new(),
    };
    let bytes = res.as_bytes();
    let back = parse_as_response(&bytes).unwrap();
    assert_eq!(back.status_line, res.status_line);
    assert_eq!(back.headers, res.headers);
    assert_eq!(back.body, res.body);
}
