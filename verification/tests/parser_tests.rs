use pyre::buffer::Buffer;
use pyre::head::Framing;
use pyre::head::ParseError;
use pyre::parser::FeedResult;
use pyre::parser::feed;

fn buf_of(s: &[u8]) -> Buffer {
    let mut b = Buffer::new();
    b.append(&s.to_vec());
    b
}

#[test]
fn parses_simple_get() {
    let b = buf_of(b"GET /a HTTP/1.1\r\nHost: x\r\n\r\n");
    match feed(&b) {
        FeedResult::Complete(h, consumed) => {
            assert_eq!(h.method, b"GET".to_vec());
            assert_eq!(h.target, b"/a".to_vec());
            assert_eq!(h.version, b"HTTP/1.1".to_vec());
            assert_eq!(h.headers.len(), 1);
            assert_eq!(h.headers[0].0, b"Host".to_vec());
            assert_eq!(h.headers[0].1, b"x".to_vec());
            assert_eq!(h.framing, Framing::NoBody);
            assert_eq!(consumed, 28);
            assert!(h.keep_alive());
        },
        _ => panic!("expected a complete head"),
    }
}

#[test]
fn incremental_equals_whole() {
    // Feeding byte by byte: incomplete at every proper prefix, then the
    // same head as the whole message fed at once.
    let msg: &[u8] = b"POST /w HTTP/1.1\r\nContent-Length: 4\r\n\r\n";
    for cut in 0..msg.len() {
        let b = buf_of(&msg[..cut]);
        assert!(matches!(feed(&b), FeedResult::Incomplete));
    }
    let whole = buf_of(msg);
    match feed(&whole) {
        FeedResult::Complete(h, consumed) => {
            assert_eq!(h.method, b"POST".to_vec());
            assert_eq!(h.framing, Framing::ContentLength(4));
            assert_eq!(consumed, msg.len());
        },
        _ => panic!("expected a complete head"),
    }
    // Extra bytes after the head change nothing.
    let mut extended = msg.to_vec();
    extended.extend_from_slice(b"abcdXXXX");
    let b2 = buf_of(&extended);
    match feed(&b2) {
        FeedResult::Complete(h, consumed) => {
            assert_eq!(h.target, b"/w".to_vec());
            assert_eq!(consumed, msg.len());
        },
        _ => panic!("expected a complete head"),
    }
}

#[test]
fn rejects_malformed_request_line() {
    let b = buf_of(b"GETnothing\r\n\r\n");
    assert!(matches!(feed(&b), FeedResult::Reject(ParseError::MalformedRequestLine)));
    let b2 = buf_of(b"GET /a FTP/9.9\r\n\r\n");
    assert!(matches!(feed(&b2), FeedResult::Reject(ParseError::MalformedRequestLine)));
}

#[test]
fn rejects_unsupported_version() {
    let b = buf_of(b"GET /a HTTP/2.0\r\n\r\n");
    assert!(matches!(feed(&b), FeedResult::Reject(ParseError::UnsupportedVersion)));
}

#[test]
fn rejects_malformed_header() {
    let b = buf_of(b"GET /a HTTP/1.1\r\nno-colon-here\r\n\r\n");
    assert!(matches!(feed(&b), FeedResult::Reject(ParseError::MalformedHeader)));
    let b2 = buf_of(b"GET /a HTTP/1.1\r\nbad name: v\r\n\r\n");
    assert!(matches!(feed(&b2), FeedResult::Reject(ParseError::MalformedHeader)));
}

#[test]
fn rejects_too_many_headers() {
    let mut msg = b"GET /a HTTP/1.1\r\n".to_vec();
    for i in 0..101 {
        msg.extend_from_slice(format!("h{}: v\r\n", i).as_bytes());
    }
    msg.extend_from_slice(b"\r\n");
    let b = buf_of(&msg);
    assert!(matches!(feed(&b), FeedResult::Reject(ParseError::TooManyHeaders)));
}

#[test]
fn rejects_oversized_head() {
    let mut msg = b"GET /".to_vec();
    msg.extend(std::iter::repeat(b'a').take(9000));
    let b = buf_of(&msg);
    assert!(matches!(feed(&b), FeedResult::Reject(ParseError::HeadTooLarge)));
}

#[test]
fn rejects_head_whose_terminator_is_past_the_limit() {
    // The terminator exists, but the head it closes is larger than the
    // accepted head size.
    let mut msg = b"GET /".to_vec();
    msg.extend(std::iter::repeat(b'a').take(9000));
    msg.extend_from_slice(b" HTTP/1.1\r\n\r\n");
    let b = buf_of(&msg);
    assert!(matches!(feed(&b), FeedResult::Reject(ParseError::HeadTooLarge)));
}

#[test]
fn rejects_conflicting_framing() {
    let b = buf_of(b"POST /a HTTP/1.1\r\nContent-Length: 3\r\nTransfer-Encoding: chunked\r\n\r\n");
    assert!(matches!(feed(&b), FeedResult::Reject(ParseError::BadTransferEncoding)));
    let b2 = buf_of(b"POST /a HTTP/1.1\r\nTransfer-Encoding: gzip\r\n\r\n");
    assert!(matches!(feed(&b2), FeedResult::Reject(ParseError::BadTransferEncoding)));
}

#[test]
fn content_length_must_be_digits() {
    let b = buf_of(b"POST /a HTTP/1.1\r\nContent-Length: 12x\r\n\r\n");
    assert!(matches!(feed(&b), FeedResult::Reject(ParseError::MalformedHeader)));
    let b2 = buf_of(b"POST /a HTTP/1.1\r\nContent-Length: 99999999999999999999\r\n\r\n");
    assert!(matches!(feed(&b2), FeedResult::Reject(ParseError::MalformedHeader)));
}

#[test]
fn header_names_are_case_insensitive_for_framing() {
    let b = buf_of(b"POST /a HTTP/1.1\r\nCONTENT-LENGTH: 7\r\n\r\n");
    match feed(&b) {
        FeedResult::Complete(h, _) => {
            assert_eq!(h.framing, Framing::ContentLength(7));
            // The header itself is retained as sent.
            assert_eq!(h.headers[0].0, b"CONTENT-LENGTH".to_vec());
        },
        _ => panic!("expected a complete head"),
    }
    let b2 = buf_of(b"POST /a HTTP/1.1\r\nTransfer-Encoding: CHUNKED\r\n\r\n");
    match feed(&b2) {
        FeedResult::Complete(h, _) => assert_eq!(h.framing, Framing::Chunked),
        _ => panic!("expected a complete head"),
    }
}

#[test]
fn duplicate_headers_are_retained_in_order() {
    let b = buf_of(b"GET /a HTTP/1.1\r\nX-K: one\r\nHost: h\r\nX-K: two\r\n\r\n");
    match feed(&b) {
        FeedResult::Complete(h, _) => {
            assert_eq!(h.headers.len(), 3);
            assert_eq!(h.headers[0].1, b"one".to_vec());
            assert_eq!(h.headers[1].0, b"Host".to_vec());
            assert_eq!(h.headers[2].1, b"two".to_vec());
        },
        _ => panic!("expected a complete head"),
    }
}

#[test]
fn header_values_are_trimmed() {
    let b = buf_of(b"GET /a HTTP/1.1\r\nHost: \t spaced out \t\r\n\r\n");
    match feed(&b) {
        FeedResult::Complete(h, _) => {
            assert_eq!(h.headers[0].1, b"spaced out".to_vec());
        },
        _ => panic!("expected a complete head"),
    }
}

#[test]
fn upgrade_header_selects_upgrade_framing() {
    let b = buf_of(b"GET /ws HTTP/1.1\r\nUpgrade: websocket\r\n\r\n");
    match feed(&b) {
        FeedResult::Complete(h, _) => assert_eq!(h.framing, Framing::Upgrade),
        _ => panic!("expected a complete head"),
    }
}

#[test]
fn connection_close_revokes_keep_alive() {
    let b = buf_of(b"GET /a HTTP/1.1\r\nConnection: Close\r\n\r\n");
    match feed(&b) {
        FeedResult::Complete(h, _) => assert!(!h.keep_alive()),
        _ => panic!("expected a complete head"),
    }
}
