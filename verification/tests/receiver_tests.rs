use pyre::buffer::Buffer;
use pyre::head::Framing;
use pyre::receiver::BodyError;
use pyre::receiver::DataReceiver;
use pyre::receiver::PollBody;

fn buf_of(s: &[u8]) -> Buffer {
    let mut b = Buffer::new();
    b.append(&s.to_vec());
    b
}

const MAX_BODY: u64 = 1 << 20;

#[test]
fn fixed_body_delivered_then_end() {
    let mut r = DataReceiver::new(Framing::ContentLength(5), MAX_BODY);
    let mut b = buf_of(b"Hello next-request");
    match r.poll(&mut b, false) {
        PollBody::Chunk(c) => assert_eq!(c, b"Hello".to_vec()),
        _ => panic!("expected a chunk"),
    }
    assert!(matches!(r.poll(&mut b, false), PollBody::EndOfBody));
    // Pipelined bytes after the body stay in the buffer.
    assert_eq!(b.unread_len(), 13);
}

#[test]
fn fixed_body_would_block_when_empty() {
    let mut r = DataReceiver::new(Framing::ContentLength(5), MAX_BODY);
    let mut b = Buffer::new();
    assert!(matches!(r.poll(&mut b, false), PollBody::WouldBlock));
}

#[test]
fn peer_close_mid_body_is_an_error_not_end() {
    // Content-Length 5 but the peer closes after three bytes: the
    // receiver must fail, never signal a clean end of body.
    let mut r = DataReceiver::new(Framing::ContentLength(5), MAX_BODY);
    let mut b = buf_of(b"abc");
    match r.poll(&mut b, true) {
        PollBody::Chunk(c) => assert_eq!(c, b"abc".to_vec()),
        _ => panic!("expected the buffered bytes first"),
    }
    match r.poll(&mut b, true) {
        PollBody::Fail(e) => assert_eq!(e, BodyError::PeerClosed),
        _ => panic!("a closed peer mid-body must fail"),
    }
    assert!(!r.finished);
}

#[test]
fn no_body_ends_immediately() {
    let mut r = DataReceiver::new(Framing::NoBody, MAX_BODY);
    let mut b = buf_of(b"GET /next");
    assert!(matches!(r.poll(&mut b, false), PollBody::EndOfBody));
    assert_eq!(b.unread_len(), 9);
}

#[test]
fn upgrade_has_no_http1_body() {
    let mut r = DataReceiver::new(Framing::Upgrade, MAX_BODY);
    let mut b = buf_of(b"raw upgrade traffic");
    assert!(matches!(r.poll(&mut b, false), PollBody::EndOfBody));
    // Bytes after the head belong to the upgraded protocol, untouched.
    assert_eq!(b.unread_len(), 19);
}

#[test]
fn chunked_body_decodes_then_ends() {
    let mut r = DataReceiver::new(Framing::Chunked, MAX_BODY);
    let mut b = buf_of(b"4\r\nWiki\r\n0\r\n\r\n");
    match r.poll(&mut b, false) {
        PollBody::Chunk(c) => assert_eq!(c, b"Wiki".to_vec()),
        _ => panic!("expected the decoded chunk"),
    }
    assert!(matches!(r.poll(&mut b, false), PollBody::EndOfBody));
    assert!(r.finished);
    assert_eq!(b.unread_len(), 0);
}

#[test]
fn chunked_peer_close_mid_stream_is_framing_error() {
    let mut r = DataReceiver::new(Framing::Chunked, MAX_BODY);
    let mut b = buf_of(b"4\r\nWi");
    assert!(matches!(r.poll(&mut b, false), PollBody::WouldBlock));
    match r.poll(&mut b, true) {
        PollBody::Fail(e) => assert_eq!(e, BodyError::ChunkFraming),
        _ => panic!("a closed peer mid-chunk must fail"),
    }
}

#[test]
fn chunked_bad_framing_fails() {
    let mut r = DataReceiver::new(Framing::Chunked, MAX_BODY);
    let mut b = buf_of(b"not-hex\r\ndata\r\n");
    match r.poll(&mut b, false) {
        PollBody::Fail(e) => assert_eq!(e, BodyError::ChunkFraming),
        _ => panic!("malformed chunk size must fail"),
    }
}

#[test]
fn oversized_body_is_rejected() {
    let mut r = DataReceiver::new(Framing::ContentLength(100), 10);
    let mut b = buf_of(&vec![b'x'; 100]);
    match r.poll(&mut b, false) {
        PollBody::Fail(e) => assert_eq!(e, BodyError::BodyTooLarge),
        _ => panic!("a body past the maximum must fail"),
    }
}
