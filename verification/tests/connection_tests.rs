use pyre::buffer::Buffer;
use pyre::connection::ConnState;
use pyre::connection::Connection;
use pyre::connection::DataOutcome;
use pyre::head::Framing;
use pyre::head::ParseError;
use pyre::receiver::BodyError;
use pyre::receiver::DataReceiver;
use pyre::receiver::PollBody;
use pyre::server::Server;
use pyre::settings::Settings;

const KEEP_ALIVE_MS: u64 = 60_000;

#[test]
fn pipelined_requests_are_served_in_order() {
    // Two complete requests in one packet: /a is dispatched first; while
    // the application holds the connection the second head is not
    // available; after finish the engine goes straight to parsing the
    // pipelined bytes and dispatches /b on the same connection.
    let mut c = Connection::new(0);
    let packet = b"GET /a HTTP/1.1\r\nHost: x\r\n\r\nGET /b HTTP/1.1\r\nHost: x\r\n\r\n".to_vec();
    match c.on_data(&packet, 1) {
        DataOutcome::Head(h) => assert_eq!(h.target, b"/a".to_vec()),
        _ => panic!("expected the first head"),
    }
    assert_eq!(c.state, ConnState::AwaitingCallback);

    // More readable events while the callback holds the connection only
    // buffer bytes: the second head stays unavailable.
    match c.on_data(&Vec::new(), 2) {
        DataOutcome::Busy => {},
        _ => panic!("no head may be parsed while the callback holds the connection"),
    }

    c.begin_response();
    assert_eq!(c.state, ConnState::StreamingResponse);
    c.finish_response(true, 3, KEEP_ALIVE_MS);
    // Pipelined bytes are already buffered: parsing resumes immediately.
    assert_eq!(c.state, ConnState::ParsingHead);

    match c.on_data(&Vec::new(), 4) {
        DataOutcome::Head(h) => assert_eq!(h.target, b"/b".to_vec()),
        _ => panic!("expected the second head"),
    }
    assert_eq!(c.state, ConnState::AwaitingCallback);
    assert!(c.keep_alive_ok);
}

#[test]
fn clean_finish_without_pipelined_bytes_awaits_request() {
    let mut c = Connection::new(0);
    match c.on_data(&b"GET /a HTTP/1.1\r\nHost: x\r\n\r\n".to_vec(), 1) {
        DataOutcome::Head(_) => {},
        _ => panic!("expected a head"),
    }
    c.begin_response();
    c.finish_response(true, 2, KEEP_ALIVE_MS);
    assert_eq!(c.state, ConnState::AwaitingRequest);
}

#[test]
fn connection_close_request_is_not_reused() {
    let mut c = Connection::new(0);
    match c.on_data(&b"GET /a HTTP/1.1\r\nConnection: close\r\n\r\n".to_vec(), 1) {
        DataOutcome::Head(_) => {},
        _ => panic!("expected a head"),
    }
    assert!(!c.keep_alive_ok);
    c.begin_response();
    c.finish_response(true, 2, KEEP_ALIVE_MS);
    assert_eq!(c.state, ConnState::Closing);
}

#[test]
fn unclean_finish_closes() {
    let mut c = Connection::new(0);
    match c.on_data(&b"GET /a HTTP/1.1\r\nHost: x\r\n\r\n".to_vec(), 1) {
        DataOutcome::Head(_) => {},
        _ => panic!("expected a head"),
    }
    c.begin_response();
    c.finish_response(false, 2, KEEP_ALIVE_MS);
    assert_eq!(c.state, ConnState::Closing);
}

#[test]
fn keep_alive_budget_expiry_closes() {
    let mut c = Connection::new(0);
    match c.on_data(&b"GET /a HTTP/1.1\r\nHost: x\r\n\r\n".to_vec(), 1) {
        DataOutcome::Head(_) => {},
        _ => panic!("expected a head"),
    }
    c.begin_response();
    c.finish_response(true, KEEP_ALIVE_MS + 1, KEEP_ALIVE_MS);
    assert_eq!(c.state, ConnState::Closing);
}

#[test]
fn protocol_error_closes_without_reuse() {
    let mut c = Connection::new(0);
    match c.on_data(&b"BROKEN\r\n\r\n".to_vec(), 1) {
        DataOutcome::Rejected(e) => assert_eq!(e, ParseError::MalformedRequestLine),
        _ => panic!("expected a rejection"),
    }
    assert_eq!(c.state, ConnState::Closing);
    assert!(!c.keep_alive_ok);
}

#[test]
fn body_failure_taints_the_connection() {
    // Content-Length 5 but the peer closes after three body bytes: the
    // receiver reports the error and the connection must not be reused.
    let mut c = Connection::new(0);
    match c.on_data(&b"POST /u HTTP/1.1\r\nContent-Length: 5\r\n\r\nabc".to_vec(), 1) {
        DataOutcome::Head(h) => assert_eq!(h.framing, Framing::ContentLength(5)),
        _ => panic!("expected a head"),
    }
    let mut r = DataReceiver::new(Framing::ContentLength(5), 1 << 20);
    match c.poll_body(&mut r, true) {
        PollBody::Chunk(chunk) => assert_eq!(chunk, b"abc".to_vec()),
        _ => panic!("expected the buffered bytes first"),
    }
    match c.poll_body(&mut r, true) {
        PollBody::Fail(e) => assert_eq!(e, BodyError::PeerClosed),
        _ => panic!("a closed peer mid-body must fail"),
    }
    assert_eq!(c.state, ConnState::Closing);
    assert!(!c.keep_alive_ok);
}

#[test]
fn close_is_idempotent() {
    let mut c = Connection::new(0);
    c.close();
    assert_eq!(c.state, ConnState::Closed);
    c.close();
    assert_eq!(c.state, ConnState::Closed);
    let mut d = Connection::new(0);
    d.peer_hung_up();
    assert_eq!(d.state, ConnState::Closing);
}

fn test_settings() -> Settings {
    Settings::new(false, b"127.0.0.1".to_vec(), 6060, 64, 60, 10)
}

#[test]
fn sweep_evicts_only_idle_connections() {
    // idle_max is 10 s.  One connection last active at t=0, one at
    // t=9000 ms.  At t=10_500 the first has been idle 10.5 s and is
    // closed; the second has been idle 1.5 s and is untouched.
    let mut srv = Server::new(test_settings());
    let a = srv.add_connection(0);
    let b = srv.add_connection(9_000);
    srv.sweep_idle(10_500);
    assert_eq!(srv.conns[a].state, ConnState::Closed);
    assert_eq!(srv.conns[b].state, ConnState::AwaitingRequest);

    // With no further socket activity the second is evicted eventually.
    srv.sweep_idle(19_001);
    assert_eq!(srv.conns[b].state, ConnState::Closed);
}

#[test]
fn sweep_boundary_is_strict() {
    // A connection idle exactly idle_max is kept; a millisecond more and
    // it is closed.
    let mut srv = Server::new(test_settings());
    let a = srv.add_connection(0);
    srv.sweep_idle(10_000);
    assert_eq!(srv.conns[a].state, ConnState::AwaitingRequest);
    srv.sweep_idle(10_001);
    assert_eq!(srv.conns[a].state, ConnState::Closed);
}

#[test]
fn touch_keeps_a_streaming_connection_alive() {
    // A long response keeps refreshing the activity clock on every
    // successful flush, so the sweep never evicts it mid-stream; once the
    // flushes stop, eviction follows as usual.
    let mut srv = Server::new(test_settings());
    let a = srv.add_connection(0);
    srv.conns[a].touch(9_500);
    srv.sweep_idle(10_500);
    assert_eq!(srv.conns[a].state, ConnState::AwaitingRequest);
    srv.sweep_idle(19_501);
    assert_eq!(srv.conns[a].state, ConnState::Closed);
}

#[test]
fn settings_convert_seconds_to_milliseconds() {
    let s = test_settings();
    assert_eq!(s.keep_alive_ms, 60_000);
    assert_eq!(s.idle_max_ms, 10_000);
    assert_eq!(s.backlog, 64);
    assert_eq!(s.port, 6060);
    assert!(!s.use_tls);
}

#[test]
fn buffer_cursors_and_compaction() {
    let mut b = Buffer::new();
    b.append(&b"hello world".to_vec());
    assert_eq!(b.unread_len(), 11);
    assert_eq!(b.get(0), b'h');
    b.consume(6);
    assert_eq!(b.unread_len(), 5);
    assert_eq!(b.get(0), b'w');
    b.compact();
    assert_eq!(b.unread_len(), 5);
    let taken = b.take(5);
    assert_eq!(taken, b"world".to_vec());
    assert_eq!(b.unread_len(), 0);
}
