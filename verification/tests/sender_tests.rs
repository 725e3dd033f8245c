use pyre::sender::DataSender;
use pyre::sender::SendError;
use pyre::sender::SendFraming;
use pyre::sender::SubmitOutcome;
use pyre::sender::HIGH_WATER;

#[test]
fn declared_length_flushes_exactly_n() {
    // Content-Length 5, five bytes submitted: finish succeeds, and after
    // draining, exactly five body bytes have gone to the socket.
    let mut s = DataSender::new(SendFraming::Declared(5));
    assert!(matches!(s.submit(&b"Hel".to_vec()), SubmitOutcome::Accepted));
    assert!(matches!(s.submit(&b"lo".to_vec()), SubmitOutcome::Accepted));
    assert_eq!(s.finish(), Ok(()));
    assert_eq!(s.pending_len(), 5);
    let first = s.peek_pending(2);
    assert_eq!(first, b"He".to_vec());
    s.mark_flushed(2);
    let rest = s.peek_pending(100);
    assert_eq!(rest, b"llo".to_vec());
    s.mark_flushed(3);
    assert_eq!(s.pending_len(), 0);
    assert_eq!(s.flushed, 5);
}

#[test]
fn length_mismatch_fails_finish() {
    let mut s = DataSender::new(SendFraming::Declared(5));
    assert!(matches!(s.submit(&b"abc".to_vec()), SubmitOutcome::Accepted));
    assert_eq!(s.finish(), Err(SendError::LengthMismatch));
    assert!(!s.finished);

    let mut long = DataSender::new(SendFraming::Declared(2));
    assert!(matches!(long.submit(&b"abc".to_vec()), SubmitOutcome::Accepted));
    assert_eq!(long.finish(), Err(SendError::LengthMismatch));
}

#[test]
fn chunked_framing_wraps_and_terminates() {
    let mut s = DataSender::new(SendFraming::ChunkedSend);
    s.submit(&b"Wiki".to_vec());
    assert_eq!(s.peek_pending(usize::MAX), b"4\r\nWiki\r\n".to_vec());
    // An empty submission adds nothing: it must not fake the terminator.
    s.submit(&Vec::new());
    assert_eq!(s.pending_len(), 9);
    assert_eq!(s.finish(), Ok(()));
    assert_eq!(s.peek_pending(usize::MAX), b"4\r\nWiki\r\n0\r\n\r\n".to_vec());
}

#[test]
fn unframed_body_passes_through() {
    let mut s = DataSender::new(SendFraming::Unframed);
    s.submit(&b"raw".to_vec());
    assert_eq!(s.peek_pending(usize::MAX), b"raw".to_vec());
    assert_eq!(s.finish(), Ok(()));
    assert_eq!(s.pending_len(), 3);
}

#[test]
fn backpressure_past_high_water() {
    let mut s = DataSender::new(SendFraming::Unframed);
    let big = vec![b'x'; HIGH_WATER + 1];
    assert!(matches!(s.submit(&big), SubmitOutcome::Backpressure));
    // Draining clears the pressure for the next submission.
    s.mark_flushed(HIGH_WATER + 1);
    assert!(matches!(s.submit(&b"ok".to_vec()), SubmitOutcome::Accepted));
}

#[test]
fn flush_outcome_signals_remaining_bytes() {
    let mut s = DataSender::new(SendFraming::Declared(6));
    s.submit(&b"abcdef".to_vec());
    assert_eq!(s.finish(), Ok(()));
    // A partial write leaves a remainder buffered: backpressure.
    assert!(matches!(s.mark_flushed(4), SubmitOutcome::Backpressure));
    // The retry flushes the remainder: the pressure is gone.
    assert!(matches!(s.mark_flushed(2), SubmitOutcome::Accepted));
    assert_eq!(s.flushed, 6);
    assert_eq!(s.pending_len(), 0);
}

#[test]
fn submissions_keep_their_order() {
    let mut s = DataSender::new(SendFraming::Declared(6));
    s.submit(&b"ab".to_vec());
    s.submit(&b"cd".to_vec());
    s.submit(&b"ef".to_vec());
    assert_eq!(s.peek_pending(usize::MAX), b"abcdef".to_vec());
}
