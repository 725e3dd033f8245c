//! The per-connection protocol state machine.
//!
//! One `Connection` owns one accepted stream's buffers and drives the
//! lifecycle accept → parse → dispatch → respond → reuse or close.  While
//! the application callback holds the connection (awaiting callback or
//! streaming the response) no head is parsed, so pipelined requests are
//! dispatched strictly in arrival order; when a response finishes with
//! pipelined bytes already buffered, parsing resumes at once without
//! waiting for another readability event.

use vstd::prelude::*;
use crate::buffer::Buffer;
use crate::head::ParseError;
use crate::head::RequestHead;
use crate::head::SpecFeed;
use crate::head::spec_keep_alive;
use crate::head::spec_parse_head;
use crate::parser::FeedResult;
use crate::parser::feed;
use crate::parser::lemma_find_term_bounds;
use crate::receiver::DataReceiver;
use crate::receiver::PollBody;
use crate::receiver::receiver_step;

verus! {

/// Where a connection stands in its lifecycle.
#[derive(Clone, Copy, PartialEq, Eq, Structural, Debug)]
pub enum ConnState {
    /// Registered for readability; nothing buffered.
    AwaitingRequest,
    /// Bytes are buffered but the head is not complete yet.
    ParsingHead,
    /// A head was dispatched; the application holds the connection.
    AwaitingCallback,
    /// The application is producing the response.
    StreamingResponse,
    /// The exchange is over and the connection may serve another.
    /// This stage is transient: ending an exchange resolves it at once,
    /// to parsing when pipelined bytes are buffered, else to awaiting.
    Reusable,
    /// The connection is going away; no further exchange happens.
    Closing,
    /// The socket is shut down and resources are released.
    Closed,
}

/// What one readable event produced.
pub enum DataOutcome {
    /// A complete head, dispatched to the application.
    Head(RequestHead),
    /// The head is not complete yet; wait for more bytes.
    NeedMore,
    /// The head is invalid; the connection is closing without reuse.
    Rejected(ParseError),
    /// The application holds the connection; bytes were buffered only.
    Busy,
}

/// One accepted stream with its buffers and lifecycle bookkeeping.
pub struct Connection {
    /// Lifecycle state.
    pub state: ConnState,
    /// Bytes received and not yet consumed.
    pub inbound: Buffer,
    /// When the last successful read or write happened.
    pub last_activity: u64,
    /// When the connection was accepted.
    pub created_at: u64,
    /// Whether reuse is still permitted (HTTP/1.1 default, revoked by
    /// `Connection: close` or by anything that taints the wire state).
    pub keep_alive_ok: bool,
}

/// Is the connection held by the application callback?  While it is, the
/// engine buffers bytes but never parses the next head.
pub open spec fn busy(st: ConnState) -> bool {
    st == ConnState::AwaitingCallback || st == ConnState::StreamingResponse
}

impl Connection {
    /// Connection well-formedness.
    pub open spec fn wf(self) -> bool {
        self.inbound.wf()
    }

    /// A fresh connection for a stream accepted at `now`.
    pub fn new(now: u64) -> (r: Connection)
        ensures
            r.wf(),
            r.state == ConnState::AwaitingRequest,
            r.inbound.unread() == Seq::<u8>::empty(),
            r.last_activity == now,
            r.created_at == now,
            r.keep_alive_ok,
    {
        Connection {
            state: ConnState::AwaitingRequest,
            inbound: Buffer::new(),
            last_activity: now,
            created_at: now,
            keep_alive_ok: true,
        }
    }

    /// A readable event: buffers the bytes, and parses the next head
    /// unless the application holds the connection.  Dispatching moves
    /// the connection to awaiting-callback; a protocol error moves it to
    /// closing with no reuse.
    pub fn on_data(&mut self, data: &Vec<u8>, now: u64) -> (r: DataOutcome)
        requires
            old(self).wf(),
            old(self).state == ConnState::AwaitingRequest || old(self).state
                == ConnState::ParsingHead || busy(old(self).state),
            old(self).inbound.unread().len() + data@.len() <= usize::MAX,
        ensures
            final(self).wf(),
            final(self).last_activity == now,
            final(self).created_at == old(self).created_at,
            ({
                let s = old(self).inbound.unread() + data@;
                if busy(old(self).state) {
                    &&& r is Busy
                    &&& final(self).inbound.unread() == s
                    &&& final(self).state == old(self).state
                    &&& final(self).keep_alive_ok == old(self).keep_alive_ok
                } else {
                    match spec_parse_head(s) {
                        SpecFeed::Complete { head, consumed } => {
                            &&& r matches DataOutcome::Head(h) && h@ == head
                            &&& final(self).inbound.unread() == s.skip(consumed)
                            &&& final(self).state == ConnState::AwaitingCallback
                            &&& final(self).keep_alive_ok == (old(self).keep_alive_ok
                                && spec_keep_alive(head))
                        },
                        SpecFeed::Incomplete => {
                            &&& r is NeedMore
                            &&& final(self).inbound.unread() == s
                            &&& final(self).state == ConnState::ParsingHead
                            &&& final(self).keep_alive_ok == old(self).keep_alive_ok
                        },
                        SpecFeed::Reject { err } => {
                            &&& r == DataOutcome::Rejected(err)
                            &&& final(self).inbound.unread() == s
                            &&& final(self).state == ConnState::Closing
                            &&& final(self).keep_alive_ok == false
                        },
                    }
                }
            }),
    {
        self.inbound.compact();
        self.inbound.append(data);
        self.last_activity = now;
        if matches!(self.state, ConnState::AwaitingCallback | ConnState::StreamingResponse) {
            return DataOutcome::Busy;
        }
        let ghost s = self.inbound.unread();
        match feed(&self.inbound) {
            FeedResult::Complete(h, consumed) => {
                proof {
                    lemma_find_term_bounds(s, 0);
                }
                self.inbound.consume(consumed);
                self.state = ConnState::AwaitingCallback;
                let ka = h.keep_alive();
                self.keep_alive_ok = self.keep_alive_ok && ka;
                DataOutcome::Head(h)
            },
            FeedResult::Incomplete => {
                self.state = ConnState::ParsingHead;
                DataOutcome::NeedMore
            },
            FeedResult::Reject(e) => {
                self.state = ConnState::Closing;
                self.keep_alive_ok = false;
                DataOutcome::Rejected(e)
            },
        }
    }

    /// The application started producing the response.
    pub fn begin_response(&mut self)
        requires
            old(self).state == ConnState::AwaitingCallback,
        ensures
            *final(self) == (Connection { state: ConnState::StreamingResponse, ..*old(self) }),
    {
        self.state = ConnState::StreamingResponse;
    }

    /// Streams body bytes to the application out of this connection's
    /// inbound buffer.  A body failure taints the connection: it moves to
    /// closing and is never reused.
    pub fn poll_body(&mut self, rcv: &mut DataReceiver, peer_closed: bool) -> (r: PollBody)
        requires
            old(self).wf(),
            old(rcv).wf(),
            !old(rcv).finished,
        ensures
            final(self).wf(),
            final(rcv).wf(),
            receiver_step(
                *old(rcv),
                old(self).inbound.unread(),
                peer_closed,
                *final(rcv),
                final(self).inbound.unread(),
                r,
            ),
            final(self).last_activity == old(self).last_activity,
            final(self).created_at == old(self).created_at,
            final(self).state == (if r is Fail {
                ConnState::Closing
            } else {
                old(self).state
            }),
            final(self).keep_alive_ok == (old(self).keep_alive_ok && !(r is Fail)),
    {
        let r = rcv.poll(&mut self.inbound, peer_closed);
        if matches!(r, PollBody::Fail(_)) {
            self.state = ConnState::Closing;
            self.keep_alive_ok = false;
        }
        r
    }

    /// The response is fully framed and flushed: the exchange ends.  A
    /// clean exchange on a reusable connection within its keep-alive
    /// budget goes back to serving requests — straight to parsing when
    /// pipelined bytes are already buffered, without waiting for another
    /// readability event; anything else closes.
    pub fn finish_response(&mut self, clean: bool, now: u64, keep_alive_ms: u64)
        requires
            old(self).wf(),
            busy(old(self).state),
            now >= old(self).created_at,
        ensures
            final(self).wf(),
            final(self).inbound.unread() == old(self).inbound.unread(),
            final(self).last_activity == now,
            final(self).created_at == old(self).created_at,
            final(self).keep_alive_ok == old(self).keep_alive_ok,
            final(self).state == (if !(clean && old(self).keep_alive_ok && now - old(
                self,
            ).created_at <= keep_alive_ms) {
                ConnState::Closing
            } else if old(self).inbound.unread().len() > 0 {
                ConnState::ParsingHead
            } else {
                ConnState::AwaitingRequest
            }),
    {
        self.last_activity = now;
        let keep = clean && self.keep_alive_ok && now - self.created_at <= keep_alive_ms;
        if !keep {
            self.state = ConnState::Closing;
        } else if self.inbound.unread_len() > 0 {
            self.state = ConnState::ParsingHead;
        } else {
            self.state = ConnState::AwaitingRequest;
        }
    }

    /// A successful read or write happened at `now`: refreshes the
    /// activity clock the idle sweep compares against, and nothing else.
    /// The driver calls this after each successful mid-response flush.
    pub fn touch(&mut self, now: u64)
        ensures
            *final(self) == (Connection { last_activity: now, ..*old(self) }),
    {
        self.last_activity = now;
    }

    /// The peer disconnected: an open connection moves to closing.
    pub fn peer_hung_up(&mut self)
        ensures
            *final(self) == (Connection {
                state: if old(self).state == ConnState::Closed {
                    ConnState::Closed
                } else {
                    ConnState::Closing
                },
                keep_alive_ok: false,
                ..*old(self)
            }),
    {
        if !matches!(self.state, ConnState::Closed) {
            self.state = ConnState::Closing;
        }
        self.keep_alive_ok = false;
    }

    /// Releases the connection.  Idempotent: closing a closed connection
    /// changes nothing and is not an error.
    pub fn close(&mut self)
        ensures
            *final(self) == (Connection { state: ConnState::Closed, ..*old(self) }),
    {
        self.state = ConnState::Closed;
    }

    /// Has this connection sat without activity for longer than allowed?
    pub open spec fn spec_idle_exceeded(self, now: u64, idle_max_ms: u64) -> bool {
        now > self.last_activity + idle_max_ms
    }

    /// The eviction test the periodic sweep applies.
    pub fn idle_exceeded(&self, now: u64, idle_max_ms: u64) -> (r: bool)
        ensures
            r == self.spec_idle_exceeded(now, idle_max_ms),
    {
        if now > self.last_activity {
            now - self.last_activity > idle_max_ms
        } else {
            false
        }
    }
}

} // verus!
