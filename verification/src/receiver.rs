//! The data receiver: streams request-body bytes to the application
//! under the framing policy fixed at parse time.
//!
//! Each poll hands out the next available chunk, signals the end of the
//! body, or reports that nothing can be had without blocking.  A peer
//! that closes before the declared body is complete is an error, never a
//! silent end of body.

use vstd::prelude::*;
use crate::buffer::Buffer;
use crate::chunked::SpecChunkStep;
use crate::chunked::decode_step;
use crate::chunked::spec_parse_chunk;
use crate::chunked::ChunkStep;
use crate::head::Framing;

verus! {

/// Why body streaming failed.
#[derive(Clone, Copy, PartialEq, Eq, Structural, Debug)]
pub enum BodyError {
    /// Malformed chunk framing, or the peer closed mid-chunk.
    ChunkFraming,
    /// The peer closed before the declared body was complete.
    PeerClosed,
    /// The body exceeds the configured maximum.
    BodyTooLarge,
}

/// What one poll of the receiver yields.
pub enum PollBody {
    /// The next body chunk, in wire order.
    Chunk(Vec<u8>),
    /// The body is complete.
    EndOfBody,
    /// No bytes are available; retry after the next readability event.
    WouldBlock,
    /// The body cannot be completed; the connection must not be reused.
    Fail(BodyError),
}

/// Streams body bytes out of a connection's inbound buffer.
pub struct DataReceiver {
    /// The framing policy the parsed head declared.
    pub mode: Framing,
    /// Body bytes still owed under a declared content length.
    pub remaining: u64,
    /// Body bytes already handed to the application.
    pub delivered: u64,
    /// Largest body this receiver accepts.
    pub max_body: u64,
    /// The end of the body has been signalled.
    pub finished: bool,
}

impl DataReceiver {
    /// Receiver well-formedness: bookkeeping is consistent with the mode.
    pub open spec fn wf(self) -> bool {
        &&& self.delivered <= self.max_body
        &&& match self.mode {
            Framing::ContentLength(n) => self.delivered + self.remaining == n,
            _ => true,
        }
    }

    /// A receiver for one request body under the given policy.
    pub fn new(mode: Framing, max_body: u64) -> (r: DataReceiver)
        ensures
            r.wf(),
            r.mode == mode,
            r.max_body == max_body,
            r.delivered == 0,
            r.finished == false,
            (mode matches Framing::ContentLength(n) ==> r.remaining == n),
    {
        let remaining: u64 = match mode {
            Framing::ContentLength(n) => n,
            _ => 0,
        };
        DataReceiver { mode, remaining, delivered: 0, max_body, finished: false }
    }
}

/// The receiver transition relation: how one poll relates the old
/// receiver and buffer to the new ones and the outcome.
pub open spec fn receiver_step(
    pre: DataReceiver,
    preb: Seq<u8>,
    closed: bool,
    post: DataReceiver,
    postb: Seq<u8>,
    r: PollBody,
) -> bool {
    match pre.mode {
        Framing::ContentLength(n) => receiver_step_fixed(pre, preb, closed, post, postb, r),
        Framing::Chunked => receiver_step_chunked(pre, preb, closed, post, postb, r),
        _ => r == PollBody::EndOfBody && post == (DataReceiver { finished: true, ..pre })
            && postb == preb,
    }
}

/// One poll under a declared content length: exactly `remaining` more
/// bytes belong to this body; a closed peer before that is an error.
pub open spec fn receiver_step_fixed(
    pre: DataReceiver,
    preb: Seq<u8>,
    closed: bool,
    post: DataReceiver,
    postb: Seq<u8>,
    r: PollBody,
) -> bool {
    if pre.remaining == 0 {
        r == PollBody::EndOfBody && post == (DataReceiver { finished: true, ..pre }) && postb
            == preb
    } else if preb.len() == 0 {
        post == pre && postb == preb && r == (if closed {
            PollBody::Fail(BodyError::PeerClosed)
        } else {
            PollBody::WouldBlock
        })
    } else {
        let k = if preb.len() < pre.remaining { preb.len() as int } else { pre.remaining as int };
        if pre.delivered + k > pre.max_body {
            r == PollBody::Fail(BodyError::BodyTooLarge) && post == pre && postb == preb
        } else {
            match r {
                PollBody::Chunk(c) => c@ == preb.take(k) && postb == preb.skip(k) && post == (
                DataReceiver {
                    remaining: (pre.remaining - k) as u64,
                    delivered: (pre.delivered + k) as u64,
                    ..pre
                }),
                _ => false,
            }
        }
    }
}

/// One poll under chunked framing: the buffer is examined exactly as the
/// chunk decoding model says; a closed peer mid-stream is a framing error.
pub open spec fn receiver_step_chunked(
    pre: DataReceiver,
    preb: Seq<u8>,
    closed: bool,
    post: DataReceiver,
    postb: Seq<u8>,
    r: PollBody,
) -> bool {
    match spec_parse_chunk(preb) {
        SpecChunkStep::Data { data, consumed } => if pre.delivered + data.len() > pre.max_body {
            r == PollBody::Fail(BodyError::BodyTooLarge) && post == pre && postb == preb
        } else {
            match r {
                PollBody::Chunk(c) => c@ == data && postb == preb.skip(consumed) && post == (
                DataReceiver { delivered: (pre.delivered + data.len()) as u64, ..pre }),
                _ => false,
            }
        },
        SpecChunkStep::End { consumed } => r == PollBody::EndOfBody && postb == preb.skip(consumed)
            && post == (DataReceiver { finished: true, ..pre }),
        SpecChunkStep::Incomplete => post == pre && postb == preb && r == (if closed {
            PollBody::Fail(BodyError::ChunkFraming)
        } else {
            PollBody::WouldBlock
        }),
        SpecChunkStep::Bad => r == PollBody::Fail(BodyError::ChunkFraming) && post == pre && postb
            == preb,
    }
}

impl DataReceiver {
    /// One poll: yields the next chunk, the end of the body, a would-block
    /// signal, or the error the framing policy dictates.
    pub fn poll(&mut self, buf: &mut Buffer, peer_closed: bool) -> (r: PollBody)
        requires
            old(self).wf(),
            old(buf).wf(),
            !old(self).finished,
        ensures
            final(self).wf(),
            final(buf).wf(),
            receiver_step(
                *old(self),
                old(buf).unread(),
                peer_closed,
                *final(self),
                final(buf).unread(),
                r,
            ),
    {
        match self.mode {
            Framing::ContentLength(_n) => {
                if self.remaining == 0 {
                    self.finished = true;
                    return PollBody::EndOfBody;
                }
                let avail = buf.unread_len();
                if avail == 0 {
                    if peer_closed {
                        return PollBody::Fail(BodyError::PeerClosed);
                    } else {
                        return PollBody::WouldBlock;
                    }
                }
                let k: usize = if (avail as u64) < self.remaining {
                    avail
                } else {
                    self.remaining as usize
                };
                if (k as u64) > self.max_body - self.delivered {
                    return PollBody::Fail(BodyError::BodyTooLarge);
                }
                let c = buf.take(k);
                self.remaining = self.remaining - (k as u64);
                self.delivered = self.delivered + (k as u64);
                PollBody::Chunk(c)
            },
            Framing::Chunked => {
                let step = decode_step(buf);
                match step {
                    ChunkStep::Data(d, consumed) => {
                        if (d.len() as u64) > self.max_body - self.delivered {
                            return PollBody::Fail(BodyError::BodyTooLarge);
                        }
                        buf.consume(consumed);
                        self.delivered = self.delivered + (d.len() as u64);
                        PollBody::Chunk(d)
                    },
                    ChunkStep::EndOfChunks(consumed) => {
                        proof {
                            let s = buf.unread();
                            crate::parser::lemma_find2_bounds(s, 0, crate::CR, crate::LF);
                            crate::parser::lemma_find_term_bounds(
                                s,
                                crate::head::find2(s, 0, crate::CR, crate::LF)->Some_0,
                            );
                        }
                        buf.consume(consumed);
                        self.finished = true;
                        PollBody::EndOfBody
                    },
                    ChunkStep::NeedMore => {
                        if peer_closed {
                            PollBody::Fail(BodyError::ChunkFraming)
                        } else {
                            PollBody::WouldBlock
                        }
                    },
                    ChunkStep::Bad => PollBody::Fail(BodyError::ChunkFraming),
                }
            },
            _ => {
                self.finished = true;
                PollBody::EndOfBody
            },
        }
    }
}

} // verus!
