//! The data sender: buffers response bytes under the declared framing
//! and flushes them under flow control.
//!
//! Submitted bytes are framed (raw under a declared content length or a
//! connection-close response, chunk-encoded under chunked framing) into
//! an outbound buffer.  The socket's owner attempts the immediate
//! non-blocking flush of the pending bytes and reports it with
//! `mark_flushed`, whose result is the backpressure signal: pressure
//! exactly when a remainder stays buffered after the attempt.  `submit`
//! warns earlier, at a high-water mark, when flushes are deferred.
//! `finish` validates a declared content length and fails with a length
//! mismatch if the application submitted a different number of bytes.

use vstd::prelude::*;
use crate::buffer::Buffer;
use crate::chunked::encode_chunk;
use crate::chunked::encode_last;
use crate::chunked::spec_encode_chunk;
use crate::chunked::spec_last_chunk;

verus! {

/// Outbound bytes buffered past this mark signal backpressure.
pub const HIGH_WATER: usize = 65536;

/// How the response body is framed on the wire.
#[derive(Clone, Copy, PartialEq, Eq, Structural, Debug)]
pub enum SendFraming {
    /// A content length was declared; exactly this many body bytes are owed.
    Declared(u64),
    /// The body is chunk-encoded; a terminating chunk ends it.
    ChunkedSend,
    /// No length was declared; the body runs until the connection closes.
    Unframed,
}

/// Whether the caller may keep submitting at full rate.
#[derive(Clone, Copy, PartialEq, Eq, Structural, Debug)]
pub enum SubmitOutcome {
    /// The bytes are buffered; keep going.
    Accepted,
    /// The bytes are buffered, but the outbound buffer is past the
    /// high-water mark: pause until it drains.
    Backpressure,
}

/// Why finishing a response failed.
#[derive(Clone, Copy, PartialEq, Eq, Structural, Debug)]
pub enum SendError {
    /// The submitted body length differs from the declared content length.
    LengthMismatch,
}

/// Buffers and frames one response body.
pub struct DataSender {
    /// The framing declared for this response.
    pub framing: SendFraming,
    /// Body bytes the application has submitted.
    pub submitted: u64,
    /// Framed bytes already drained to the socket.
    pub flushed: u64,
    /// The response has been finished successfully.
    pub finished: bool,
    /// The outbound buffer holding framed, unflushed bytes.
    pub out: Buffer,
}

impl DataSender {
    /// The framed bytes buffered and not yet drained to the socket.
    pub open spec fn pending(self) -> Seq<u8> {
        self.out.unread()
    }

    /// Sender well-formedness.  Under a declared content length every
    /// submitted byte is framed as itself, so the bytes flushed plus the
    /// bytes still pending account for exactly the submitted body; a
    /// finished declared-length response has submitted exactly its
    /// declared length.
    pub open spec fn wf(self) -> bool {
        &&& self.out_wf()
        &&& match self.framing {
            SendFraming::Declared(n) => self.flushed + self.pending().len() == self.submitted
                && (self.finished ==> self.submitted == n),
            _ => true,
        }
    }

    /// The outbound buffer's own invariant.
    pub open spec fn out_wf(self) -> bool {
        self.out.wf()
    }

    /// A sender for one response under the given framing.
    pub fn new(framing: SendFraming) -> (r: DataSender)
        ensures
            r.wf(),
            r.framing == framing,
            r.submitted == 0,
            r.flushed == 0,
            r.finished == false,
            r.pending() == Seq::<u8>::empty(),
    {
        DataSender {
            framing,
            submitted: 0,
            flushed: 0,
            finished: false,
            out: Buffer::new(),
        }
    }

    /// What submitting `data` appends to the outbound buffer.
    pub open spec fn framed_of(self, data: Seq<u8>) -> Seq<u8> {
        match self.framing {
            SendFraming::ChunkedSend => if data.len() > 0 {
                spec_encode_chunk(data)
            } else {
                Seq::empty()
            },
            _ => data,
        }
    }

    /// Buffers one piece of the response body, framed as declared.
    /// Submitted pieces are never reordered.  The socket's owner then
    /// attempts the immediate non-blocking flush of the pending bytes and
    /// reports it with `mark_flushed`, whose result is the backpressure
    /// signal; the outcome here is an earlier warning that fires once the
    /// outbound buffer is past the high-water mark, bounding buffering
    /// when flushes are deferred.
    pub fn submit(&mut self, data: &Vec<u8>) -> (r: SubmitOutcome)
        requires
            old(self).wf(),
            !old(self).finished,
            old(self).submitted + data@.len() <= u64::MAX,
            old(self).pending().len() + data@.len() + 32 <= usize::MAX,
        ensures
            final(self).wf(),
            final(self).framing == old(self).framing,
            final(self).finished == old(self).finished,
            final(self).flushed == old(self).flushed,
            final(self).submitted == old(self).submitted + data@.len(),
            final(self).pending() == old(self).pending() + old(self).framed_of(data@),
            r == (if final(self).pending().len() > HIGH_WATER {
                SubmitOutcome::Backpressure
            } else {
                SubmitOutcome::Accepted
            }),
    {
        self.out.compact();
        match self.framing {
            SendFraming::ChunkedSend => {
                if data.len() > 0 {
                    let framed = encode_chunk(data);
                    proof {
                        crate::chunked::lemma_pow16_values();
                        assert(crate::chunked::pow16(16) == 0x10000000000000000);
                        crate::chunked::lemma_hex_rep_len(data@.len() as int, 16);
                    }
                    self.out.append(&framed);
                }
                proof {
                    if data@.len() == 0 {
                        assert(self.pending() =~= old(self).pending() + old(self).framed_of(
                            data@,
                        ));
                    }
                }
            },
            _ => {
                self.out.append(data);
            },
        }
        self.submitted = self.submitted + (data.len() as u64);
        if self.out.unread_len() > HIGH_WATER {
            SubmitOutcome::Backpressure
        } else {
            SubmitOutcome::Accepted
        }
    }

    /// Marks the response complete.  Under chunked framing the
    /// terminating chunk is appended; under a declared content length the
    /// submitted total is validated against the declaration, and a
    /// mismatch fails — the connection must then close, since the wire
    /// state is no longer trustworthy.
    pub fn finish(&mut self) -> (r: Result<(), SendError>)
        requires
            old(self).wf(),
            !old(self).finished,
            old(self).pending().len() + 8 <= usize::MAX,
        ensures
            final(self).wf(),
            final(self).framing == old(self).framing,
            final(self).submitted == old(self).submitted,
            final(self).flushed == old(self).flushed,
            match old(self).framing {
                SendFraming::Declared(n) => {
                    &&& r == (if old(self).submitted == n {
                        Ok::<(), SendError>(())
                    } else {
                        Err::<(), SendError>(SendError::LengthMismatch)
                    })
                    &&& final(self).finished == (old(self).submitted == n)
                    &&& final(self).pending() == old(self).pending()
                },
                SendFraming::ChunkedSend => r is Ok && final(self).finished
                    && final(self).pending() == old(self).pending() + spec_last_chunk(),
                SendFraming::Unframed => r is Ok && final(self).finished && final(self).pending()
                    == old(self).pending(),
            },
    {
        match self.framing {
            SendFraming::Declared(n) => {
                if self.submitted == n {
                    self.finished = true;
                    Ok(())
                } else {
                    Err(SendError::LengthMismatch)
                }
            },
            SendFraming::ChunkedSend => {
                self.out.compact();
                let last = encode_last();
                self.out.append(&last);
                self.finished = true;
                Ok(())
            },
            SendFraming::Unframed => {
                self.finished = true;
                Ok(())
            },
        }
    }

    /// How many framed bytes await flushing.
    pub fn pending_len(&self) -> (r: usize)
        requires
            self.out_wf(),
        ensures
            r == self.pending().len(),
    {
        self.out.unread_len()
    }

    /// Copies up to `max` pending bytes for the caller to write to the
    /// socket, oldest first; the buffer is not consumed until the caller
    /// reports the write with `mark_flushed`.
    pub fn peek_pending(&self, max: usize) -> (r: Vec<u8>)
        requires
            self.out_wf(),
        ensures
            r@ == self.pending().take(
                if max < self.pending().len() {
                    max as int
                } else {
                    self.pending().len() as int
                },
            ),
    {
        let avail = self.out.unread_len();
        let k = if max < avail {
            max
        } else {
            avail
        };
        crate::parser::copy_range(&self.out, 0, k)
    }

    /// Records the outcome of the immediate non-blocking flush attempt:
    /// the socket accepted `n` pending bytes, in order.  The result is
    /// the flow-control signal: backpressure exactly when a remainder
    /// stays buffered after the attempt, so the caller must pause and
    /// retry after the next writability event; a later retry flushes the
    /// remainder the same way.
    pub fn mark_flushed(&mut self, n: usize) -> (r: SubmitOutcome)
        requires
            old(self).wf(),
            n <= old(self).pending().len(),
            old(self).flushed + n <= u64::MAX,
        ensures
            final(self).wf(),
            final(self).framing == old(self).framing,
            final(self).submitted == old(self).submitted,
            final(self).finished == old(self).finished,
            final(self).flushed == old(self).flushed + n,
            final(self).pending() == old(self).pending().skip(n as int),
            r == (if final(self).pending().len() > 0 {
                SubmitOutcome::Backpressure
            } else {
                SubmitOutcome::Accepted
            }),
    {
        self.out.consume(n);
        self.flushed = self.flushed + (n as u64);
        if self.out.unread_len() > 0 {
            SubmitOutcome::Backpressure
        } else {
            SubmitOutcome::Accepted
        }
    }
}

/// Exact content-length delivery: a sender that declared `n` body bytes,
/// finished successfully, and drained its outbound buffer has flushed
/// exactly `n` bytes to the socket — no more, no fewer.
pub proof fn lemma_declared_length_flushed(s: DataSender, n: u64)
    requires
        s.wf(),
        s.framing == SendFraming::Declared(n),
        s.finished,
        s.pending().len() == 0,
    ensures
        s.flushed == n,
{
}

} // verus!
