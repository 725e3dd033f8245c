//! The request head and the byte-level model of HTTP/1 head parsing.
//!
//! Parsing is specified as a pure function of the buffer contents: a head
//! is everything through the first empty line (`\r\n\r\n`), split into a
//! request line and header lines, with the body framing policy derived
//! from the `content-length` and `transfer-encoding` headers.

use vstd::prelude::*;
use crate::CR;
use crate::LF;

verus! {

/// Space, the request-line separator.
pub const SP: u8 = 32;

/// Horizontal tab, optional whitespace around header values.
pub const HTAB: u8 = 9;

/// Header name/value separator.
pub const COLON: u8 = 58;

/// Largest accepted head (request line plus headers plus terminator), in bytes.
pub const MAX_HEAD_SIZE: usize = 8192;

/// Largest accepted number of header lines.
pub const MAX_HEADERS: usize = 100;

/// How the request body is framed after the head.
#[derive(Clone, Copy, PartialEq, Eq, Structural, Debug)]
pub enum Framing {
    /// A body of exactly this many bytes follows.
    ContentLength(u64),
    /// The body is chunked transfer encoded.
    Chunked,
    /// No body follows the head.
    NoBody,
    /// A protocol upgrade was requested; no HTTP/1 body framing applies.
    Upgrade,
}

/// Why a head was rejected.
#[derive(Clone, Copy, PartialEq, Eq, Structural, Debug)]
pub enum ParseError {
    /// The request line is not `method SP target SP version`.
    MalformedRequestLine,
    /// A header line has no name, or whitespace inside the name.
    MalformedHeader,
    /// No head terminator within the accepted head size.
    HeadTooLarge,
    /// More header lines than accepted.
    TooManyHeaders,
    /// Both content-length and transfer-encoding present, or an
    /// unsupported transfer coding.
    BadTransferEncoding,
    /// The version is `HTTP/` something other than 1.1.
    UnsupportedVersion,
}

/// A parsed request head: immutable once produced.
pub struct RequestHead {
    pub method: Vec<u8>,
    pub target: Vec<u8>,
    pub version: Vec<u8>,
    /// Headers in wire order; duplicate names are retained.
    pub headers: Vec<(Vec<u8>, Vec<u8>)>,
    pub framing: Framing,
}

/// The mathematical value of a request head.
pub ghost struct SpecHead {
    pub method: Seq<u8>,
    pub target: Seq<u8>,
    pub version: Seq<u8>,
    pub headers: Seq<(Seq<u8>, Seq<u8>)>,
    pub framing: Framing,
}

/// The mathematical value of a header vector.
pub open spec fn headers_view(hs: Seq<(Vec<u8>, Vec<u8>)>) -> Seq<(Seq<u8>, Seq<u8>)> {
    hs.map_values(|p: (Vec<u8>, Vec<u8>)| (p.0@, p.1@))
}

impl RequestHead {
    /// The head as its mathematical value.
    pub open spec fn view(self) -> SpecHead {
        SpecHead {
            method: self.method@,
            target: self.target@,
            version: self.version@,
            headers: headers_view(self.headers@),
            framing: self.framing,
        }
    }
}

/// What one feed of the parser yields, as a mathematical value.
pub ghost enum SpecFeed {
    /// A complete head; `consumed` bytes of the buffer belong to it.
    Complete { head: SpecHead, consumed: int },
    /// The terminator has not arrived yet.
    Incomplete,
    /// The head is invalid; the connection must close without reuse.
    Reject { err: ParseError },
}

/// ASCII lower-casing of one byte.
pub open spec fn lower(b: u8) -> u8 {
    if 65 <= b <= 90 {
        (b + 32) as u8
    } else {
        b
    }
}

/// ASCII lower-casing of a byte sequence.
pub open spec fn lower_seq(s: Seq<u8>) -> Seq<u8> {
    s.map_values(|b: u8| lower(b))
}

/// First index `j >= i` with `s[j] == a` and `s[j + 1] == b`.
pub open spec fn find2(s: Seq<u8>, i: int, a: u8, b: u8) -> Option<int>
    decreases s.len() - i,
        when 0 <= i
{
    if i + 2 > s.len() {
        None
    } else if s[i] == a && s[i + 1] == b {
        Some(i)
    } else {
        find2(s, i + 1, a, b)
    }
}

/// First index `j >= i` with `s[j] == b`.
pub open spec fn find_byte(s: Seq<u8>, i: int, b: u8) -> Option<int>
    decreases s.len() - i,
        when 0 <= i
{
    if i + 1 > s.len() {
        None
    } else if s[i] == b {
        Some(i)
    } else {
        find_byte(s, i + 1, b)
    }
}

/// First index `j >= i` where the head terminator `\r\n\r\n` starts.
pub open spec fn find_term(s: Seq<u8>, i: int) -> Option<int>
    decreases s.len() - i,
        when 0 <= i
{
    if i + 4 > s.len() {
        None
    } else if s[i] == CR && s[i + 1] == LF && s[i + 2] == CR && s[i + 3] == LF {
        Some(i)
    } else {
        find_term(s, i + 1)
    }
}

/// Splits a region into lines at each `\r\n`; a trailing fragment without
/// a terminator stands as a line of its own (the head region never has one).
pub open spec fn split_lines(t: Seq<u8>) -> Seq<Seq<u8>>
    decreases t.len(),
{
    match find2(t, 0, CR, LF) {
        Some(j) => if 0 <= j && j + 2 <= t.len() {
            seq![t.subrange(0, j)] + split_lines(t.skip(j + 2))
        } else {
            seq![t]
        },
        None => if t.len() == 0 {
            Seq::empty()
        } else {
            seq![t]
        },
    }
}

/// `method SP target SP version`, with method and target nonempty.
pub open spec fn parse_request_line(l: Seq<u8>) -> Option<(Seq<u8>, Seq<u8>, Seq<u8>)> {
    match find_byte(l, 0, SP) {
        Some(j1) => match find_byte(l, j1 + 1, SP) {
            Some(j2) => if 0 < j1 && j1 + 1 < j2 {
                Some((l.subrange(0, j1), l.subrange(j1 + 1, j2), l.subrange(j2 + 1, l.len() as int)))
            } else {
                None
            },
            None => None,
        },
        None => None,
    }
}

/// Whitespace allowed around a header value.
pub open spec fn is_ows(b: u8) -> bool {
    b == SP || b == HTAB
}

/// Drops leading spaces and tabs.
pub open spec fn trim_start(s: Seq<u8>) -> Seq<u8>
    decreases s.len(),
{
    if s.len() > 0 && is_ows(s[0]) {
        trim_start(s.skip(1))
    } else {
        s
    }
}

/// Drops trailing spaces and tabs.
pub open spec fn trim_end(s: Seq<u8>) -> Seq<u8>
    decreases s.len(),
{
    if s.len() > 0 && is_ows(s[s.len() - 1]) {
        trim_end(s.take(s.len() - 1))
    } else {
        s
    }
}

/// Drops optional whitespace on both sides.
pub open spec fn trim_ows(s: Seq<u8>) -> Seq<u8> {
    trim_end(trim_start(s))
}

/// A header name: nonempty, no whitespace.
pub open spec fn valid_name(n: Seq<u8>) -> bool {
    n.len() > 0 && forall|k: int| 0 <= k < n.len() ==> !is_ows(n[k])
}

/// `name: value`, value trimmed of optional whitespace.
pub open spec fn parse_header_line(l: Seq<u8>) -> Option<(Seq<u8>, Seq<u8>)> {
    match find_byte(l, 0, COLON) {
        Some(j) => if valid_name(l.subrange(0, j)) {
            Some((l.subrange(0, j), trim_ows(l.subrange(j + 1, l.len() as int))))
        } else {
            None
        },
        None => None,
    }
}

/// All header lines parsed in order; `None` at the first malformed line.
pub open spec fn parse_headers(ls: Seq<Seq<u8>>) -> Option<Seq<(Seq<u8>, Seq<u8>)>>
    decreases ls.len(),
{
    if ls.len() == 0 {
        Some(Seq::empty())
    } else {
        match parse_header_line(ls[0]) {
            Some(h) => match parse_headers(ls.drop_first()) {
                Some(rest) => Some(seq![h] + rest),
                None => None,
            },
            None => None,
        }
    }
}

/// The value of the first header whose lower-cased name is `name`.
pub open spec fn find_header(hs: Seq<(Seq<u8>, Seq<u8>)>, name: Seq<u8>) -> Option<Seq<u8>>
    decreases hs.len(),
{
    if hs.len() == 0 {
        None
    } else if lower_seq(hs[0].0) == name {
        Some(hs[0].1)
    } else {
        find_header(hs.drop_first(), name)
    }
}

/// `content-length`
pub open spec fn cl_name_seq() -> Seq<u8> {
    seq![99u8, 111u8, 110u8, 116u8, 101u8, 110u8, 116u8, 45u8, 108u8, 101u8, 110u8, 103u8, 116u8, 104u8]
}

/// `transfer-encoding`
pub open spec fn te_name_seq() -> Seq<u8> {
    seq![116u8, 114u8, 97u8, 110u8, 115u8, 102u8, 101u8, 114u8, 45u8, 101u8, 110u8, 99u8, 111u8, 100u8,
        105u8, 110u8, 103u8]
}

/// `chunked`
pub open spec fn chunked_seq() -> Seq<u8> {
    seq![99u8, 104u8, 117u8, 110u8, 107u8, 101u8, 100u8]
}

/// `upgrade`
pub open spec fn upgrade_name_seq() -> Seq<u8> {
    seq![117u8, 112u8, 103u8, 114u8, 97u8, 100u8, 101u8]
}

/// `connection`
pub open spec fn conn_name_seq() -> Seq<u8> {
    seq![99u8, 111u8, 110u8, 110u8, 101u8, 99u8, 116u8, 105u8, 111u8, 110u8]
}

/// `close`
pub open spec fn close_seq() -> Seq<u8> {
    seq![99u8, 108u8, 111u8, 115u8, 101u8]
}

/// `HTTP/1.1`
pub open spec fn http11_seq() -> Seq<u8> {
    seq![72u8, 84u8, 84u8, 80u8, 47u8, 49u8, 46u8, 49u8]
}

/// `HTTP/`
pub open spec fn http_prefix_seq() -> Seq<u8> {
    seq![72u8, 84u8, 84u8, 80u8, 47u8]
}

/// Is the sequence one or more decimal digits?
pub open spec fn all_digits(s: Seq<u8>) -> bool {
    s.len() > 0 && forall|k: int| 0 <= k < s.len() ==> 48 <= #[trigger] s[k] <= 57
}

/// The value of a decimal numeral.
pub open spec fn dec_val(s: Seq<u8>) -> int
    decreases s.len(),
{
    if s.len() == 0 {
        0
    } else {
        dec_val(s.take(s.len() - 1)) * 10 + (s[s.len() - 1] - 48)
    }
}

/// A content-length value this engine accepts: up to 19 digits, so the
/// value always fits in a `u64`.
pub open spec fn valid_content_length(v: Seq<u8>) -> bool {
    all_digits(v) && v.len() <= 19
}

/// The framing policy the headers declare, or why they are rejected.
/// The first occurrence of each relevant name decides.
pub open spec fn spec_framing(hs: Seq<(Seq<u8>, Seq<u8>)>) -> Result<Framing, ParseError> {
    let te = find_header(hs, te_name_seq());
    let cl = find_header(hs, cl_name_seq());
    if te is Some && cl is Some {
        Err(ParseError::BadTransferEncoding)
    } else if te is Some {
        if lower_seq(te->Some_0) == chunked_seq() {
            Ok(Framing::Chunked)
        } else {
            Err(ParseError::BadTransferEncoding)
        }
    } else if cl is Some {
        if valid_content_length(cl->Some_0) {
            Ok(Framing::ContentLength(dec_val(cl->Some_0) as u64))
        } else {
            Err(ParseError::MalformedHeader)
        }
    } else if find_header(hs, upgrade_name_seq()) is Some {
        Ok(Framing::Upgrade)
    } else {
        Ok(Framing::NoBody)
    }
}

/// The head parsed from the head lines, or why it is rejected.
pub open spec fn spec_parse_lines(lines: Seq<Seq<u8>>) -> Result<
    (Seq<u8>, Seq<u8>, Seq<u8>, Seq<(Seq<u8>, Seq<u8>)>, Framing),
    ParseError,
> {
    if lines.len() == 0 {
        Err(ParseError::MalformedRequestLine)
    } else {
        match parse_request_line(lines[0]) {
            None => Err(ParseError::MalformedRequestLine),
            Some((m, t, v)) => if v != http11_seq() {
                if v.len() >= 5 && v.subrange(0, 5) == http_prefix_seq() {
                    Err(ParseError::UnsupportedVersion)
                } else {
                    Err(ParseError::MalformedRequestLine)
                }
            } else {
                match parse_headers(lines.drop_first()) {
                    None => Err(ParseError::MalformedHeader),
                    Some(hs) => if hs.len() > MAX_HEADERS {
                        Err(ParseError::TooManyHeaders)
                    } else {
                        match spec_framing(hs) {
                            Err(e) => Err(e),
                            Ok(f) => Ok((m, t, v, hs, f)),
                        }
                    },
                }
            },
        }
    }
}

/// One feed of the incremental parser, as a pure function of the buffer's
/// unread bytes.  The head region is everything through the first
/// `\r\n\r\n`; without one the feed is incomplete until the accepted head
/// size is exhausted.
pub open spec fn spec_parse_head(s: Seq<u8>) -> SpecFeed {
    match find_term(s, 0) {
        None => if s.len() > MAX_HEAD_SIZE {
            SpecFeed::Reject { err: ParseError::HeadTooLarge }
        } else {
            SpecFeed::Incomplete
        },
        Some(j) => if j + 4 > MAX_HEAD_SIZE {
            SpecFeed::Reject { err: ParseError::HeadTooLarge }
        } else {
            match spec_parse_lines(split_lines(s.subrange(0, j + 2))) {
                Err(e) => SpecFeed::Reject { err: e },
                Ok((m, t, v, hs, f)) => SpecFeed::Complete {
                    head: SpecHead { method: m, target: t, version: v, headers: hs, framing: f },
                    consumed: j + 4,
                },
            }
        },
    }
}

/// May the connection be reused after this head's exchange?  HTTP/1.1
/// defaults to keep-alive unless the client sent `Connection: close`.
pub open spec fn spec_keep_alive(h: SpecHead) -> bool {
    match find_header(h.headers, conn_name_seq()) {
        Some(v) => lower_seq(v) != close_seq(),
        None => true,
    }
}

} // verus!
