//! The incremental HTTP/1 head parser.
//!
//! `feed` is a pure function of the buffer's unread bytes and is proved
//! to return exactly what the byte-level model `spec_parse_head` says.
//! It keeps no state across calls: a partial head simply yields
//! `Incomplete` and is re-examined when more bytes arrive.

use vstd::prelude::*;
use crate::CR;
use crate::LF;
use crate::buffer::Buffer;
use crate::head::COLON;
use crate::head::Framing;
use crate::head::HTAB;
use crate::head::MAX_HEADERS;
use crate::head::MAX_HEAD_SIZE;
use crate::head::ParseError;
use crate::head::RequestHead;
use crate::head::SP;
use crate::head::SpecFeed;
use crate::head::SpecHead;
use crate::head::all_digits;
use crate::head::chunked_seq;
use crate::head::cl_name_seq;
use crate::head::close_seq;
use crate::head::conn_name_seq;
use crate::head::dec_val;
use crate::head::find2;
use crate::head::find_byte;
use crate::head::find_header;
use crate::head::find_term;
use crate::head::headers_view;
use crate::head::http11_seq;
use crate::head::http_prefix_seq;
use crate::head::is_ows;
use crate::head::lower;
use crate::head::lower_seq;
use crate::head::parse_header_line;
use crate::head::parse_headers;
use crate::head::parse_request_line;
use crate::head::spec_framing;
use crate::head::spec_keep_alive;
use crate::head::spec_parse_head;
use crate::head::spec_parse_lines;
use crate::head::split_lines;
use crate::head::te_name_seq;
use crate::head::trim_end;
use crate::head::trim_ows;
use crate::head::trim_start;
use crate::head::upgrade_name_seq;
use crate::head::valid_content_length;
use crate::head::valid_name;

verus! {

/// What one feed of the parser yields.
pub enum FeedResult {
    /// A complete head; the second field is how many buffer bytes it took.
    Complete(RequestHead, usize),
    /// More bytes are needed.
    Incomplete,
    /// The head is invalid; the connection must close without reuse.
    Reject(ParseError),
}

/// The feed result agrees with the byte-level model on input `s`.
pub open spec fn feed_matches(r: FeedResult, s: Seq<u8>) -> bool {
    match r {
        FeedResult::Complete(h, c) => spec_parse_head(s) == (SpecFeed::Complete {
            head: h@,
            consumed: c as int,
        }),
        FeedResult::Incomplete => spec_parse_head(s) is Incomplete,
        FeedResult::Reject(e) => spec_parse_head(s) == (SpecFeed::Reject { err: e }),
    }
}

/// Where `find_term` answers, the hit is in bounds and is a terminator.
pub proof fn lemma_find_term_bounds(s: Seq<u8>, i: int)
    requires
        0 <= i,
    ensures
        match find_term(s, i) {
            Some(j) => i <= j && j + 4 <= s.len() && s[j] == CR && s[j + 1] == LF && s[j + 2] == CR
                && s[j + 3] == LF,
            None => true,
        },
    decreases s.len() - i,
{
    if i + 4 > s.len() {
    } else if s[i] == CR && s[i + 1] == LF && s[i + 2] == CR && s[i + 3] == LF {
    } else {
        lemma_find_term_bounds(s, i + 1);
    }
}

/// Where `find2` answers, the hit is in bounds and matches.
pub proof fn lemma_find2_bounds(s: Seq<u8>, i: int, a: u8, b: u8)
    requires
        0 <= i,
    ensures
        match find2(s, i, a, b) {
            Some(j) => i <= j && j + 2 <= s.len() && s[j] == a && s[j + 1] == b,
            None => true,
        },
    decreases s.len() - i,
{
    if i + 2 > s.len() {
    } else if s[i] == a && s[i + 1] == b {
    } else {
        lemma_find2_bounds(s, i + 1, a, b);
    }
}

/// A `find2` hit that fits inside a prefix is found in the prefix too.
pub proof fn lemma_find2_prefix(s: Seq<u8>, m: int, i: int, a: u8, b: u8, k: int)
    requires
        0 <= i <= k,
        find2(s, i, a, b) == Some(k),
        k + 2 <= m <= s.len(),
    ensures
        find2(s.subrange(0, m), i, a, b) == Some(k),
    decreases k - i,
{
    let p = s.subrange(0, m);
    if s[i] == a && s[i + 1] == b {
        assert(find2(s, i, a, b) == Some(i));
        assert(p[k] == a && p[k + 1] == b);
        assert(find2(p, k, a, b) == Some(k));
        if i < k {
            assert(false);
        }
    } else {
        assert(find2(s, i, a, b) == find2(s, i + 1, a, b));
        lemma_find2_bounds(s, i, a, b);
        assert(i < k);
        lemma_find2_prefix(s, m, i + 1, a, b, k);
        assert(p[i] == s[i] && p[i + 1] == s[i + 1]);
        assert(find2(p, i, a, b) == find2(p, i + 1, a, b));
    }
}

/// `find2` in a suffix is `find2` in the whole, shifted.
pub proof fn lemma_find2_shift(s: Seq<u8>, p: int, i: int, a: u8, b: u8)
    requires
        0 <= p <= s.len(),
        0 <= i,
    ensures
        find2(s.skip(p), i, a, b) == match find2(s, p + i, a, b) {
            Some(k) => Some(k - p),
            None => None::<int>,
        },
    decreases s.len() - p - i,
{
    let t = s.skip(p);
    if i + 2 > t.len() {
        assert(p + i + 2 > s.len());
    } else if t[i] == a && t[i + 1] == b {
        assert(s[p + i] == a && s[p + i + 1] == b);
    } else {
        assert(s[p + i] == t[i] && s[p + i + 1] == t[i + 1]);
        lemma_find2_shift(s, p, i + 1, a, b);
        assert(find2(s, p + i, a, b) == find2(s, p + i + 1, a, b));
    }
}

/// Extending the input does not move or create an earlier terminator hit.
pub proof fn lemma_find_term_extend(s: Seq<u8>, t: Seq<u8>, i: int, j: int)
    requires
        0 <= i <= j,
        find_term(s, i) == Some(j),
    ensures
        find_term(s + t, i) == Some(j),
    decreases j - i,
{
    let u = s + t;
    lemma_find_term_bounds(s, i);
    if s[i] == CR && s[i + 1] == LF && s[i + 2] == CR && s[i + 3] == LF {
        assert(find_term(s, i) == Some(i));
        assert(u[i] == CR && u[i + 1] == LF && u[i + 2] == CR && u[i + 3] == LF);
        assert(find_term(u, i) == Some(i));
    } else {
        assert(find_term(s, i) == find_term(s, i + 1));
        assert(i < j);
        lemma_find_term_extend(s, t, i + 1, j);
        assert(u[i] == s[i] && u[i + 1] == s[i + 1] && u[i + 2] == s[i + 2] && u[i + 3] == s[i
            + 3]);
        assert(find_term(u, i) == find_term(u, i + 1));
    }
}

/// Header parsing distributes over concatenation of line sequences.
pub proof fn lemma_parse_headers_concat(pre: Seq<Seq<u8>>, post: Seq<Seq<u8>>)
    ensures
        parse_headers(pre + post) == match parse_headers(pre) {
            Some(h1) => match parse_headers(post) {
                Some(h2) => Some(h1 + h2),
                None => None::<Seq<(Seq<u8>, Seq<u8>)>>,
            },
            None => None::<Seq<(Seq<u8>, Seq<u8>)>>,
        },
    decreases pre.len(),
{
    if pre.len() == 0 {
        assert(pre + post =~= post);
        match parse_headers(post) {
            Some(h2) => {
                assert(Seq::<(Seq<u8>, Seq<u8>)>::empty() + h2 =~= h2);
            },
            None => {},
        }
    } else {
        let all = pre + post;
        assert(all.len() > 0);
        assert(all[0] == pre[0]);
        assert(all.drop_first() =~= pre.drop_first() + post);
        lemma_parse_headers_concat(pre.drop_first(), post);
        match parse_header_line(pre[0]) {
            Some(h) => {
                match parse_headers(pre.drop_first()) {
                    Some(h1) => {
                        match parse_headers(post) {
                            Some(h2) => {
                                assert(seq![h] + (h1 + h2) =~= (seq![h] + h1) + h2);
                            },
                            None => {},
                        }
                    },
                    None => {},
                }
            },
            None => {},
        }
    }
}


/// ASCII lower-casing of one byte.
fn lower_b(b: u8) -> (r: u8)
    ensures
        r == lower(b),
{
    if 65 <= b && b <= 90 {
        b + 32
    } else {
        b
    }
}

/// Finds the first head terminator at or after `from` in the unread region.
pub(crate) fn scan_terminator(buf: &Buffer, from: usize) -> (r: Option<usize>)
    requires
        buf.wf(),
        from <= buf.unread().len(),
    ensures
        match r {
            Some(j) => find_term(buf.unread(), from as int) == Some(j as int) && from <= j,
            None => find_term(buf.unread(), from as int) is None,
        },
{
    let ghost s = buf.unread();
    let n = buf.unread_len();
    let mut i: usize = from;
    while n >= 4 && i <= n - 4
        invariant
            buf.wf(),
            s == buf.unread(),
            n == s.len(),
            from <= i <= n,
            find_term(s, from as int) == find_term(s, i as int),
        decreases n - i,
    {
        if buf.get(i) == CR && buf.get(i + 1) == LF && buf.get(i + 2) == CR && buf.get(i + 3)
            == LF {
            proof {
                assert(find_term(s, i as int) == Some(i as int));
            }
            return Some(i);
        }
        proof {
            assert(find_term(s, i as int) == find_term(s, i + 1));
        }
        i = i + 1;
    }
    proof {
        assert(find_term(s, i as int) is None);
    }
    None
}

/// Finds the first `\r\n` at or after `from`, which exists at `j` at latest.
pub(crate) fn scan_crlf(buf: &Buffer, from: usize, j: usize) -> (r: usize)
    requires
        buf.wf(),
        from <= j,
        j + 2 <= buf.unread().len(),
        buf.unread()[j as int] == CR,
        buf.unread()[j as int + 1] == LF,
    ensures
        from <= r <= j,
        find2(buf.unread(), from as int, CR, LF) == Some(r as int),
{
    let ghost s = buf.unread();
    let n = buf.unread_len();
    let mut i: usize = from;
    loop
        invariant
            buf.wf(),
            s == buf.unread(),
            from <= i <= j,
            j + 2 <= s.len(),
            n == s.len(),
            s[j as int] == CR,
            s[j as int + 1] == LF,
            find2(s, from as int, CR, LF) == find2(s, i as int, CR, LF),
        decreases j - i,
    {
        if buf.get(i) == CR && buf.get(i + 1) == LF {
            proof {
                assert(find2(s, i as int, CR, LF) == Some(i as int));
            }
            return i;
        }
        proof {
            assert(find2(s, i as int, CR, LF) == find2(s, i + 1, CR, LF));
        }
        i = i + 1;
    }
}

/// Copies `unread[a .. b]` out of the buffer.
pub(crate) fn copy_range(buf: &Buffer, a: usize, b: usize) -> (r: Vec<u8>)
    requires
        buf.wf(),
        a <= b <= buf.unread().len(),
    ensures
        r@ == buf.unread().subrange(a as int, b as int),
{
    let mut out: Vec<u8> = Vec::new();
    let mut i: usize = a;
    while i < b
        invariant
            buf.wf(),
            a <= i <= b <= buf.unread().len(),
            out@ == buf.unread().subrange(a as int, i as int),
        decreases b - i,
    {
        let x = buf.get(i);
        out.push(x);
        proof {
            assert(out@ =~= buf.unread().subrange(a as int, i + 1));
        }
        i = i + 1;
    }
    out
}

/// Copies `v[a .. b]`.
fn subvec(v: &Vec<u8>, a: usize, b: usize) -> (r: Vec<u8>)
    requires
        a <= b <= v@.len(),
    ensures
        r@ == v@.subrange(a as int, b as int),
{
    let mut out: Vec<u8> = Vec::new();
    let mut i: usize = a;
    while i < b
        invariant
            a <= i <= b <= v@.len(),
            out@ == v@.subrange(a as int, i as int),
        decreases b - i,
    {
        let x = v[i];
        out.push(x);
        proof {
            assert(out@ =~= v@.subrange(a as int, i + 1));
        }
        i = i + 1;
    }
    out
}

/// Does `v` lower-case to exactly `name`?
fn eq_lower(v: &Vec<u8>, name: &Vec<u8>) -> (r: bool)
    ensures
        r == (lower_seq(v@) == name@),
{
    if v.len() != name.len() {
        return false;
    }
    let mut i: usize = 0;
    while i < v.len()
        invariant
            v@.len() == name@.len(),
            i <= v@.len(),
            forall|k: int| 0 <= k < i ==> lower(v@[k]) == name@[k],
        decreases v@.len() - i,
    {
        if lower_b(v[i]) != name[i] {
            proof {
                assert(lower_seq(v@)[i as int] != name@[i as int]);
            }
            return false;
        }
        i = i + 1;
    }
    proof {
        assert(lower_seq(v@) =~= name@);
    }
    true
}

/// Are the two byte vectors equal?
fn eq_bytes(v: &Vec<u8>, w: &Vec<u8>) -> (r: bool)
    ensures
        r == (v@ == w@),
{
    if v.len() != w.len() {
        return false;
    }
    let mut i: usize = 0;
    while i < v.len()
        invariant
            v@.len() == w@.len(),
            i <= v@.len(),
            forall|k: int| 0 <= k < i ==> v@[k] == w@[k],
        decreases v@.len() - i,
    {
        if v[i] != w[i] {
            return false;
        }
        i = i + 1;
    }
    proof {
        assert(v@ =~= w@);
    }
    true
}

/// The byte string `content-length`.
fn cl_name() -> (r: Vec<u8>)
    ensures
        r@ == cl_name_seq(),
{
    let mut v: Vec<u8> = Vec::new();
    v.push(99u8);
    v.push(111u8);
    v.push(110u8);
    v.push(116u8);
    v.push(101u8);
    v.push(110u8);
    v.push(116u8);
    v.push(45u8);
    v.push(108u8);
    v.push(101u8);
    v.push(110u8);
    v.push(103u8);
    v.push(116u8);
    v.push(104u8);
    proof {
        assert(v@ =~= cl_name_seq());
    }
    v
}

/// The byte string `transfer-encoding`.
fn te_name() -> (r: Vec<u8>)
    ensures
        r@ == te_name_seq(),
{
    let mut v: Vec<u8> = Vec::new();
    v.push(116u8);
    v.push(114u8);
    v.push(97u8);
    v.push(110u8);
    v.push(115u8);
    v.push(102u8);
    v.push(101u8);
    v.push(114u8);
    v.push(45u8);
    v.push(101u8);
    v.push(110u8);
    v.push(99u8);
    v.push(111u8);
    v.push(100u8);
    v.push(105u8);
    v.push(110u8);
    v.push(103u8);
    proof {
        assert(v@ =~= te_name_seq());
    }
    v
}

/// The byte string `chunked`.
fn chunked_name() -> (r: Vec<u8>)
    ensures
        r@ == chunked_seq(),
{
    let mut v: Vec<u8> = Vec::new();
    v.push(99u8);
    v.push(104u8);
    v.push(117u8);
    v.push(110u8);
    v.push(107u8);
    v.push(101u8);
    v.push(100u8);
    proof {
        assert(v@ =~= chunked_seq());
    }
    v
}

/// The byte string `upgrade`.
fn upgrade_name() -> (r: Vec<u8>)
    ensures
        r@ == upgrade_name_seq(),
{
    let mut v: Vec<u8> = Vec::new();
    v.push(117u8);
    v.push(112u8);
    v.push(103u8);
    v.push(114u8);
    v.push(97u8);
    v.push(100u8);
    v.push(101u8);
    proof {
        assert(v@ =~= upgrade_name_seq());
    }
    v
}

/// The byte string `connection`.
fn conn_name() -> (r: Vec<u8>)
    ensures
        r@ == conn_name_seq(),
{
    let mut v: Vec<u8> = Vec::new();
    v.push(99u8);
    v.push(111u8);
    v.push(110u8);
    v.push(110u8);
    v.push(101u8);
    v.push(99u8);
    v.push(116u8);
    v.push(105u8);
    v.push(111u8);
    v.push(110u8);
    proof {
        assert(v@ =~= conn_name_seq());
    }
    v
}

/// The byte string `close`.
fn close_name() -> (r: Vec<u8>)
    ensures
        r@ == close_seq(),
{
    let mut v: Vec<u8> = Vec::new();
    v.push(99u8);
    v.push(108u8);
    v.push(111u8);
    v.push(115u8);
    v.push(101u8);
    proof {
        assert(v@ =~= close_seq());
    }
    v
}

/// The byte string `HTTP/1.1`.
fn http11_name() -> (r: Vec<u8>)
    ensures
        r@ == http11_seq(),
{
    let mut v: Vec<u8> = Vec::new();
    v.push(72u8);
    v.push(84u8);
    v.push(84u8);
    v.push(80u8);
    v.push(47u8);
    v.push(49u8);
    v.push(46u8);
    v.push(49u8);
    proof {
        assert(v@ =~= http11_seq());
    }
    v
}

/// Powers of ten, for bounding decimal numerals.
pub open spec fn pow10(n: nat) -> int
    decreases n,
{
    if n == 0 {
        1
    } else {
        10 * pow10((n - 1) as nat)
    }
}

/// A numeral of digits is bounded by the power of ten of its length.
pub proof fn lemma_dec_val_bound(s: Seq<u8>)
    requires
        forall|k: int| 0 <= k < s.len() ==> 48 <= #[trigger] s[k] <= 57,
    ensures
        0 <= dec_val(s) < pow10(s.len()),
    decreases s.len(),
{
    if s.len() == 0 {
    } else {
        let pre = s.take(s.len() - 1);
        assert(forall|k: int| 0 <= k < pre.len() ==> 48 <= #[trigger] pre[k] <= 57);
        lemma_dec_val_bound(pre);
    }
}

/// Powers of ten grow with the exponent.
pub proof fn lemma_pow10_mono(m: nat, n: nat)
    requires
        m <= n,
    ensures
        pow10(m) <= pow10(n),
        1 <= pow10(m),
    decreases n,
{
    if n == 0 {
    } else if m == n {
        lemma_pow10_mono((n - 1) as nat, (n - 1) as nat);
    } else {
        lemma_pow10_mono(m, (n - 1) as nat);
    }
}

/// `pow10(18)` as a numeral.
proof fn lemma_pow10_18()
    ensures
        pow10(18) == 1000000000000000000,
{
    assert(pow10(0) == 1);
    assert(pow10(1) == 10);
    assert(pow10(2) == 100);
    assert(pow10(3) == 1000);
    assert(pow10(4) == 10000);
    assert(pow10(5) == 100000);
    assert(pow10(6) == 1000000);
    assert(pow10(7) == 10000000);
    assert(pow10(8) == 100000000);
    assert(pow10(9) == 1000000000);
    assert(pow10(10) == 10000000000);
    assert(pow10(11) == 100000000000);
    assert(pow10(12) == 1000000000000);
    assert(pow10(13) == 10000000000000);
    assert(pow10(14) == 100000000000000);
    assert(pow10(15) == 1000000000000000);
    assert(pow10(16) == 10000000000000000);
    assert(pow10(17) == 100000000000000000);
    assert(pow10(18) == 1000000000000000000);
}

/// Parses a decimal content-length value of up to 19 digits.
fn parse_content_length(v: &Vec<u8>) -> (r: Option<u64>)
    ensures
        match r {
            Some(n) => valid_content_length(v@) && n as int == dec_val(v@),
            None => !valid_content_length(v@),
        },
{
    if v.len() == 0 || v.len() > 19 {
        return None;
    }
    let mut val: u64 = 0;
    let mut i: usize = 0;
    while i < v.len()
        invariant
            i <= v@.len(),
            0 < v@.len() <= 19,
            forall|k: int| 0 <= k < i ==> 48 <= #[trigger] v@[k] <= 57,
            val as int == dec_val(v@.take(i as int)),
        decreases v@.len() - i,
    {
        let b = v[i];
        if b < 48 || b > 57 {
            return None;
        }
        proof {
            assert(forall|k: int| 0 <= k < i + 1 ==> 48 <= #[trigger] v@[k] <= 57);
            assert(forall|k: int|
                0 <= k < v@.take(i as int).len() ==> 48 <= #[trigger] v@.take(i as int)[k]
                    <= 57);
            lemma_dec_val_bound(v@.take(i as int));
            lemma_pow10_mono(i as nat, 18);
            lemma_pow10_18();
            assert(val as int <= 999999999999999999);
        }
        val = val * 10 + ((b - 48) as u64);
        proof {
            assert(v@.take(i + 1).take(i as int) =~= v@.take(i as int));
            assert(v@.take(i + 1)[i as int] == v@[i as int]);
            assert(dec_val(v@.take(i + 1)) == dec_val(v@.take(i as int)) * 10 + (v@[i as int]
                - 48));
        }
        i = i + 1;
    }
    proof {
        assert(v@.take(v@.len() as int) =~= v@);
    }
    Some(val)
}

/// Finds the first occurrence of `b` in `v` at or after `from`.
fn find_byte_vec(v: &Vec<u8>, from: usize, b: u8) -> (r: Option<usize>)
    requires
        from <= v@.len(),
    ensures
        match r {
            Some(j) => find_byte(v@, from as int, b) == Some(j as int) && from <= j < v@.len(),
            None => find_byte(v@, from as int, b) is None,
        },
{
    let mut i: usize = from;
    while i < v.len()
        invariant
            from <= i <= v@.len(),
            find_byte(v@, from as int, b) == find_byte(v@, i as int, b),
        decreases v@.len() - i,
    {
        if v[i] == b {
            proof {
                assert(find_byte(v@, i as int, b) == Some(i as int));
            }
            return Some(i);
        }
        proof {
            assert(find_byte(v@, i as int, b) == find_byte(v@, i + 1, b));
        }
        i = i + 1;
    }
    proof {
        assert(find_byte(v@, i as int, b) is None);
    }
    None
}

/// Leading whitespace stops at the first other byte.
proof fn lemma_trim_start_idx(s: Seq<u8>, x: int)
    requires
        0 <= x <= s.len(),
        forall|k: int| 0 <= k < x ==> is_ows(#[trigger] s[k]),
        x < s.len() ==> !is_ows(s[x]),
    ensures
        trim_start(s) == s.skip(x),
    decreases x,
{
    if x == 0 {
        assert(s.skip(0) =~= s);
    } else {
        let t = s.skip(1);
        assert(forall|k: int| 0 <= k < x - 1 ==> is_ows(#[trigger] t[k]));
        lemma_trim_start_idx(t, x - 1);
        assert(t.skip(x - 1) =~= s.skip(x));
    }
}

/// Trailing whitespace stops at the last other byte.
proof fn lemma_trim_end_idx(s: Seq<u8>, y: int)
    requires
        0 <= y <= s.len(),
        forall|k: int| y <= k < s.len() ==> is_ows(#[trigger] s[k]),
        y > 0 ==> !is_ows(s[y - 1]),
    ensures
        trim_end(s) == s.take(y),
    decreases s.len() - y,
{
    if y == s.len() {
        assert(s.take(y) =~= s);
    } else {
        let t = s.take(s.len() - 1);
        assert(forall|k: int| y <= k < t.len() ==> is_ows(#[trigger] t[k]));
        lemma_trim_end_idx(t, y);
        assert(t.take(y) =~= s.take(y));
    }
}

/// Copies `v[a .. b]` with surrounding whitespace dropped.
fn trim_range(v: &Vec<u8>, a: usize, b: usize) -> (r: Vec<u8>)
    requires
        a <= b <= v@.len(),
    ensures
        r@ == trim_ows(v@.subrange(a as int, b as int)),
{
    let ghost s = v@.subrange(a as int, b as int);
    let mut x: usize = a;
    while x < b && (v[x] == SP || v[x] == HTAB)
        invariant
            a <= x <= b <= v@.len(),
            forall|k: int| a <= k < x ==> is_ows(#[trigger] v@[k]),
        decreases b - x,
    {
        x = x + 1;
    }
    let mut y: usize = b;
    while y > x && (v[y - 1] == SP || v[y - 1] == HTAB)
        invariant
            a <= x <= y <= b <= v@.len(),
            forall|k: int| a <= k < x ==> is_ows(#[trigger] v@[k]),
            forall|k: int| y <= k < b ==> is_ows(#[trigger] v@[k]),
        decreases y - x,
    {
        y = y - 1;
    }
    let r = subvec(v, x, y);
    proof {
        assert(forall|k: int| 0 <= k < x - a ==> is_ows(#[trigger] s[k]));
        lemma_trim_start_idx(s, x - a);
        let t = s.skip(x - a);
        assert(t =~= v@.subrange(x as int, b as int));
        assert(forall|k: int| y - x <= k < t.len() ==> is_ows(#[trigger] t[k]));
        lemma_trim_end_idx(t, y - x);
        assert(t.take(y - x) =~= v@.subrange(x as int, y as int));
    }
    r
}

/// Parses `method SP target SP version`.
fn parse_request_line_exec(l: &Vec<u8>) -> (r: Option<(Vec<u8>, Vec<u8>, Vec<u8>)>)
    ensures
        match r {
            Some(p) => parse_request_line(l@) == Some((p.0@, p.1@, p.2@)),
            None => parse_request_line(l@) is None,
        },
{
    let n = l.len();
    let j1 = match find_byte_vec(l, 0, SP) {
        Some(j) => j,
        None => {
            return None;
        },
    };
    let j2 = match find_byte_vec(l, j1 + 1, SP) {
        Some(j) => j,
        None => {
            return None;
        },
    };
    if !(0 < j1 && j1 + 1 < j2) {
        return None;
    }
    let m = subvec(l, 0, j1);
    let t = subvec(l, j1 + 1, j2);
    let v = subvec(l, j2 + 1, n);
    Some((m, t, v))
}

/// Parses `name: value`.
fn parse_header_exec(l: &Vec<u8>) -> (r: Option<(Vec<u8>, Vec<u8>)>)
    ensures
        match r {
            Some(h) => parse_header_line(l@) == Some((h.0@, h.1@)),
            None => parse_header_line(l@) is None,
        },
{
    let n = l.len();
    let j = match find_byte_vec(l, 0, COLON) {
        Some(j) => j,
        None => {
            return None;
        },
    };
    let ghost name_s = l@.subrange(0, j as int);
    if j == 0 {
        proof {
            assert(!valid_name(name_s));
        }
        return None;
    }
    let mut k: usize = 0;
    while k < j
        invariant
            0 < j < l@.len(),
            n == l@.len(),
            find_byte(l@, 0, COLON) == Some(j as int),
            k <= j,
            name_s == l@.subrange(0, j as int),
            forall|i: int| 0 <= i < k ==> !is_ows(#[trigger] name_s[i]),
        decreases j - k,
    {
        if l[k] == SP || l[k] == HTAB {
            proof {
                assert(is_ows(name_s[k as int]));
                assert(!valid_name(name_s));
            }
            return None;
        }
        k = k + 1;
    }
    proof {
        assert(valid_name(name_s));
    }
    let name = subvec(l, 0, j);
    let value = trim_range(l, j + 1, n);
    Some((name, value))
}

/// Finds the value index of the first header whose name lower-cases to `name`.
fn find_header_exec(hdrs: &Vec<(Vec<u8>, Vec<u8>)>, name: &Vec<u8>) -> (r: Option<usize>)
    ensures
        match r {
            Some(i) => i < hdrs@.len() && find_header(headers_view(hdrs@), name@) == Some(
                hdrs@[i as int].1@,
            ),
            None => find_header(headers_view(hdrs@), name@) is None,
        },
{
    let ghost hs = headers_view(hdrs@);
    proof {
        assert(hs.skip(0) =~= hs);
    }
    let mut i: usize = 0;
    while i < hdrs.len()
        invariant
            hs == headers_view(hdrs@),
            i <= hs.len(),
            hs.len() == hdrs@.len(),
            find_header(hs, name@) == find_header(hs.skip(i as int), name@),
        decreases hs.len() - i,
    {
        if eq_lower(&hdrs[i].0, name) {
            proof {
                assert(hs.skip(i as int)[0] == hs[i as int]);
                assert(find_header(hs.skip(i as int), name@) == Some(hs[i as int].1));
            }
            return Some(i);
        }
        proof {
            assert(hs.skip(i as int)[0] == hs[i as int]);
            assert(hs.skip(i as int).drop_first() =~= hs.skip(i + 1));
            assert(find_header(hs.skip(i as int), name@) == find_header(hs.skip(i + 1), name@));
        }
        i = i + 1;
    }
    proof {
        assert(hs.skip(i as int) =~= Seq::<(Seq<u8>, Seq<u8>)>::empty());
    }
    None
}

/// Derives the body framing policy from the parsed headers.
fn framing_exec(hdrs: &Vec<(Vec<u8>, Vec<u8>)>) -> (r: Result<Framing, ParseError>)
    ensures
        r == spec_framing(headers_view(hdrs@)),
{
    let te = find_header_exec(hdrs, &te_name());
    let cl = find_header_exec(hdrs, &cl_name());
    match (te, cl) {
        (Some(_), Some(_)) => Err(ParseError::BadTransferEncoding),
        (Some(it), None) => {
            if eq_lower(&hdrs[it].1, &chunked_name()) {
                Ok(Framing::Chunked)
            } else {
                Err(ParseError::BadTransferEncoding)
            }
        },
        (None, Some(ic)) => {
            match parse_content_length(&hdrs[ic].1) {
                Some(n) => Ok(Framing::ContentLength(n)),
                None => Err(ParseError::MalformedHeader),
            }
        },
        (None, None) => {
            match find_header_exec(hdrs, &upgrade_name()) {
                Some(_) => Ok(Framing::Upgrade),
                None => Ok(Framing::NoBody),
            }
        },
    }
}

impl RequestHead {
    /// May the connection be reused after this exchange?
    pub fn keep_alive(&self) -> (r: bool)
        ensures
            r == spec_keep_alive(self@),
    {
        match find_header_exec(&self.headers, &conn_name()) {
            Some(i) => !eq_lower(&self.headers[i].1, &close_name()),
            None => true,
        }
    }
}


/// Does the version string start with `HTTP/`?
fn version_is_http(v: &Vec<u8>) -> (r: bool)
    ensures
        r == (v@.len() >= 5 && v@.subrange(0, 5) == http_prefix_seq()),
{
    if v.len() < 5 {
        return false;
    }
    let r = v[0] == 72 && v[1] == 84 && v[2] == 84 && v[3] == 80 && v[4] == 47;
    proof {
        if r {
            assert(v@.subrange(0, 5) =~= http_prefix_seq());
        } else {
            if v@.subrange(0, 5) == http_prefix_seq() {
                assert(v@[0] == v@.subrange(0, 5)[0]);
                assert(v@[1] == v@.subrange(0, 5)[1]);
                assert(v@[2] == v@.subrange(0, 5)[2]);
                assert(v@[3] == v@.subrange(0, 5)[3]);
                assert(v@[4] == v@.subrange(0, 5)[4]);
                assert(false);
            }
        }
    }
    r
}

/// One feed of the incremental parser: examines the buffer's unread bytes
/// and yields exactly what the byte-level model `spec_parse_head` says.
pub fn feed(buf: &Buffer) -> (r: FeedResult)
    requires
        buf.wf(),
    ensures
        feed_matches(r, buf.unread()),
{
    let ghost s = buf.unread();
    let n = buf.unread_len();
    let j = match scan_terminator(buf, 0) {
        Some(j) => j,
        None => {
            if n > MAX_HEAD_SIZE {
                return FeedResult::Reject(ParseError::HeadTooLarge);
            } else {
                return FeedResult::Incomplete;
            }
        },
    };
    proof {
        lemma_find_term_bounds(s, 0);
    }
    if j + 4 > MAX_HEAD_SIZE {
        return FeedResult::Reject(ParseError::HeadTooLarge);
    }
    let ghost reg = s.subrange(0, j as int + 2);

    // The request line runs to the first line break.
    let k0 = scan_crlf(buf, 0, j);
    proof {
        lemma_find2_bounds(s, 0, CR, LF);
        lemma_find2_prefix(s, j as int + 2, 0, CR, LF, k0 as int);
        assert(split_lines(reg) == seq![reg.subrange(0, k0 as int)] + split_lines(
            reg.skip(k0 as int + 2),
        ));
        assert(reg.subrange(0, k0 as int) =~= s.subrange(0, k0 as int));
        if k0 as int + 1 == j as int {
            assert(s[j as int] == LF);
            assert(false);
        }
    }
    let rl = copy_range(buf, 0, k0);
    let ghost rl_s = rl@;
    let (m, t, v) = match parse_request_line_exec(&rl) {
        Some(p) => p,
        None => {
            return FeedResult::Reject(ParseError::MalformedRequestLine);
        },
    };
    if !eq_bytes(&v, &http11_name()) {
        if version_is_http(&v) {
            return FeedResult::Reject(ParseError::UnsupportedVersion);
        } else {
            return FeedResult::Reject(ParseError::MalformedRequestLine);
        }
    }

    // Header lines run to the empty line that ends the head.
    let mut hdrs: Vec<(Vec<u8>, Vec<u8>)> = Vec::new();
    let ghost mut done: Seq<Seq<u8>> = Seq::empty();
    let mut pos: usize = k0 + 2;
    proof {
        assert(done + split_lines(reg.skip(pos as int)) =~= split_lines(reg.skip(pos as int)));
        assert(split_lines(reg) == seq![rl_s] + (done + split_lines(reg.skip(pos as int))));
        assert(parse_headers(done) == Some(headers_view(hdrs@)));
    }
    while pos < j + 2
        invariant
            buf.wf(),
            s == buf.unread(),
            n == s.len(),
            find_term(s, 0) == Some(j as int),
            j + 4 <= s.len(),
            j + 4 <= MAX_HEAD_SIZE,
            s[j as int] == CR,
            s[j as int + 1] == LF,
            reg == s.subrange(0, j as int + 2),
            pos <= j || pos == j + 2,
            pos <= j + 2,
            split_lines(reg) == seq![rl_s] + (done + split_lines(reg.skip(pos as int))),
            parse_headers(done) == Some(headers_view(hdrs@)),
            parse_request_line(rl_s) == Some((m@, t@, v@)),
            v@ == http11_seq(),
        decreases j + 2 - pos,
    {
        let k = scan_crlf(buf, pos, j);
        proof {
            lemma_find2_bounds(s, pos as int, CR, LF);
            lemma_find2_prefix(s, j as int + 2, pos as int, CR, LF, k as int);
            lemma_find2_shift(reg, pos as int, 0, CR, LF);
            assert(find2(reg.skip(pos as int), 0, CR, LF) == Some(k as int - pos as int));
            assert(split_lines(reg.skip(pos as int)) == seq![reg.skip(pos as int).subrange(
                0,
                k as int - pos as int,
            )] + split_lines(reg.skip(pos as int).skip(k as int - pos as int + 2)));
            assert(reg.skip(pos as int).subrange(0, k as int - pos as int) =~= s.subrange(
                pos as int,
                k as int,
            ));
            assert(reg.skip(pos as int).skip(k as int - pos as int + 2) =~= reg.skip(
                k as int + 2,
            ));
            if k as int + 1 == j as int {
                assert(s[j as int] == LF);
                assert(false);
            }
        }
        let line = copy_range(buf, pos, k);
        match parse_header_exec(&line) {
            Some(h) => {
                let ghost done0 = done;
                let ghost hv0 = headers_view(hdrs@);
                let ghost hpair = (h.0@, h.1@);
                hdrs.push(h);
                proof {
                    done = done0 + seq![line@];
                    lemma_parse_headers_concat(done0, seq![line@]);
                    assert(seq![line@].drop_first() =~= Seq::<Seq<u8>>::empty());
                    assert(seq![line@][0] == line@);
                    assert(parse_header_line(line@) == Some(hpair));
                    assert(parse_headers(Seq::<Seq<u8>>::empty()) == Some(
                        Seq::<(Seq<u8>, Seq<u8>)>::empty(),
                    ));
                    assert(parse_headers(seq![line@].drop_first()) == Some(
                        Seq::<(Seq<u8>, Seq<u8>)>::empty(),
                    ));
                    assert(parse_headers(seq![line@]) == Some(seq![hpair]
                        + Seq::<(Seq<u8>, Seq<u8>)>::empty()));
                    assert(seq![hpair] + Seq::<(Seq<u8>, Seq<u8>)>::empty() =~= seq![hpair]);
                    assert(headers_view(hdrs@) =~= hv0 + seq![hpair]);
                    assert(parse_headers(done) == Some(headers_view(hdrs@)));
                    assert(done + split_lines(reg.skip(k as int + 2)) =~= done0 + (seq![line@]
                        + split_lines(reg.skip(k as int + 2))));
                }
                pos = k + 2;
            },
            None => {
                proof {
                    let remaining = split_lines(reg.skip(pos as int));
                    assert(remaining[0] == line@);
                    assert(remaining.len() > 0);
                    assert(parse_headers(remaining) is None);
                    lemma_parse_headers_concat(done, remaining);
                    assert(parse_headers(done + remaining) is None);
                    let lines = split_lines(reg);
                    assert(lines.drop_first() =~= done + remaining);
                    assert(lines[0] == rl_s);
                }
                return FeedResult::Reject(ParseError::MalformedHeader);
            },
        }
    }
    proof {
        assert(reg.skip(j as int + 2) =~= Seq::<u8>::empty());
        assert(split_lines(Seq::<u8>::empty()) =~= Seq::<Seq<u8>>::empty());
        assert(done + split_lines(reg.skip(pos as int)) =~= done);
        let lines = split_lines(reg);
        assert(lines == seq![rl_s] + done);
        assert(lines[0] == rl_s);
        assert(lines.drop_first() =~= done);
    }
    if hdrs.len() > MAX_HEADERS {
        return FeedResult::Reject(ParseError::TooManyHeaders);
    }
    let framing = match framing_exec(&hdrs) {
        Ok(f) => f,
        Err(e) => {
            return FeedResult::Reject(e);
        },
    };
    let ghost hs_final = headers_view(hdrs@);
    let head = RequestHead { method: m, target: t, version: v, headers: hdrs, framing };
    proof {
        assert(head@ == (SpecHead {
            method: head.method@,
            target: head.target@,
            version: head.version@,
            headers: hs_final,
            framing: framing,
        }));
        assert(spec_parse_head(s) == (SpecFeed::Complete { head: head@, consumed: j as int + 4 }));
    }
    FeedResult::Complete(head, j + 4)
}


/// Incremental-parsing equivalence: once a head is complete on some
/// bytes, any bytes that arrive later (more of the body, or pipelined
/// requests) leave the parsed head and its consumed count unchanged.
/// A request split across arbitrary partial reads therefore parses to
/// the same head as the whole message fed at once.
pub proof fn lemma_parse_prefix_stable(s: Seq<u8>, t: Seq<u8>)
    requires
        spec_parse_head(s) is Complete,
    ensures
        spec_parse_head(s + t) == spec_parse_head(s),
{
    let j = find_term(s, 0)->Some_0;
    lemma_find_term_bounds(s, 0);
    lemma_find_term_extend(s, t, 0, j);
    assert((s + t).subrange(0, j + 2) =~= s.subrange(0, j + 2));
}

} // verus!
