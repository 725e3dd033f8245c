//! Chunked transfer encoding: the codec and its round-trip law.
//!
//! A chunk is a hexadecimal size line, the data, and a line break; the
//! stream ends with a zero-size chunk and an empty trailer section.
//! Decoding is specified as a pure function of the byte stream, so chunk
//! boundaries chosen by an encoder are irrelevant to the decoded result.

use vstd::prelude::*;
use crate::CR;
use crate::LF;
use crate::buffer::Buffer;
use crate::head::find2;
use crate::head::find_term;
use crate::parser::copy_range;
use crate::parser::lemma_find2_bounds;
use crate::parser::lemma_find_term_bounds;
use crate::parser::scan_terminator;

verus! {

/// Largest accepted chunk-size line or trailer section, in bytes.
pub const MAX_CHUNK_LINE: usize = 8192;

/// Is the byte a hexadecimal digit?
pub open spec fn is_hex_digit(b: u8) -> bool {
    (48 <= b <= 57) || (97 <= b <= 102) || (65 <= b <= 70)
}

/// The value of one hexadecimal digit byte.
pub open spec fn hex_digit_val(b: u8) -> int {
    if 48 <= b <= 57 {
        b - 48
    } else if 97 <= b <= 102 {
        b - 87
    } else {
        b - 55
    }
}

/// The value of a hexadecimal numeral.
pub open spec fn hex_val(s: Seq<u8>) -> int
    decreases s.len(),
{
    if s.len() == 0 {
        0
    } else {
        hex_val(s.take(s.len() - 1)) * 16 + hex_digit_val(s[s.len() - 1])
    }
}

/// One or more hexadecimal digits.
pub open spec fn all_hex(s: Seq<u8>) -> bool {
    s.len() > 0 && forall|k: int| 0 <= k < s.len() ==> is_hex_digit(#[trigger] s[k])
}

/// A chunk size this engine accepts: up to 15 hex digits, so the value
/// always fits in a `u64`.
pub open spec fn valid_chunk_size(s: Seq<u8>) -> bool {
    all_hex(s) && s.len() <= 15
}

/// The lower-case digit byte for a value below sixteen.
pub open spec fn hex_digit(d: int) -> u8 {
    if d < 10 {
        (48 + d) as u8
    } else {
        (87 + d) as u8
    }
}

/// The shortest hexadecimal numeral of a nonnegative value.
pub open spec fn hex_rep(n: int) -> Seq<u8>
    decreases n,
        when n >= 0
{
    if n < 16 {
        seq![hex_digit(n)]
    } else {
        hex_rep(n / 16).push(hex_digit(n % 16))
    }
}

/// The line break.
pub open spec fn crlf() -> Seq<u8> {
    seq![13u8, 10u8]
}

/// The encoding of one data chunk.
pub open spec fn spec_encode_chunk(d: Seq<u8>) -> Seq<u8> {
    hex_rep(d.len() as int) + crlf() + d + crlf()
}

/// The terminating zero-size chunk with an empty trailer section.
pub open spec fn spec_last_chunk() -> Seq<u8> {
    seq![48u8, 13u8, 10u8, 13u8, 10u8]
}

/// What one decoding step yields, as a mathematical value.
pub ghost enum SpecChunkStep {
    /// One data chunk; `consumed` bytes of the stream belong to it.
    Data { data: Seq<u8>, consumed: int },
    /// The terminating chunk; the body is over after `consumed` bytes.
    End { consumed: int },
    /// More bytes are needed.
    Incomplete,
    /// The framing is malformed.
    Bad,
}

/// One decoding step, as a pure function of the stream so far.
pub open spec fn spec_parse_chunk(s: Seq<u8>) -> SpecChunkStep {
    match find2(s, 0, CR, LF) {
        None => if s.len() > MAX_CHUNK_LINE {
            SpecChunkStep::Bad
        } else {
            SpecChunkStep::Incomplete
        },
        Some(j) => {
            let szs = s.subrange(0, j);
            if !valid_chunk_size(szs) {
                SpecChunkStep::Bad
            } else {
                let n = hex_val(szs);
                if n == 0 {
                    match find_term(s, j) {
                        Some(e) => SpecChunkStep::End { consumed: e + 4 },
                        None => if s.len() > j + MAX_CHUNK_LINE {
                            SpecChunkStep::Bad
                        } else {
                            SpecChunkStep::Incomplete
                        },
                    }
                } else {
                    if s.len() < j + 2 + n + 2 {
                        SpecChunkStep::Incomplete
                    } else if s[j + 2 + n] == CR && s[j + 2 + n + 1] == LF {
                        SpecChunkStep::Data { data: s.subrange(j + 2, j + 2 + n), consumed: j + 2
                            + n + 2 }
                    } else {
                        SpecChunkStep::Bad
                    }
                }
            }
        },
    }
}

/// The whole body a well-formed chunk stream carries.
pub open spec fn decode_all(s: Seq<u8>) -> Option<Seq<u8>>
    decreases s.len(),
{
    match spec_parse_chunk(s) {
        SpecChunkStep::Data { data, consumed } => if 0 < consumed <= s.len() {
            match decode_all(s.skip(consumed)) {
                Some(rest) => Some(data + rest),
                None => None,
            }
        } else {
            None
        },
        SpecChunkStep::End { consumed } => Some(Seq::empty()),
        SpecChunkStep::Incomplete => None,
        SpecChunkStep::Bad => None,
    }
}

/// The encoding of a sequence of chunks, terminator included.
pub open spec fn encode_chunks(cs: Seq<Seq<u8>>) -> Seq<u8>
    decreases cs.len(),
{
    if cs.len() == 0 {
        spec_last_chunk()
    } else {
        spec_encode_chunk(cs[0]) + encode_chunks(cs.drop_first())
    }
}

/// The bytes the chunks carry, in order.
pub open spec fn concat_chunks(cs: Seq<Seq<u8>>) -> Seq<u8>
    decreases cs.len(),
{
    if cs.len() == 0 {
        Seq::empty()
    } else {
        cs[0] + concat_chunks(cs.drop_first())
    }
}

/// Powers of sixteen, for bounding hexadecimal numerals.
pub open spec fn pow16(n: nat) -> int
    decreases n,
{
    if n == 0 {
        1
    } else {
        16 * pow16((n - 1) as nat)
    }
}

/// A hexadecimal numeral of digits is bounded by the power of sixteen of
/// its length.
pub proof fn lemma_hex_val_bound(s: Seq<u8>)
    requires
        forall|k: int| 0 <= k < s.len() ==> is_hex_digit(#[trigger] s[k]),
    ensures
        0 <= hex_val(s) < pow16(s.len()),
    decreases s.len(),
{
    if s.len() == 0 {
    } else {
        let pre = s.take(s.len() - 1);
        assert(forall|k: int| 0 <= k < pre.len() ==> is_hex_digit(#[trigger] pre[k]));
        lemma_hex_val_bound(pre);
    }
}

/// Powers of sixteen grow with the exponent.
pub proof fn lemma_pow16_mono(m: nat, n: nat)
    requires
        m <= n,
    ensures
        pow16(m) <= pow16(n),
        1 <= pow16(m),
    decreases n,
{
    if n == 0 {
    } else if m == n {
        lemma_pow16_mono((n - 1) as nat, (n - 1) as nat);
    } else {
        lemma_pow16_mono(m, (n - 1) as nat);
    }
}

/// `pow16(14)` and `pow16(15)` as numerals.
pub proof fn lemma_pow16_values()
    ensures
        pow16(14) == 0x100000000000000,
        pow16(15) == 0x1000000000000000,
{
    assert(pow16(0) == 1);
    assert(pow16(1) == 0x10);
    assert(pow16(2) == 0x100);
    assert(pow16(3) == 0x1000);
    assert(pow16(4) == 0x10000);
    assert(pow16(5) == 0x100000);
    assert(pow16(6) == 0x1000000);
    assert(pow16(7) == 0x10000000);
    assert(pow16(8) == 0x100000000);
    assert(pow16(9) == 0x1000000000);
    assert(pow16(10) == 0x10000000000);
    assert(pow16(11) == 0x100000000000);
    assert(pow16(12) == 0x1000000000000);
    assert(pow16(13) == 0x10000000000000);
    assert(pow16(14) == 0x100000000000000);
    assert(pow16(15) == 0x1000000000000000);
}

/// The hexadecimal representation evaluates back to its value, consists
/// of hex digits, and contains no line-break bytes.
pub proof fn lemma_hex_rep_val(n: int)
    requires
        n >= 0,
    ensures
        hex_val(hex_rep(n)) == n,
        hex_rep(n).len() >= 1,
        forall|k: int|
            0 <= k < hex_rep(n).len() ==> is_hex_digit(#[trigger] hex_rep(n)[k]) && hex_rep(n)[k]
                != CR && hex_rep(n)[k] != LF,
    decreases n,
{
    if n < 16 {
        let s = hex_rep(n);
        assert(s =~= seq![hex_digit(n)]);
        assert(s.take(0) =~= Seq::<u8>::empty());
        assert(hex_val(s) == hex_val(s.take(0)) * 16 + hex_digit_val(s[0]));
    } else {
        lemma_hex_rep_val(n / 16);
        let pre = hex_rep(n / 16);
        let s = hex_rep(n);
        assert(s == pre.push(hex_digit(n % 16)));
        assert(s.take(s.len() - 1) =~= pre);
        assert(hex_val(s) == hex_val(pre) * 16 + hex_digit_val(s[s.len() - 1]));
        assert(hex_val(s) == (n / 16) * 16 + n % 16);
    }
}

/// A value below `pow16(k)` needs at most `k` digits.
pub proof fn lemma_hex_rep_len(n: int, k: nat)
    requires
        0 <= n < pow16(k),
        k >= 1,
    ensures
        hex_rep(n).len() <= k,
    decreases k,
{
    if n < 16 {
    } else {
        assert(pow16(k) == 16 * pow16((k - 1) as nat));
        assert(n / 16 < pow16((k - 1) as nat));
        lemma_pow16_mono(1, (k - 1) as nat);
        lemma_hex_rep_len(n / 16, (k - 1) as nat);
    }
}


/// If no line break starts before `j` and one starts at `j`, it is the
/// first one found.
pub proof fn lemma_find2_first(s: Seq<u8>, i0: int, j: int, a: u8, b: u8)
    requires
        0 <= i0 <= j,
        j + 2 <= s.len(),
        s[j] == a,
        s[j + 1] == b,
        forall|i: int| i0 <= i < j ==> !(#[trigger] s[i] == a && s[i + 1] == b),
    ensures
        find2(s, i0, a, b) == Some(j),
    decreases j - i0,
{
    if i0 == j {
    } else {
        lemma_find2_first(s, i0 + 1, j, a, b);
    }
}

/// Chunked round trip: decoding the encoding of any sequence of chunks
/// yields exactly the bytes the chunks carry, in order.  The boundaries
/// an encoder chooses are irrelevant to the decoded result.  The bounds
/// on the chunks are the framing's own: a zero-size chunk is the stream
/// terminator, so no data chunk is empty, and a size line of more than
/// fifteen digits is past the accepted size-line limit.
pub proof fn lemma_chunk_roundtrip(cs: Seq<Seq<u8>>)
    requires
        forall|i: int| 0 <= i < cs.len() ==> 0 < #[trigger] cs[i].len() < pow16(15),
    ensures
        decode_all(encode_chunks(cs)) == Some(concat_chunks(cs)),
    decreases cs.len(),
{
    if cs.len() == 0 {
        let s = spec_last_chunk();
        assert(s.len() == 5);
        assert(s[0] == 48 && s[1] == CR && s[2] == LF && s[3] == CR && s[4] == LF);
        assert(find2(s, 1, CR, LF) == Some(1int));
        assert(find2(s, 0, CR, LF) == find2(s, 1, CR, LF));
        let szs = s.subrange(0, 1);
        assert(szs =~= seq![48u8]);
        assert(all_hex(szs));
        assert(szs.take(0) =~= Seq::<u8>::empty());
        assert(hex_val(Seq::<u8>::empty()) == 0);
        assert(hex_val(szs) == hex_val(szs.take(0)) * 16 + hex_digit_val(szs[0]));
        assert(hex_val(szs) == 0);
        assert(find_term(s, 1) == Some(1int));
        assert(spec_parse_chunk(s) == (SpecChunkStep::End { consumed: 5 }));
        assert(concat_chunks(cs) =~= Seq::<u8>::empty());
    } else {
        let c0 = cs[0];
        let enc0 = spec_encode_chunk(c0);
        let rest = encode_chunks(cs.drop_first());
        let s = enc0 + rest;
        assert(encode_chunks(cs) == s);
        let n = c0.len() as int;
        let h = hex_rep(n);
        let hl = h.len() as int;
        lemma_hex_rep_val(n);
        lemma_hex_rep_len(n, 15);
        assert(enc0.len() == hl + 2 + n + 2);
        assert forall|i: int| 0 <= i < hl implies !(#[trigger] s[i] == CR && s[i + 1] == LF) by {
            assert(s[i] == h[i]);
            assert(is_hex_digit(h[i]) && h[i] != CR);
        }
        assert(s[hl] == CR && s[hl + 1] == LF);
        lemma_find2_first(s, 0, hl, CR, LF);
        let szs = s.subrange(0, hl);
        assert(szs =~= h);
        assert(valid_chunk_size(szs));
        assert(hex_val(szs) == n);
        assert(n > 0);
        assert(s.len() >= hl + 2 + n + 2);
        assert(s[hl + 2 + n] == CR && s[hl + 2 + n + 1] == LF);
        assert(s.subrange(hl + 2, hl + 2 + n) =~= c0);
        assert(spec_parse_chunk(s) == (SpecChunkStep::Data {
            data: c0,
            consumed: hl + 2 + n + 2,
        }));
        assert(s.skip(hl + 2 + n + 2) =~= rest);
        assert(forall|i: int|
            0 <= i < cs.drop_first().len() ==> 0 < #[trigger] cs.drop_first()[i].len() < pow16(
                15,
            ));
        lemma_chunk_roundtrip(cs.drop_first());
        assert(decode_all(s) == Some(c0 + concat_chunks(cs.drop_first())));
        assert(concat_chunks(cs) == c0 + concat_chunks(cs.drop_first()));
    }
}

/// One hexadecimal digit byte, lower case.
fn hex_digit_exec(d: u64) -> (r: u8)
    requires
        d < 16,
    ensures
        r == hex_digit(d as int),
{
    if d < 10 {
        48 + (d as u8)
    } else {
        87 + (d as u8)
    }
}

/// The hexadecimal numeral of `n`.
fn hex_bytes(n: u64) -> (r: Vec<u8>)
    ensures
        r@ == hex_rep(n as int),
    decreases n,
{
    if n < 16 {
        let mut v: Vec<u8> = Vec::new();
        v.push(hex_digit_exec(n));
        proof {
            assert(v@ =~= seq![hex_digit(n as int)]);
        }
        v
    } else {
        let mut v = hex_bytes(n / 16);
        v.push(hex_digit_exec(n % 16));
        proof {
            assert(v@ =~= hex_rep(n as int / 16).push(hex_digit(n as int % 16)));
        }
        v
    }
}

/// Encodes one nonempty data chunk: size line, data, line break.
pub fn encode_chunk(data: &Vec<u8>) -> (r: Vec<u8>)
    requires
        data@.len() > 0,
    ensures
        r@ == spec_encode_chunk(data@),
{
    let mut out = hex_bytes(data.len() as u64);
    out.push(CR);
    out.push(LF);
    proof {
        assert(out@ =~= hex_rep(data@.len() as int) + crlf());
    }
    let ghost prefix = out@;
    let mut i: usize = 0;
    while i < data.len()
        invariant
            i <= data@.len(),
            out@ == prefix + data@.subrange(0, i as int),
        decreases data@.len() - i,
    {
        let b = data[i];
        out.push(b);
        proof {
            assert(out@ =~= prefix + data@.subrange(0, i + 1));
        }
        i = i + 1;
    }
    out.push(CR);
    out.push(LF);
    proof {
        assert(data@.subrange(0, data@.len() as int) =~= data@);
        assert(out@ =~= spec_encode_chunk(data@));
    }
    out
}

/// Encodes the terminating chunk with an empty trailer section.
pub fn encode_last() -> (r: Vec<u8>)
    ensures
        r@ == spec_last_chunk(),
{
    let mut v: Vec<u8> = Vec::new();
    v.push(48);
    v.push(CR);
    v.push(LF);
    v.push(CR);
    v.push(LF);
    proof {
        assert(v@ =~= spec_last_chunk());
    }
    v
}

/// What one decoding step yields.
pub enum ChunkStep {
    /// One data chunk; the second field is how many stream bytes it took.
    Data(Vec<u8>, usize),
    /// The terminating chunk; the body ends after this many bytes.
    EndOfChunks(usize),
    /// More bytes are needed.
    NeedMore,
    /// The framing is malformed.
    Bad,
}

/// The decoding step agrees with the byte-level model on input `s`.
pub open spec fn chunk_step_matches(r: ChunkStep, s: Seq<u8>) -> bool {
    match r {
        ChunkStep::Data(d, c) => spec_parse_chunk(s) == (SpecChunkStep::Data {
            data: d@,
            consumed: c as int,
        }),
        ChunkStep::EndOfChunks(c) => spec_parse_chunk(s) == (SpecChunkStep::End {
            consumed: c as int,
        }),
        ChunkStep::NeedMore => spec_parse_chunk(s) is Incomplete,
        ChunkStep::Bad => spec_parse_chunk(s) is Bad,
    }
}

/// Finds the first line break in the unread region.
fn scan_crlf_any(buf: &Buffer) -> (r: Option<usize>)
    requires
        buf.wf(),
    ensures
        match r {
            Some(j) => find2(buf.unread(), 0, CR, LF) == Some(j as int),
            None => find2(buf.unread(), 0, CR, LF) is None,
        },
{
    let ghost s = buf.unread();
    let n = buf.unread_len();
    let mut i: usize = 0;
    while n >= 2 && i <= n - 2
        invariant
            buf.wf(),
            s == buf.unread(),
            n == s.len(),
            i <= n,
            find2(s, 0, CR, LF) == find2(s, i as int, CR, LF),
        decreases n - i,
    {
        if buf.get(i) == CR && buf.get(i + 1) == LF {
            proof {
                assert(find2(s, i as int, CR, LF) == Some(i as int));
            }
            return Some(i);
        }
        proof {
            assert(find2(s, i as int, CR, LF) == find2(s, i + 1, CR, LF));
        }
        i = i + 1;
    }
    proof {
        assert(find2(s, i as int, CR, LF) is None);
    }
    None
}

/// Parses a hexadecimal chunk size of up to 15 digits.
fn hex_value_of(v: &Vec<u8>) -> (r: Option<u64>)
    ensures
        match r {
            Some(n) => valid_chunk_size(v@) && n as int == hex_val(v@),
            None => !valid_chunk_size(v@),
        },
{
    if v.len() == 0 || v.len() > 15 {
        return None;
    }
    let mut val: u64 = 0;
    let mut i: usize = 0;
    while i < v.len()
        invariant
            i <= v@.len(),
            0 < v@.len() <= 15,
            forall|k: int| 0 <= k < i ==> is_hex_digit(#[trigger] v@[k]),
            val as int == hex_val(v@.take(i as int)),
        decreases v@.len() - i,
    {
        let b = v[i];
        let d: u64 = if 48 <= b && b <= 57 {
            (b - 48) as u64
        } else if 97 <= b && b <= 102 {
            (b - 87) as u64
        } else if 65 <= b && b <= 70 {
            (b - 55) as u64
        } else {
            proof {
                assert(!is_hex_digit(v@[i as int]));
                assert(!all_hex(v@));
            }
            return None;
        };
        proof {
            assert(is_hex_digit(v@[i as int]));
            assert(d as int == hex_digit_val(v@[i as int]));
            assert(forall|k: int|
                0 <= k < v@.take(i as int).len() ==> is_hex_digit(
                    #[trigger] v@.take(i as int)[k],
                ));
            lemma_hex_val_bound(v@.take(i as int));
            lemma_pow16_mono(i as nat, 14);
            lemma_pow16_values();
            assert(val as int <= 0x100000000000000 - 1);
        }
        val = val * 16 + d;
        proof {
            assert(v@.take(i + 1).take(i as int) =~= v@.take(i as int));
            assert(v@.take(i + 1)[i as int] == v@[i as int]);
            assert(hex_val(v@.take(i + 1)) == hex_val(v@.take(i as int)) * 16 + hex_digit_val(
                v@[i as int],
            ));
        }
        i = i + 1;
    }
    proof {
        assert(v@.take(v@.len() as int) =~= v@);
    }
    Some(val)
}

/// One decoding step over the buffer's unread bytes: yields exactly what
/// the byte-level model `spec_parse_chunk` says.
pub fn decode_step(buf: &Buffer) -> (r: ChunkStep)
    requires
        buf.wf(),
    ensures
        chunk_step_matches(r, buf.unread()),
{
    let ghost s = buf.unread();
    let n_len = buf.unread_len();
    let j = match scan_crlf_any(buf) {
        Some(j) => j,
        None => {
            if n_len > MAX_CHUNK_LINE {
                return ChunkStep::Bad;
            } else {
                return ChunkStep::NeedMore;
            }
        },
    };
    proof {
        lemma_find2_bounds(s, 0, CR, LF);
        assert(s.subrange(0, j as int).len() == j as int);
    }
    let szv = copy_range(buf, 0, j);
    let n = match hex_value_of(&szv) {
        Some(n) => n,
        None => {
            return ChunkStep::Bad;
        },
    };
    if n == 0 {
        match scan_terminator(buf, j) {
            Some(e) => {
                proof {
                    lemma_find_term_bounds(s, j as int);
                }
                ChunkStep::EndOfChunks(e + 4)
            },
            None => {
                if n_len - j > MAX_CHUNK_LINE {
                    ChunkStep::Bad
                } else {
                    ChunkStep::NeedMore
                }
            },
        }
    } else {
        proof {
            lemma_hex_val_bound(szv@);
            lemma_pow16_mono(szv@.len() as nat, 15);
            lemma_pow16_values();
            assert(n < 0x1000000000000000);
        }
        let rem = (n_len - j - 2) as u64;
        if rem < n + 2 {
            return ChunkStep::NeedMore;
        }
        let nu = n as usize;
        if buf.get(j + 2 + nu) == CR && buf.get(j + 3 + nu) == LF {
            let data = copy_range(buf, j + 2, j + 2 + nu);
            ChunkStep::Data(data, j + 4 + nu)
        } else {
            ChunkStep::Bad
        }
    }
}

} // verus!
