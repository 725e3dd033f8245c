use pyre::buffer::Buffer;
use pyre::chunked::ChunkStep;
use pyre::chunked::decode_step;
use pyre::chunked::encode_chunk;
use pyre::chunked::encode_last;

fn buf_of(s: &[u8]) -> Buffer {
    let mut b = Buffer::new();
    b.append(&s.to_vec());
    b
}

#[test]
fn encodes_one_chunk() {
    assert_eq!(encode_chunk(&b"Wiki".to_vec()), b"4\r\nWiki\r\n".to_vec());
    assert_eq!(encode_last(), b"0\r\n\r\n".to_vec());
}

#[test]
fn encodes_multi_digit_hex_sizes() {
    let data = vec![b'x'; 26];
    let enc = encode_chunk(&data);
    assert_eq!(&enc[..4], b"1a\r\n");
    assert_eq!(enc.len(), 4 + 26 + 2);
}

#[test]
fn decodes_single_chunk_then_end() {
    let mut b = buf_of(b"4\r\nWiki\r\n0\r\n\r\n");
    match decode_step(&b) {
        ChunkStep::Data(d, consumed) => {
            assert_eq!(d, b"Wiki".to_vec());
            assert_eq!(consumed, 9);
            b.consume(consumed);
        },
        _ => panic!("expected a data chunk"),
    }
    match decode_step(&b) {
        ChunkStep::EndOfChunks(consumed) => assert_eq!(consumed, 5),
        _ => panic!("expected the terminating chunk"),
    }
}

#[test]
fn round_trip_is_boundary_blind() {
    // Encode three chunks, then decode the concatenation: the decoded
    // bytes are exactly what the chunks carried, with no trace of the
    // boundaries the encoder chose.
    let chunks: Vec<Vec<u8>> = vec![b"Hello".to_vec(), b", ".to_vec(), b"world".to_vec()];
    let mut wire: Vec<u8> = Vec::new();
    for c in &chunks {
        wire.extend_from_slice(&encode_chunk(c));
    }
    wire.extend_from_slice(&encode_last());

    let mut b = buf_of(&wire);
    let mut decoded: Vec<u8> = Vec::new();
    loop {
        match decode_step(&b) {
            ChunkStep::Data(d, consumed) => {
                decoded.extend_from_slice(&d);
                b.consume(consumed);
            },
            ChunkStep::EndOfChunks(_) => break,
            _ => panic!("well-formed stream must decode"),
        }
    }
    assert_eq!(decoded, b"Hello, world".to_vec());
}

#[test]
fn partial_chunk_needs_more() {
    let b = buf_of(b"4\r\nWi");
    assert!(matches!(decode_step(&b), ChunkStep::NeedMore));
    let b2 = buf_of(b"4");
    assert!(matches!(decode_step(&b2), ChunkStep::NeedMore));
}

#[test]
fn malformed_size_line_is_bad() {
    let b = buf_of(b"Z9\r\nxx\r\n");
    assert!(matches!(decode_step(&b), ChunkStep::Bad));
    let b2 = buf_of(b"\r\nxx\r\n");
    assert!(matches!(decode_step(&b2), ChunkStep::Bad));
}

#[test]
fn missing_chunk_terminator_is_bad() {
    let b = buf_of(b"4\r\nWikiXY");
    assert!(matches!(decode_step(&b), ChunkStep::Bad));
}

#[test]
fn trailer_lines_are_skipped_to_the_end() {
    let mut b = buf_of(b"4\r\nWiki\r\n0\r\nX-Sum: abc\r\n\r\n");
    match decode_step(&b) {
        ChunkStep::Data(d, consumed) => {
            assert_eq!(d, b"Wiki".to_vec());
            b.consume(consumed);
        },
        _ => panic!("expected a data chunk"),
    }
    match decode_step(&b) {
        ChunkStep::EndOfChunks(consumed) => assert_eq!(consumed, b.unread_len()),
        _ => panic!("expected the terminating chunk"),
    }
}
