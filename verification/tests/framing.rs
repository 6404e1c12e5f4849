use lordserver::checksum::{checksum, Checksum};
use lordserver::frame::{RawFrame, HEADER_LEN, MAX_PAYLOAD, SYNC_ONE, SYNC_TWO, TRAILER_LEN};
use lordserver::parser::{FrameParser, ParserState};

const VECTOR_FRAME: [u8; 20] = [
    0x75, 0x65, 0x80, 0x0e, 0x0c, 0x04, 0x3f, 0x80, 0x00, 0x00, 0x40, 0x00, 0x00, 0x00, 0x40, 0x40,
    0x00, 0x00, 0x1d, 0xe2,
];

fn vector_payload() -> Vec<u8> {
    VECTOR_FRAME[4..18].to_vec()
}

#[test]
fn checksum_of_nothing_is_zero() {
    assert_eq!(checksum(&[]), Checksum { sum1: 0, sum2: 0 });
}

#[test]
fn checksum_exact_values() {
    assert_eq!(checksum(&[1, 2, 3]), Checksum { sum1: 6, sum2: 10 });
    assert_eq!(checksum(&[0xff, 0xff]), Checksum { sum1: 254, sum2: 253 });
    assert_eq!(checksum(b"abcde"), Checksum { sum1: 239, sum2: 195 });
}

#[test]
fn checksum_depends_on_order() {
    assert_ne!(checksum(&[1, 2]), checksum(&[2, 1]));
}

#[test]
fn frame_constants() {
    assert_eq!(SYNC_ONE, 0x75);
    assert_eq!(SYNC_TWO, 0x65);
    assert_eq!(HEADER_LEN, 4);
    assert_eq!(TRAILER_LEN, 2);
    assert_eq!(MAX_PAYLOAD, 255);
}

#[test]
fn frame_encodes_to_exact_bytes() {
    let frame = RawFrame::new(0x80, vector_payload()).unwrap();
    assert_eq!(frame.category(), 0x80);
    assert_eq!(frame.payload(), &VECTOR_FRAME[4..18]);
    assert_eq!(frame.checksum(), Checksum { sum1: 0x1d, sum2: 0xe2 });
    assert_eq!(frame.encode(), VECTOR_FRAME.to_vec());
}

#[test]
fn empty_payload_frame() {
    let frame = RawFrame::new(0x81, Vec::new()).unwrap();
    assert_eq!(frame.encode(), vec![0x75, 0x65, 0x81, 0x00, 0x81, 0x02]);
}

#[test]
fn frame_payload_limit() {
    assert!(RawFrame::new(0x80, vec![0u8; 255]).is_some());
    assert!(RawFrame::new(0x80, vec![0u8; 256]).is_none());
}

#[test]
fn frame_clone_is_equal() {
    let frame = RawFrame::new(0x99, vec![1, 2, 3]).unwrap();
    let copy = frame.clone();
    assert_eq!(copy, frame);
    assert_eq!(copy.encode(), vec![0x75, 0x65, 0x99, 0x03, 0x01, 0x02, 0x03, 0xa2, 0x13]);
}

#[test]
fn parser_finds_one_frame() {
    let mut parser = FrameParser::new();
    let frames = parser.push(&VECTOR_FRAME);
    assert_eq!(frames.len(), 1);
    assert_eq!(frames[0].category(), 0x80);
    assert_eq!(frames[0].payload(), &VECTOR_FRAME[4..18]);
    assert_eq!(frames[0].checksum(), Checksum { sum1: 0x1d, sum2: 0xe2 });
    assert_eq!(parser.pending_len(), 0);
    assert_eq!(parser.state(), ParserState::SeekSync);
}

#[test]
fn parser_roundtrip_of_encoded_frame() {
    let frame = RawFrame::new(0x42, vec![9, 8, 7, 6, 5]).unwrap();
    let mut parser = FrameParser::new();
    let frames = parser.push(&frame.encode());
    assert_eq!(frames, vec![frame]);
}

#[test]
fn parser_discards_noise_before_sync() {
    let mut bytes = vec![0x00, 0x13, 0x75, 0x00, 0x65, 0xff];
    bytes.extend_from_slice(&VECTOR_FRAME);
    let mut parser = FrameParser::new();
    let frames = parser.push(&bytes);
    assert_eq!(frames.len(), 1);
    assert_eq!(frames[0].encode(), VECTOR_FRAME.to_vec());
    assert_eq!(parser.pending_len(), 0);
}

#[test]
fn parser_buffers_across_short_reads() {
    let mut parser = FrameParser::new();
    let mut found = Vec::new();
    for (i, byte) in VECTOR_FRAME.iter().enumerate() {
        let frames = parser.push(&[*byte]);
        if i + 1 < VECTOR_FRAME.len() {
            assert!(frames.is_empty());
            assert_eq!(parser.pending_len(), i + 1);
        }
        found.extend(frames);
    }
    assert_eq!(found.len(), 1);
    assert_eq!(found[0].encode(), VECTOR_FRAME.to_vec());
    assert_eq!(parser.pending_len(), 0);
}

#[test]
fn parser_chunking_does_not_matter() {
    let mut stream = vec![0x01, 0x75];
    stream.extend_from_slice(&VECTOR_FRAME);
    stream.extend_from_slice(&[0x75, 0x75, 0x99]);
    stream.extend_from_slice(&RawFrame::new(0x99, vec![1, 2, 3]).unwrap().encode());
    stream.extend_from_slice(&[0x75, 0x65, 0x80, 0x05, 0x01]);
    let mut whole = FrameParser::new();
    let expected = whole.push(&stream);
    assert_eq!(expected.len(), 2);
    for cut in 0..=stream.len() {
        let mut parser = FrameParser::new();
        let mut frames = parser.push(&stream[..cut]);
        frames.extend(parser.push(&stream[cut..]));
        assert_eq!(frames, expected);
        assert_eq!(parser.pending_len(), whole.pending_len());
        assert_eq!(parser.state(), whole.state());
    }
}

#[test]
fn parser_states_follow_the_frame() {
    let mut parser = FrameParser::new();
    assert_eq!(parser.state(), ParserState::SeekSync);
    parser.push(&VECTOR_FRAME[..1]);
    assert_eq!(parser.state(), ParserState::SeekSync);
    parser.push(&VECTOR_FRAME[1..2]);
    assert_eq!(parser.state(), ParserState::ReadHeader);
    parser.push(&VECTOR_FRAME[2..3]);
    assert_eq!(parser.state(), ParserState::ReadHeader);
    parser.push(&VECTOR_FRAME[3..4]);
    assert_eq!(parser.state(), ParserState::ReadPayload);
    parser.push(&VECTOR_FRAME[4..17]);
    assert_eq!(parser.state(), ParserState::ReadPayload);
    parser.push(&VECTOR_FRAME[17..18]);
    assert_eq!(parser.state(), ParserState::ReadChecksum);
    parser.push(&VECTOR_FRAME[18..19]);
    assert_eq!(parser.state(), ParserState::ReadChecksum);
    let frames = parser.push(&VECTOR_FRAME[19..]);
    assert_eq!(frames.len(), 1);
    assert_eq!(parser.state(), ParserState::SeekSync);
}

#[test]
fn parser_holds_back_a_lone_sync_byte() {
    let mut parser = FrameParser::new();
    assert!(parser.push(&[0x00, 0x01, 0x75]).is_empty());
    assert_eq!(parser.pending_len(), 1);
    let frames = parser.push(&VECTOR_FRAME[1..]);
    assert_eq!(frames.len(), 1);
}

#[test]
fn parser_drops_bytes_that_cannot_start_a_frame() {
    let mut parser = FrameParser::new();
    assert!(parser.push(&[0x01, 0x02, 0x65, 0x75, 0x00]).is_empty());
    assert_eq!(parser.pending_len(), 0);
    assert_eq!(parser.state(), ParserState::SeekSync);
}

#[test]
fn damaged_checksum_then_valid_frame() {
    let mut bad = VECTOR_FRAME.to_vec();
    let last = bad.len() - 1;
    bad[last] ^= 0xff;
    let mut parser = FrameParser::new();
    assert!(parser.push(&bad).is_empty());
    assert_eq!(parser.pending_len(), 0);
    let frames = parser.push(&VECTOR_FRAME);
    assert_eq!(frames.len(), 1);
    assert_eq!(frames[0].encode(), VECTOR_FRAME.to_vec());
}

#[test]
fn bad_checksum_and_valid_frame_in_one_read() {
    for which in [18usize, 19usize] {
        let mut stream = VECTOR_FRAME.to_vec();
        stream[which] = stream[which].wrapping_add(1);
        let next = RawFrame::new(0x80, vec![0x01, 0x09, 0xaa]).unwrap();
        stream.extend_from_slice(&next.encode());
        let mut parser = FrameParser::new();
        let frames = parser.push(&stream);
        assert_eq!(frames, vec![next]);
        assert_eq!(parser.pending_len(), 0);
    }
}

#[test]
fn corrupted_length_byte_does_not_swallow_the_next_frame() {
    let mut stream = VECTOR_FRAME.to_vec();
    stream[3] = 0x02;
    stream.extend_from_slice(&VECTOR_FRAME);
    let mut parser = FrameParser::new();
    let frames = parser.push(&stream);
    assert_eq!(frames.len(), 1);
    assert_eq!(frames[0].encode(), VECTOR_FRAME.to_vec());
}

#[test]
fn frame_hidden_in_a_damaged_frame_is_found() {
    let inner = RawFrame::new(0x80, vec![0x00, 0x07]).unwrap();
    let outer = RawFrame::new(0x80, inner.encode()).unwrap();
    let mut bytes = outer.encode();
    let last = bytes.len() - 1;
    bytes[last] ^= 0x01;
    let mut parser = FrameParser::new();
    let frames = parser.push(&bytes);
    assert_eq!(frames, vec![inner]);
}

#[test]
fn two_frames_back_to_back() {
    let first = RawFrame::new(0x80, vec![0x00, 0x01]).unwrap();
    let second = RawFrame::new(0x81, vec![0x01, 0x02, 0x03]).unwrap();
    let mut stream = first.encode();
    stream.extend_from_slice(&second.encode());
    let mut parser = FrameParser::new();
    assert_eq!(parser.push(&stream), vec![first, second]);
}

#[test]
fn longest_frame_is_parsed() {
    let frame = RawFrame::new(0x10, vec![0x75; 255]).unwrap();
    let bytes = frame.encode();
    assert_eq!(bytes.len(), 261);
    let mut parser = FrameParser::new();
    assert!(parser.push(&bytes[..260]).is_empty());
    assert_eq!(parser.pending_len(), 260);
    assert_eq!(parser.push(&bytes[260..]), vec![frame]);
}

#[test]
fn sync_pattern_in_noise_delays_but_does_not_lose_the_next_frame() {
    let mut stream = vec![0x75, 0x65, 0x99, 0x20];
    stream.extend_from_slice(&VECTOR_FRAME);
    let mut parser = FrameParser::new();
    assert!(parser.push(&stream).is_empty());
    assert_eq!(parser.pending_len(), 24);
    assert_eq!(parser.state(), ParserState::ReadPayload);
    assert!(parser.push(&[0u8; 13]).is_empty());
    assert_eq!(parser.state(), ParserState::ReadChecksum);
    let frames = parser.push(&[0u8; 1]);
    assert_eq!(frames.len(), 1);
    assert_eq!(frames[0].encode(), VECTOR_FRAME.to_vec());
    assert_eq!(parser.pending_len(), 0);
}
