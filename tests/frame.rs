use ghastly::codec::{Chunk, ChunkData, ChunkType, HHead, MPlayer};
use ghastly::frame::{parse_frame, write_frame, ParseOutcome};
use ghastly::session::StreamBuffer;

fn sample() -> Vec<u8> {
    let chunks = vec![
        ChunkData::HHead(HHead { id: 7 }).encode(),
        ChunkData::MPlayer(MPlayer { name: b"Bob".to_vec(), echo: false }).encode(),
        Chunk { typ: ChunkType::UUpdate, data: vec![1, 2, 3] },
    ];
    write_frame(&chunks)
}

#[test]
fn frame_bytes_are_exact() {
    let chunks = vec![ChunkData::HHead(HHead { id: 7 }).encode()];
    assert_eq!(write_frame(&chunks), vec![1, 4, 0, 7, 0, 0, 0, 0]);
    assert_eq!(write_frame(&vec![]), vec![0]);
}

#[test]
fn written_frame_parses_back() {
    let bytes = sample();
    match parse_frame(&bytes) {
        ParseOutcome::Parsed(cs, n) => {
            assert_eq!(n, bytes.len());
            assert_eq!(cs.len(), 3);
            assert_eq!(cs[0].typ, ChunkType::HHead);
            assert_eq!(cs[1].data, b"\x00Bob".to_vec());
            assert_eq!(cs[2].data, vec![1, 2, 3]);
        }
        other => panic!("{:?}", other),
    }
}

#[test]
fn every_proper_prefix_needs_more() {
    let bytes = sample();
    for k in 0..bytes.len() {
        assert!(matches!(parse_frame(&bytes[..k]), ParseOutcome::NeedMoreBytes));
    }
}

#[test]
fn split_feeding_matches_whole() {
    let mut two = sample();
    two.extend(sample());
    let mut whole = StreamBuffer::new();
    whole.feed(&two);
    let mut expected = Vec::new();
    while let ParseOutcome::Parsed(cs, _) = whole.next_frame() {
        expected.push(cs.len());
    }
    assert_eq!(expected, vec![3, 3]);
    for cut in 0..=two.len() {
        let mut buf = StreamBuffer::new();
        let mut got = Vec::new();
        buf.feed(&two[..cut]);
        while let ParseOutcome::Parsed(cs, _) = buf.next_frame() {
            got.push(cs.len());
        }
        buf.feed(&two[cut..]);
        while let ParseOutcome::Parsed(cs, _) = buf.next_frame() {
            got.push(cs.len());
        }
        assert_eq!(got, expected, "cut at {}", cut);
        assert!(buf.bytes.is_empty());
    }
}

#[test]
fn truncated_head_payload_is_malformed() {
    // A header chunk that declares a three-byte payload.
    let bytes = vec![1, 3, 0, 9, 9, 9, 0];
    assert!(matches!(parse_frame(&bytes), ParseOutcome::Malformed));
}

#[test]
fn unknown_chunk_is_not_malformed() {
    let bytes = vec![200, 2, 0, 9, 9, 0];
    match parse_frame(&bytes) {
        ParseOutcome::Parsed(cs, n) => {
            assert_eq!(n, 6);
            assert_eq!(cs[0].typ, ChunkType::Unknown(200));
        }
        other => panic!("{:?}", other),
    }
}

#[test]
fn consumed_prefix_is_dropped() {
    let mut bytes = sample();
    bytes.extend([1u8, 4]);
    let mut buf = StreamBuffer::new();
    buf.feed(&bytes);
    assert!(matches!(buf.next_frame(), ParseOutcome::Parsed(_, _)));
    assert_eq!(buf.bytes, vec![1, 4]);
    assert!(matches!(buf.next_frame(), ParseOutcome::NeedMoreBytes));
    assert_eq!(buf.bytes, vec![1, 4]);
}
