use ghastly::codec::{
    Chunk, ChunkData, ChunkType, DecodeError, HHead, MChat, MPlayer, MRequest, MServerInfo,
};

fn round_trip(d: &ChunkData) -> ChunkData {
    ChunkData::decode(&d.encode()).unwrap()
}

#[test]
fn head_layout_is_little_endian() {
    let c = ChunkData::HHead(HHead { id: 0x0403_0201 }).encode();
    assert_eq!(c.typ, ChunkType::HHead);
    assert_eq!(c.data, vec![1, 2, 3, 4]);
    match round_trip(&ChunkData::HHead(HHead { id: 0x0403_0201 })) {
        ChunkData::HHead(h) => assert_eq!(h.id, 0x0403_0201),
        other => panic!("{:?}", other),
    }
}

#[test]
fn player_round_trip() {
    let d = ChunkData::MPlayer(MPlayer { name: b"Alice".to_vec(), echo: true });
    let c = d.encode();
    assert_eq!(c.data, b"\x01Alice".to_vec());
    match round_trip(&d) {
        ChunkData::MPlayer(p) => {
            assert_eq!(p.name, b"Alice".to_vec());
            assert!(p.echo);
        }
        other => panic!("{:?}", other),
    }
}

#[test]
fn chat_round_trip() {
    let d = ChunkData::MChat(MChat { text: b"hi".to_vec(), red: 1, green: 2, blue: 3, id: 258 });
    assert_eq!(d.encode().data, vec![1, 2, 3, 2, 1, 0, 0, b'h', b'i']);
    match round_trip(&d) {
        ChunkData::MChat(m) => {
            assert_eq!(m.text, b"hi".to_vec());
            assert_eq!((m.red, m.green, m.blue, m.id), (1, 2, 3, 258));
        }
        other => panic!("{:?}", other),
    }
}

#[test]
fn other_values_round_trip() {
    match round_trip(&ChunkData::MServerInfo(MServerInfo { name: b"srv".to_vec() })) {
        ChunkData::MServerInfo(i) => assert_eq!(i.name, b"srv".to_vec()),
        other => panic!("{:?}", other),
    }
    match round_trip(&ChunkData::MRequest(MRequest { id: ChunkType::MPlayer })) {
        ChunkData::MRequest(r) => assert_eq!(r.id, ChunkType::MPlayer),
        other => panic!("{:?}", other),
    }
    match round_trip(&ChunkData::UUpdate(vec![9, 8, 7])) {
        ChunkData::UUpdate(d) => assert_eq!(d, vec![9, 8, 7]),
        other => panic!("{:?}", other),
    }
    match round_trip(&ChunkData::Unknown(200, vec![5])) {
        ChunkData::Unknown(t, d) => assert_eq!((t, d), (200, vec![5])),
        other => panic!("{:?}", other),
    }
}

#[test]
fn tags_map_both_ways() {
    assert_eq!(ChunkType::from_tag(1), ChunkType::HHead);
    assert_eq!(ChunkType::from_tag(6), ChunkType::UUpdate);
    assert_eq!(ChunkType::from_tag(77), ChunkType::Unknown(77));
    assert_eq!(ChunkType::MChat.tag(), 3);
    assert_eq!(ChunkType::Unknown(77).tag(), 77);
}

#[test]
fn short_head_is_a_length_error() {
    let c = Chunk { typ: ChunkType::HHead, data: vec![1, 2, 3] };
    assert_eq!(ChunkData::decode(&c).unwrap_err(), DecodeError::Length);
    let c = Chunk { typ: ChunkType::MChat, data: vec![1, 2, 3, 4, 5, 6] };
    assert_eq!(ChunkData::decode(&c).unwrap_err(), DecodeError::Length);
    let c = Chunk { typ: ChunkType::MRequest, data: vec![] };
    assert_eq!(ChunkData::decode(&c).unwrap_err(), DecodeError::Length);
    let c = Chunk { typ: ChunkType::MPlayer, data: vec![] };
    assert_eq!(ChunkData::decode(&c).unwrap_err(), DecodeError::Length);
}

#[test]
fn bad_echo_flag_is_a_flag_error() {
    let c = Chunk { typ: ChunkType::MPlayer, data: vec![2, b'a'] };
    assert_eq!(ChunkData::decode(&c).unwrap_err(), DecodeError::Flag);
}

#[test]
fn unknown_tag_passes_through() {
    let c = Chunk { typ: ChunkType::Unknown(99), data: vec![1, 2] };
    match ChunkData::decode(&c).unwrap() {
        ChunkData::Unknown(t, d) => assert_eq!((t, d), (99, vec![1, 2])),
        other => panic!("{:?}", other),
    }
}
