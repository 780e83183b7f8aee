use ghastly::codec::{Chunk, ChunkData, ChunkType, HHead, MChat, MPlayer};
use ghastly::frame::{parse_frame, write_frame, ParseOutcome};
use ghastly::latest::LatestSlot;
use ghastly::registry::Registry;
use ghastly::session::{player_frame, ChatIds, Session};

fn chunks_of(frame: &[u8]) -> Vec<ChunkData> {
    match parse_frame(frame) {
        ParseOutcome::Parsed(cs, n) => {
            assert_eq!(n, frame.len());
            cs.iter().map(|c| ChunkData::decode(c).unwrap()).collect()
        }
        other => panic!("{:?}", other),
    }
}

fn player_chunk(name: &[u8]) -> Chunk {
    ChunkData::MPlayer(MPlayer { name: name.to_vec(), echo: false }).encode()
}

fn chat_text(d: &ChunkData) -> (Vec<u8>, u8, u8, u8, u32) {
    match d {
        ChunkData::MChat(m) => (m.text.clone(), m.red, m.green, m.blue, m.id),
        other => panic!("{:?}", other),
    }
}

fn head_id(d: &ChunkData) -> u32 {
    match d {
        ChunkData::HHead(h) => h.id,
        other => panic!("{:?}", other),
    }
}

#[test]
fn greeting_frames() {
    let s = Session::new(5);
    let g = s.greeting();
    assert_eq!(g.len(), 2);
    let first = chunks_of(&g[0]);
    assert_eq!(head_id(&first[0]), 5);
    match &first[1] {
        ChunkData::MServerInfo(i) => assert_eq!(i.name, b"ghastly".to_vec()),
        other => panic!("{:?}", other),
    }
    match &first[2] {
        ChunkData::MRequest(r) => assert_eq!(r.id, ChunkType::MPlayer),
        other => panic!("{:?}", other),
    }
    let second = chunks_of(&g[1]);
    match &second[0] {
        ChunkData::MPlayer(p) => assert_eq!(p.name, b"server".to_vec()),
        other => panic!("{:?}", other),
    }
    assert_eq!(head_id(&second[1]), 0);
}

#[test]
fn join_welcomes_and_registers() {
    let mut ids = ChatIds::new();
    let mut reg = Registry::new();
    let mut alice = Session::new(1);
    let out = alice.on_chunk(&player_chunk(b"Alice"), &mut ids);
    assert_eq!(out.len(), 2);
    for f in &out {
        reg.apply_frame(f);
    }
    let fwd = chunks_of(&out[0]);
    match &fwd[0] {
        ChunkData::MPlayer(p) => {
            assert_eq!(p.name, b"Alice".to_vec());
            assert!(p.echo);
        }
        other => panic!("{:?}", other),
    }
    assert_eq!(head_id(&fwd[1]), 1);
    let welcome = chunks_of(&out[1]);
    assert_eq!(head_id(&welcome[0]), 0);
    assert_eq!(chat_text(&welcome[1]), (b"Welcome, Alice!".to_vec(), 255, 255, 0, 1));
    let entry = reg.players.get(&1).unwrap();
    assert_eq!(entry.player.name, b"Alice".to_vec());
    assert_eq!(entry.raw_id, vec![1, 0, 0, 0]);
    assert_eq!(alice.name, Some(b"Alice".to_vec()));

    // A client that connects afterwards is sent Alice's snapshot under her header.
    let frame = player_frame(1, &entry.player);
    let cs = chunks_of(&frame);
    match &cs[0] {
        ChunkData::MPlayer(p) => assert_eq!(p.name, b"Alice".to_vec()),
        other => panic!("{:?}", other),
    }
    assert_eq!(head_id(&cs[1]), 1);

    // A second snapshot is forwarded without a second welcome.
    let again = alice.on_chunk(&player_chunk(b"Alice2"), &mut ids);
    assert_eq!(again.len(), 1);
    assert_eq!(ids.peek(), 2);
}

#[test]
fn leave_removes_and_says_goodbye() {
    let mut ids = ChatIds::new();
    let mut reg = Registry::new();
    let mut alice = Session::new(3);
    for f in alice.on_chunk(&player_chunk(b"Alice"), &mut ids) {
        reg.apply_frame(&f);
    }
    assert!(reg.players.contains_key(&3));
    let out = alice.farewell(&mut ids);
    assert_eq!(out.len(), 2);
    let removal = chunks_of(&out[0]);
    assert_eq!(head_id(&removal[0]), 3);
    match &removal[1] {
        ChunkData::MPlayer(p) => assert!(p.name.is_empty()),
        other => panic!("{:?}", other),
    }
    assert_eq!(chat_text(&chunks_of(&out[1])[1]), (b"Cya, Alice!".to_vec(), 255, 255, 0, 2));
    for f in &out {
        reg.apply_frame(f);
    }
    assert!(!reg.players.contains_key(&3));
}

#[test]
fn unwelcomed_leave_has_no_goodbye() {
    let mut ids = ChatIds::new();
    let s = Session::new(4);
    assert_eq!(s.farewell(&mut ids).len(), 1);
    assert_eq!(ids.peek(), 1);
}

#[test]
fn chat_is_restamped() {
    let mut ids = ChatIds::new();
    let mut s = Session::new(9);
    let c = ChunkData::MChat(MChat { text: b"yo".to_vec(), red: 1, green: 2, blue: 3, id: 77 }).encode();
    let a = s.on_chunk(&c, &mut ids);
    let b = s.on_chunk(&c, &mut ids);
    let ca = chunks_of(&a[0]);
    let cb = chunks_of(&b[0]);
    assert_eq!(chat_text(&ca[0]), (b"yo".to_vec(), 255, 255, 255, 1));
    assert_eq!(chat_text(&cb[0]), (b"yo".to_vec(), 255, 255, 255, 2));
    assert_eq!(head_id(&ca[1]), 9);
    assert!(s.name.is_none());
}

#[test]
fn chat_ids_rise_across_sessions() {
    let mut ids = ChatIds::new();
    let mut got = Vec::new();
    let mut s1 = Session::new(1);
    let mut s2 = Session::new(2);
    let c = ChunkData::MChat(MChat { text: b"x".to_vec(), red: 0, green: 0, blue: 0, id: 0 }).encode();
    for k in 0..6 {
        let s = if k % 2 == 0 { &mut s1 } else { &mut s2 };
        let out = s.on_chunk(&c, &mut ids);
        got.push(chat_text(&chunks_of(&out[0])[0]).4);
    }
    assert_eq!(got, vec![1, 2, 3, 4, 5, 6]);
    assert_eq!(ids.take(), Some(7));
}

#[test]
fn other_chunks_publish_nothing() {
    let mut ids = ChatIds::new();
    let mut s = Session::new(1);
    let c = Chunk { typ: ChunkType::Unknown(42), data: vec![1] };
    assert!(s.on_chunk(&c, &mut ids).is_empty());
    let bad = Chunk { typ: ChunkType::MPlayer, data: vec![7] };
    assert!(s.on_chunk(&bad, &mut ids).is_empty());
}

#[test]
fn malformed_input_ends_only_its_session() {
    let mut ids = ChatIds::new();
    let mut reg = Registry::new();
    let mut bob = Session::new(2);
    let bad = vec![1u8, 2, 0, 9, 9, 0];
    assert!(matches!(parse_frame(&bad), ParseOutcome::Malformed));
    for f in bob.on_chunk(&player_chunk(b"Bob"), &mut ids) {
        reg.apply_frame(&f);
    }
    assert!(reg.players.contains_key(&2));
}

#[test]
fn updates_are_retagged() {
    let s = Session::new(6);
    let cs = vec![
        Chunk { typ: ChunkType::UUpdate, data: vec![1, 2] },
        ChunkData::HHead(HHead { id: 1 }).encode(),
        Chunk { typ: ChunkType::UUpdate, data: vec![3] },
    ];
    let out = s.updates(&cs);
    assert_eq!(out.len(), 2);
    assert_eq!(
        out[0],
        write_frame(&vec![ChunkData::HHead(HHead { id: 6 }).encode(), cs[0].clone()])
    );
    let second = chunks_of(&out[1]);
    assert_eq!(head_id(&second[0]), 6);
    match &second[1] {
        ChunkData::UUpdate(d) => assert_eq!(d, &vec![3]),
        other => panic!("{:?}", other),
    }
}

#[test]
fn registry_join_then_leave() {
    let mut reg = Registry::new();
    reg.update(1, MPlayer { name: b"A".to_vec(), echo: true });
    reg.update(2, MPlayer { name: b"B".to_vec(), echo: false });
    assert_eq!(reg.players.len(), 2);
    reg.update(1, MPlayer { name: vec![], echo: false });
    assert!(!reg.players.contains_key(&1));
    assert!(reg.players.contains_key(&2));
}

#[test]
fn latest_value_wins() {
    let mut slot = LatestSlot::new();
    assert!(slot.read(0).is_none());
    for k in 1..=5u8 {
        slot.publish(vec![k]);
    }
    assert_eq!(slot.read(0), Some((5, vec![5])));
    assert_eq!(slot.read(5), None);
    slot.publish(vec![6]);
    assert_eq!(slot.read(5), Some((6, vec![6])));
    assert_eq!(slot.version(), 6);
}

#[test]
fn frame_of_chunks_is_handled_in_order() {
    let mut ids = ChatIds::new();
    let mut s = Session::new(8);
    let cs = vec![
        ChunkData::HHead(HHead { id: 99 }).encode(),
        ChunkData::MChat(MChat { text: b"a".to_vec(), red: 0, green: 0, blue: 0, id: 0 }).encode(),
        player_chunk(b"Eve"),
        ChunkData::MChat(MChat { text: b"b".to_vec(), red: 0, green: 0, blue: 0, id: 0 }).encode(),
    ];
    let out = s.on_frame(&cs, &mut ids);
    assert_eq!(out.len(), 4);
    assert_eq!(chat_text(&chunks_of(&out[0])[0]), (b"a".to_vec(), 255, 255, 255, 1));
    assert_eq!(head_id(&chunks_of(&out[1])[1]), 8);
    assert_eq!(chat_text(&chunks_of(&out[2])[1]), (b"Welcome, Eve!".to_vec(), 255, 255, 0, 2));
    assert_eq!(chat_text(&chunks_of(&out[3])[0]), (b"b".to_vec(), 255, 255, 255, 3));
    assert_eq!(s.name, Some(b"Eve".to_vec()));
}
