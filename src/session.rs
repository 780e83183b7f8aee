use vstd::prelude::*;
use crate::codec::{
    append_bytes, copy_range, decoded, encoded, supported, Chunk, ChunkData, ChunkModel,
    ChunkType, ChunkValue, HHead, MChat, MPlayer, MRequest, MServerInfo, MAX_PAYLOAD,
};
use crate::frame::{
    chunk_models, frame_wire, parse, parse_frame, write_frame, Parse, ParseOutcome,
};

verus! {

/// The chat ids handed out so far and the next one. Ids start at one, rise
/// by one with each chat line, and are never handed out twice.
pub struct ChatIds {
    next: u32,
    issued: Ghost<Seq<u32>>,
}

impl ChatIds {
    pub closed spec fn next_id(&self) -> u32 {
        self.next
    }

    pub closed spec fn issued(&self) -> Seq<u32> {
        self.issued@
    }

    pub closed spec fn wf(&self) -> bool {
        &&& self.next >= 1
        &&& forall|i: int, j: int|
            0 <= i < j < self.issued@.len() ==> self.issued@[i] < self.issued@[j]
        &&& forall|i: int| 0 <= i < self.issued@.len() ==> self.issued@[i] < self.next
    }

    pub fn new() -> (r: ChatIds)
        ensures
            r.wf(),
            r.next_id() == 1,
            r.issued() == Seq::<u32>::empty(),
    {
        ChatIds { next: 1, issued: Ghost(Seq::empty()) }
    }

    /// The id the next chat line gets.
    pub fn peek(&self) -> (r: u32)
        ensures
            r == self.next_id(),
    {
        self.next
    }

    /// Hands out the next id, or nothing once every id has been used.
    pub fn take(&mut self) -> (r: Option<u32>)
        requires
            old(self).wf(),
        ensures
            final(self).wf(),
            match r {
                Some(x) => {
                    &&& x == old(self).next_id()
                    &&& old(self).next_id() < u32::MAX
                    &&& final(self).next_id() == x + 1
                    &&& final(self).issued() == old(self).issued().push(x)
                },
                None => {
                    &&& old(self).next_id() == u32::MAX
                    &&& final(self).next_id() == old(self).next_id()
                    &&& final(self).issued() == old(self).issued()
                },
            },
    {
        if self.next == u32::MAX {
            return None;
        }
        let x = self.next;
        self.issued = Ghost(self.issued@.push(x));
        self.next = x + 1;
        Some(x)
    }
}

/// The chat ids handed out are strictly increasing, hence all distinct.
pub proof fn lemma_chat_ids_increase(c: &ChatIds)
    requires
        c.wf(),
    ensures
        forall|i: int, j: int|
            0 <= i < j < c.issued().len() ==> c.issued()[i] < c.issued()[j],
        forall|i: int, j: int|
            0 <= i < c.issued().len() && 0 <= j < c.issued().len() && i != j ==> c.issued()[i]
                != c.issued()[j],
{
    assert forall|i: int, j: int|
        0 <= i < c.issued().len() && 0 <= j < c.issued().len() && i != j implies c.issued()[i]
        != c.issued()[j] by {
        if i < j {
            assert(c.issued()[i] < c.issued()[j]);
        } else {
            assert(c.issued()[j] < c.issued()[i]);
        }
    }
}

/// The relay's own name, "ghastly".
pub open spec fn server_name() -> Seq<u8> {
    seq![103u8, 104, 97, 115, 116, 108, 121]
}

/// The name of the player that stands for the server, "server".
pub open spec fn server_player() -> Seq<u8> {
    seq![115u8, 101, 114, 118, 101, 114]
}

/// "Welcome, NAME!"
pub open spec fn welcome_text(name: Seq<u8>) -> Seq<u8> {
    seq![87u8, 101, 108, 99, 111, 109, 101, 44, 32] + name + seq![33u8]
}

/// "Cya, NAME!"
pub open spec fn farewell_text(name: Seq<u8>) -> Seq<u8> {
    seq![67u8, 121, 97, 44, 32] + name + seq![33u8]
}

/// The frames that open a session: its header with the server's name and a
/// request for player snapshots, then the server's own player tagged with
/// header zero.
pub open spec fn greeting_wire(id: u32) -> Seq<Seq<u8>> {
    seq![
        frame_wire(
            seq![
                encoded(ChunkValue::HHead(id)),
                encoded(ChunkValue::MServerInfo(server_name())),
                encoded(ChunkValue::MRequest(ChunkType::MPlayer)),
            ],
        ),
        frame_wire(
            seq![
                encoded(ChunkValue::MPlayer(server_player(), false)),
                encoded(ChunkValue::HHead(0)),
            ],
        ),
    ]
}

/// A player snapshot tagged with the header of session `id`.
pub open spec fn player_wire(id: u32, name: Seq<u8>, echo: bool) -> Seq<u8> {
    frame_wire(seq![encoded(ChunkValue::MPlayer(name, echo)), encoded(ChunkValue::HHead(id))])
}

/// A chat line of session `id`, in the normal colour, with chat id `chat_id`.
pub open spec fn chat_wire(id: u32, text: Seq<u8>, chat_id: u32) -> Seq<u8> {
    frame_wire(
        seq![
            encoded(ChunkValue::MChat(text, 255, 255, 255, chat_id)),
            encoded(ChunkValue::HHead(id)),
        ],
    )
}

/// A notice from the server (header zero) in yellow.
pub open spec fn notice_wire(text: Seq<u8>, chat_id: u32) -> Seq<u8> {
    frame_wire(
        seq![encoded(ChunkValue::HHead(0)), encoded(ChunkValue::MChat(text, 255, 255, 0, chat_id))],
    )
}

/// The frame that says session `id` has left: its header and an empty player.
pub open spec fn removal_wire(id: u32) -> Seq<u8> {
    frame_wire(
        seq![encoded(ChunkValue::HHead(id)), encoded(ChunkValue::MPlayer(Seq::empty(), false))],
    )
}

/// A chat text that fits in one chunk beside its colour and its id.
pub open spec fn text_fits(text: Seq<u8>) -> bool {
    text.len() + 7 <= MAX_PAYLOAD
}

/// A notice of `text` where a chat id is left and the text fits, else none.
pub open spec fn notice(text: Seq<u8>, next: u32) -> Seq<Seq<u8>> {
    if next < u32::MAX && text_fits(text) {
        seq![notice_wire(text, next)]
    } else {
        Seq::empty()
    }
}

pub open spec fn notice_used_id(text: Seq<u8>, next: u32) -> bool {
    next < u32::MAX && text_fits(text)
}

/// The frames that the chunks `cs` of one datagram frame become on the
/// datagram broadcast: each update chunk, after the header of session `id`.
pub open spec fn update_wire(id: u32, cs: Seq<ChunkModel>) -> Seq<Seq<u8>>
    decreases cs.len(),
{
    if cs.len() == 0 {
        Seq::empty()
    } else if cs[0].0 == ChunkType::UUpdate {
        seq![frame_wire(seq![encoded(ChunkValue::HHead(id)), cs[0]])] + update_wire(
            id,
            cs.drop_first(),
        )
    } else {
        update_wire(id, cs.drop_first())
    }
}

pub open spec fn byte_seqs(v: Seq<Vec<u8>>) -> Seq<Seq<u8>> {
    v.map_values(|b: Vec<u8>| b@)
}

fn frame_of_two(a: &ChunkData, b: &ChunkData) -> (r: Vec<u8>)
    requires
        supported(a@),
        supported(b@),
    ensures
        r@ == frame_wire(seq![encoded(a@), encoded(b@)]),
{
    let cs = vec![a.encode(), b.encode()];
    assert(chunk_models(cs@) =~= seq![encoded(a@), encoded(b@)]);
    write_frame(&cs)
}

fn frame_of_chunks(a: &ChunkData, b: &Chunk) -> (r: Vec<u8>)
    requires
        supported(a@),
        crate::codec::chunk_fits(b@),
    ensures
        r@ == frame_wire(seq![encoded(a@), b@]),
{
    let cs = vec![a.encode(), Chunk { typ: b.typ, data: b.data.clone() }];
    assert(chunk_models(cs@) =~= seq![encoded(a@), b@]);
    write_frame(&cs)
}

/// Appends `a`, `name` and `b`.
fn framed_name(a: Vec<u8>, name: &Vec<u8>, b: u8) -> (r: Vec<u8>)
    ensures
        r@ == a@ + name@ + seq![b],
{
    let mut r = a;
    append_bytes(&mut r, name.as_slice());
    r.push(b);
    r
}

/// The notice frame for `text`, taking its chat id from `ids`.
fn send_notice(text: Vec<u8>, ids: &mut ChatIds) -> (r: Vec<Vec<u8>>)
    requires
        old(ids).wf(),
    ensures
        final(ids).wf(),
        byte_seqs(r@) == notice(text@, old(ids).next_id()),
        notice_used_id(text@, old(ids).next_id()) ==> final(ids).next_id() == old(ids).next_id()
            + 1 && final(ids).issued() == old(ids).issued().push(old(ids).next_id()),
        !notice_used_id(text@, old(ids).next_id()) ==> final(ids).next_id() == old(ids).next_id()
            && final(ids).issued() == old(ids).issued(),
{
    let mut out: Vec<Vec<u8>> = Vec::new();
    if text.len() > MAX_PAYLOAD - 7 {
        assert(byte_seqs(out@) =~= Seq::<Seq<u8>>::empty());
        return out;
    }
    match ids.take() {
        Some(chat_id) => {
            let head = ChunkData::HHead(HHead { id: 0 });
            let chat = ChunkData::MChat(MChat { text, red: 255, green: 255, blue: 0, id: chat_id });
            out.push(frame_of_two(&head, &chat));
        },
        None => {},
    }
    assert(byte_seqs(out@) =~= notice(text@, old(ids).next_id()));
    out
}

/// What one chunk from the client does to a session whose welcomed name is
/// `name` and whose next chat id is `next`: the new name, the new next chat
/// id, and the frames to publish. A chat line is restamped with the next chat
/// id, the normal colour and the session's header. A player snapshot is
/// forwarded with its echo flag set and the session's header; the first one
/// with a name welcomes the player. Other chunks, and chunks that do not
/// decode, publish nothing.
pub open spec fn chunk_step(name: Option<Seq<u8>>, id: u32, next: u32, c: ChunkModel) -> (
    Option<Seq<u8>>,
    u32,
    Seq<Seq<u8>>,
) {
    match decoded(c) {
        Ok(ChunkValue::MChat(text, _, _, _, _)) => if next < u32::MAX {
            (name, (next + 1) as u32, seq![chat_wire(id, text, next)])
        } else {
            (name, next, Seq::empty())
        },
        Ok(ChunkValue::MPlayer(n, _)) => if name is None && n.len() > 0 {
            (
                Some(n),
                if notice_used_id(welcome_text(n), next) {
                    (next + 1) as u32
                } else {
                    next
                },
                seq![player_wire(id, n, true)] + notice(welcome_text(n), next),
            )
        } else {
            (name, next, seq![player_wire(id, n, true)])
        },
        _ => (name, next, Seq::empty()),
    }
}

/// What the chunks `cs` of one frame do to a session, one after the other.
pub open spec fn frame_steps(name: Option<Seq<u8>>, id: u32, next: u32, cs: Seq<ChunkModel>) -> (
    Option<Seq<u8>>,
    u32,
    Seq<Seq<u8>>,
)
    decreases cs.len(),
{
    if cs.len() == 0 {
        (name, next, Seq::empty())
    } else {
        let (n1, x1, o1) = chunk_step(name, id, next, cs[0]);
        let (n2, x2, o2) = frame_steps(n1, id, x1, cs.drop_first());
        (n2, x2, o1 + o2)
    }
}

/// One client's relay session: its id, and the name it was welcomed under
/// once it has sent a player snapshot with a name.
pub struct Session {
    pub id: u32,
    pub name: Option<Vec<u8>>,
}

pub open spec fn name_model(n: Option<Vec<u8>>) -> Option<Seq<u8>> {
    match n {
        Some(v) => Some(v@),
        None => None,
    }
}

impl Session {
    pub fn new(id: u32) -> (s: Session)
        ensures
            s.id == id,
            s.name is None,
    {
        Session { id, name: None }
    }

    /// The frames a session sends its client before reading anything.
    pub fn greeting(&self) -> (r: Vec<Vec<u8>>)
        ensures
            byte_seqs(r@) == greeting_wire(self.id),
    {
        let head = ChunkData::HHead(HHead { id: self.id }).encode();
        let info = ChunkData::MServerInfo(MServerInfo { name: vec![103u8, 104, 97, 115, 116, 108, 121] });
        assert(supported(info@)) by {
            assert(info@ == ChunkValue::MServerInfo(server_name()));
        }
        let info = info.encode();
        let req = ChunkData::MRequest(MRequest { id: ChunkType::MPlayer }).encode();
        let first = vec![head, info, req];
        assert(chunk_models(first@) =~= seq![
            encoded(ChunkValue::HHead(self.id)),
            encoded(ChunkValue::MServerInfo(server_name())),
            encoded(ChunkValue::MRequest(ChunkType::MPlayer)),
        ]);
        let first = write_frame(&first);
        let server = ChunkData::MPlayer(MPlayer { name: vec![115u8, 101, 114, 118, 101, 114], echo: false });
        assert(server@ == ChunkValue::MPlayer(server_player(), false));
        let second = frame_of_two(&server, &ChunkData::HHead(HHead { id: 0 }));
        let r = vec![first, second];
        assert(byte_seqs(r@) =~= greeting_wire(self.id));
        r
    }

    /// Handles one chunk from the client (see `chunk_step`) and returns the
    /// frames to publish on the reliable broadcast.
    pub fn on_chunk(&mut self, c: &Chunk, ids: &mut ChatIds) -> (r: Vec<Vec<u8>>)
        requires
            old(ids).wf(),
            c.data@.len() <= MAX_PAYLOAD,
        ensures
            final(ids).wf(),
            final(self).id == old(self).id,
            chunk_step(name_model(old(self).name), old(self).id, old(ids).next_id(), c@) == (
                name_model(final(self).name),
                final(ids).next_id(),
                byte_seqs(r@),
            ),
            final(ids).next_id() == old(ids).next_id() ==> final(ids).issued() == old(
                ids,
            ).issued(),
            final(ids).next_id() != old(ids).next_id() ==> final(ids).issued() == old(
                ids,
            ).issued().push(old(ids).next_id()),
    {
        let mut out: Vec<Vec<u8>> = Vec::new();
        let head = ChunkData::HHead(HHead { id: self.id });
        match ChunkData::decode(c) {
            Ok(ChunkData::MChat(chat)) => {
                match ids.take() {
                    Some(chat_id) => {
                        let fwd = ChunkData::MChat(
                            MChat { text: chat.text, red: 255, green: 255, blue: 255, id: chat_id },
                        );
                        out.push(frame_of_two(&fwd, &head));
                    },
                    None => {},
                }
                assert(byte_seqs(out@) =~= if old(ids).next_id() < u32::MAX {
                    seq![chat_wire(old(self).id, chat.text@, old(ids).next_id())]
                } else {
                    Seq::<Seq<u8>>::empty()
                });
            },
            Ok(ChunkData::MPlayer(player)) => {
                let ghost name = player.name@;
                let fwd = ChunkData::MPlayer(MPlayer { name: player.name.clone(), echo: true });
                out.push(frame_of_two(&fwd, &head));
                assert(byte_seqs(out@) =~= seq![player_wire(old(self).id, name, true)]);
                if self.name.is_none() && player.name.len() > 0 {
                    let text = framed_name(
                        vec![87u8, 101, 108, 99, 111, 109, 101, 44, 32],
                        &player.name,
                        33u8,
                    );
                    let mut notes = send_notice(text, ids);
                    let ghost before = byte_seqs(out@);
                    let ghost added = byte_seqs(notes@);
                    out.append(&mut notes);
                    assert(byte_seqs(out@) =~= before + added);
                    self.name = Some(player.name);
                }
            },
            _ => {
                assert(byte_seqs(out@) =~= Seq::<Seq<u8>>::empty());
            },
        }
        out
    }

    /// Handles the chunks of one frame from the client in order, and returns
    /// the frames to publish on the reliable broadcast.
    pub fn on_frame(&mut self, cs: &Vec<Chunk>, ids: &mut ChatIds) -> (r: Vec<Vec<u8>>)
        requires
            old(ids).wf(),
            forall|k: int| 0 <= k < cs@.len() ==> (#[trigger] cs@[k]).data@.len() <= MAX_PAYLOAD,
        ensures
            final(ids).wf(),
            final(self).id == old(self).id,
            frame_steps(
                name_model(old(self).name),
                old(self).id,
                old(ids).next_id(),
                chunk_models(cs@),
            ) == (name_model(final(self).name), final(ids).next_id(), byte_seqs(r@)),
    {
        let ghost all = chunk_models(cs@);
        let mut out: Vec<Vec<u8>> = Vec::new();
        let mut i: usize = 0;
        assert(all.skip(0) =~= all);
        assert(byte_seqs(out@) =~= Seq::<Seq<u8>>::empty());
        while i < cs.len()
            invariant
                i <= cs@.len(),
                all == chunk_models(cs@),
                ids.wf(),
                self.id == old(self).id,
                forall|k: int| 0 <= k < cs@.len() ==> (#[trigger] cs@[k]).data@.len() <= MAX_PAYLOAD,
                ({
                    let (nf, xf, of) = frame_steps(
                        name_model(self.name),
                        self.id,
                        ids.next_id(),
                        all.skip(i as int),
                    );
                    frame_steps(name_model(old(self).name), old(self).id, old(ids).next_id(), all)
                        == (nf, xf, byte_seqs(out@) + of)
                }),
            decreases cs@.len() - i,
        {
            let ghost before = byte_seqs(out@);
            assert(all.skip(i as int).drop_first() =~= all.skip(i + 1));
            assert(all.skip(i as int)[0] == cs@[i as int]@);
            let mut frames = self.on_chunk(&cs[i], ids);
            let ghost added = byte_seqs(frames@);
            out.append(&mut frames);
            assert(byte_seqs(out@) =~= before + added);
            proof {
                let (n2, x2, o2) = frame_steps(
                    name_model(self.name),
                    self.id,
                    ids.next_id(),
                    all.skip(i + 1),
                );
                assert(before + (added + o2) =~= (before + added) + o2);
            }
            i = i + 1;
        }
        assert(all.skip(i as int) =~= Seq::<ChunkModel>::empty());
        assert(byte_seqs(out@) + Seq::<Seq<u8>>::empty() =~= byte_seqs(out@));
        out
    }

    /// The frames to publish once the session ends: an empty player under
    /// this session's header, which removes it from the registry, then a
    /// farewell where the player was welcomed.
    pub fn farewell(&self, ids: &mut ChatIds) -> (r: Vec<Vec<u8>>)
        requires
            old(ids).wf(),
        ensures
            final(ids).wf(),
            byte_seqs(r@) == seq![removal_wire(self.id)] + match name_model(self.name) {
                Some(n) => notice(farewell_text(n), old(ids).next_id()),
                None => Seq::empty(),
            },
    {
        let head = ChunkData::HHead(HHead { id: self.id });
        let gone = ChunkData::MPlayer(MPlayer { name: Vec::new(), echo: false });
        assert(gone@ == ChunkValue::MPlayer(Seq::empty(), false));
        let mut out: Vec<Vec<u8>> = vec![frame_of_two(&head, &gone)];
        match &self.name {
            Some(name) => {
                let text = framed_name(vec![67u8, 121, 97, 44, 32], name, 33u8);
                let mut notes = send_notice(text, ids);
                let ghost before = byte_seqs(out@);
                let ghost added = byte_seqs(notes@);
                out.append(&mut notes);
                assert(byte_seqs(out@) =~= before + added);
            },
            None => {
                assert(byte_seqs(out@) =~= seq![removal_wire(self.id)] + Seq::<Seq<u8>>::empty());
            },
        }
        out
    }

    /// The frames to publish on the datagram broadcast for the chunks of one
    /// datagram frame: each update chunk under this session's header.
    pub fn updates(&self, cs: &Vec<Chunk>) -> (r: Vec<Vec<u8>>)
        requires
            forall|k: int| 0 <= k < cs@.len() ==> (#[trigger] cs@[k]).data@.len() <= MAX_PAYLOAD,
        ensures
            byte_seqs(r@) == update_wire(self.id, chunk_models(cs@)),
    {
        let ghost all = chunk_models(cs@);
        let mut out: Vec<Vec<u8>> = Vec::new();
        let head = ChunkData::HHead(HHead { id: self.id });
        let mut i: usize = 0;
        assert(all.skip(0) =~= all);
        while i < cs.len()
            invariant
                i <= cs@.len(),
                all == chunk_models(cs@),
                head@ == ChunkValue::HHead(self.id),
                forall|k: int| 0 <= k < cs@.len() ==> (#[trigger] cs@[k]).data@.len() <= MAX_PAYLOAD,
                update_wire(self.id, all) == byte_seqs(out@) + update_wire(
                    self.id,
                    all.skip(i as int),
                ),
            decreases cs@.len() - i,
        {
            let ghost before = byte_seqs(out@);
            assert(all.skip(i as int).drop_first() =~= all.skip(i + 1));
            if cs[i].typ == ChunkType::UUpdate {
                assert(cs@[i as int].data@.len() <= MAX_PAYLOAD);
                out.push(frame_of_chunks(&head, &cs[i]));
                assert(byte_seqs(out@) =~= before.push(
                    frame_wire(seq![encoded(ChunkValue::HHead(self.id)), all[i as int]]),
                ));
                assert(before + update_wire(self.id, all.skip(i as int)) =~= byte_seqs(out@)
                    + update_wire(self.id, all.skip(i + 1)));
            }
            i = i + 1;
        }
        assert(all.skip(i as int) =~= Seq::<ChunkModel>::empty());
        assert(byte_seqs(out@) + Seq::<Seq<u8>>::empty() =~= byte_seqs(out@));
        out
    }
}

/// The player snapshot of a registered player, tagged with its header, as a
/// newly connected client receives it.
pub fn player_frame(id: u32, player: &MPlayer) -> (r: Vec<u8>)
    requires
        player.name@.len() < MAX_PAYLOAD,
    ensures
        r@ == player_wire(id, player.name@, player.echo),
{
    let p = ChunkData::MPlayer(MPlayer { name: player.name.clone(), echo: player.echo });
    frame_of_two(&p, &ChunkData::HHead(HHead { id }))
}

/// The bytes read from one connection and not yet parsed.
pub struct StreamBuffer {
    pub bytes: Vec<u8>,
}

impl StreamBuffer {
    pub fn new() -> (r: StreamBuffer)
        ensures
            r.bytes@ == Seq::<u8>::empty(),
    {
        StreamBuffer { bytes: Vec::new() }
    }

    /// Appends what was just read.
    pub fn feed(&mut self, data: &[u8])
        ensures
            final(self).bytes@ == old(self).bytes@ + data@,
    {
        append_bytes(&mut self.bytes, data);
    }

    /// Parses the frame at the front of the buffer, and drops exactly the
    /// bytes it took.
    pub fn next_frame(&mut self) -> (r: ParseOutcome)
        ensures
            r@ == parse(old(self).bytes@),
            match r@ {
                Parse::Parsed(_, n) => final(self).bytes@ == old(self).bytes@.skip(n as int),
                _ => final(self).bytes@ == old(self).bytes@,
            },
    {
        let r = parse_frame(self.bytes.as_slice());
        match &r {
            ParseOutcome::Parsed(_, n) => {
                proof {
                    crate::frame::lemma_parsed_within(self.bytes@, 0);
                }
                let len = self.bytes.len();
                self.bytes = copy_range(self.bytes.as_slice(), *n, len);
            },
            _ => {},
        }
        r
    }
}

} // verus!
