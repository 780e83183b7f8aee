use vstd::prelude::*;

verus! {

/// The largest payload a chunk can carry: its length travels in two bytes.
pub const MAX_PAYLOAD: usize = 65535;

/// The kind of a chunk, carried on the wire as one tag byte. Tag zero is not a
/// chunk: it closes a frame.
#[derive(PartialEq, Eq, Structural, Clone, Copy, Debug)]
pub enum ChunkType {
    HHead,
    MPlayer,
    MChat,
    MServerInfo,
    MRequest,
    UUpdate,
    Unknown(u8),
}

pub open spec fn tag_of(t: ChunkType) -> u8 {
    match t {
        ChunkType::HHead => 1,
        ChunkType::MPlayer => 2,
        ChunkType::MChat => 3,
        ChunkType::MServerInfo => 4,
        ChunkType::MRequest => 5,
        ChunkType::UUpdate => 6,
        ChunkType::Unknown(n) => n,
    }
}

pub open spec fn type_of_tag(b: u8) -> ChunkType {
    if b == 1 {
        ChunkType::HHead
    } else if b == 2 {
        ChunkType::MPlayer
    } else if b == 3 {
        ChunkType::MChat
    } else if b == 4 {
        ChunkType::MServerInfo
    } else if b == 5 {
        ChunkType::MRequest
    } else if b == 6 {
        ChunkType::UUpdate
    } else {
        ChunkType::Unknown(b)
    }
}

/// A chunk type written the one way its tag reads back.
pub open spec fn canonical(t: ChunkType) -> bool {
    type_of_tag(tag_of(t)) == t
}

impl ChunkType {
    pub fn from_tag(b: u8) -> (t: ChunkType)
        ensures
            t == type_of_tag(b),
    {
        match b {
            1 => ChunkType::HHead,
            2 => ChunkType::MPlayer,
            3 => ChunkType::MChat,
            4 => ChunkType::MServerInfo,
            5 => ChunkType::MRequest,
            6 => ChunkType::UUpdate,
            _ => ChunkType::Unknown(b),
        }
    }

    pub fn tag(&self) -> (b: u8)
        ensures
            b == tag_of(*self),
    {
        match self {
            ChunkType::HHead => 1,
            ChunkType::MPlayer => 2,
            ChunkType::MChat => 3,
            ChunkType::MServerInfo => 4,
            ChunkType::MRequest => 5,
            ChunkType::UUpdate => 6,
            ChunkType::Unknown(n) => *n,
        }
    }
}

/// A chunk as a type and its payload.
pub type ChunkModel = (ChunkType, Seq<u8>);

/// A tagged payload, before or after its typed decoding.
#[derive(Clone, Debug)]
pub struct Chunk {
    pub typ: ChunkType,
    pub data: Vec<u8>,
}

impl View for Chunk {
    type V = ChunkModel;

    open spec fn view(&self) -> ChunkModel {
        (self.typ, self.data@)
    }
}

/// A chunk that can stand in a frame: a canonical type that is not the frame
/// end, and a payload whose length fits in two bytes.
pub open spec fn chunk_fits(c: ChunkModel) -> bool {
    canonical(c.0) && tag_of(c.0) != 0 && c.1.len() <= MAX_PAYLOAD
}

/// The four little-endian bytes of `x`.
pub open spec fn le_bytes(x: u32) -> Seq<u8> {
    seq![
        (x & 0xff) as u8,
        ((x >> 8u32) & 0xff) as u8,
        ((x >> 16u32) & 0xff) as u8,
        ((x >> 24u32) & 0xff) as u8,
    ]
}

/// The number whose little-endian bytes are `a`, `b`, `c`, `d`.
pub open spec fn from_le(a: u8, b: u8, c: u8, d: u8) -> u32 {
    (a as u32) | ((b as u32) << 8u32) | ((c as u32) << 16u32) | ((d as u32) << 24u32)
}

pub proof fn lemma_le_round_trip(x: u32)
    ensures
        from_le(le_bytes(x)[0], le_bytes(x)[1], le_bytes(x)[2], le_bytes(x)[3]) == x,
{
    assert(((x & 0xff) as u8 as u32) | ((((x >> 8u32) & 0xff) as u8 as u32) << 8u32) | ((((x
        >> 16u32) & 0xff) as u8 as u32) << 16u32) | ((((x >> 24u32) & 0xff) as u8 as u32)
        << 24u32) == x) by (bit_vector);
}

/// The four little-endian bytes of `x`.
pub fn le_bytes_of(x: u32) -> (r: Vec<u8>)
    ensures
        r@ == le_bytes(x),
{
    let r = vec![
        (x & 0xff) as u8,
        ((x >> 8u32) & 0xff) as u8,
        ((x >> 16u32) & 0xff) as u8,
        ((x >> 24u32) & 0xff) as u8,
    ];
    assert(r@ =~= le_bytes(x));
    r
}

/// The player id a header chunk names.
#[derive(PartialEq, Eq, Structural, Clone, Copy, Debug)]
pub struct HHead {
    pub id: u32,
}

/// A player's snapshot; an empty name says that the player left.
#[derive(Clone, Debug)]
pub struct MPlayer {
    pub name: Vec<u8>,
    pub echo: bool,
}

/// A chat line with its advisory colour and its chat id.
#[derive(Clone, Debug)]
pub struct MChat {
    pub text: Vec<u8>,
    pub red: u8,
    pub green: u8,
    pub blue: u8,
    pub id: u32,
}

/// The server's name, sent once when a session starts.
#[derive(Clone, Debug)]
pub struct MServerInfo {
    pub name: Vec<u8>,
}

/// A subscription to the updates of one chunk type.
#[derive(PartialEq, Eq, Structural, Clone, Copy, Debug)]
pub struct MRequest {
    pub id: ChunkType,
}

/// The typed decoding of a chunk.
#[derive(Clone, Debug)]
pub enum ChunkData {
    HHead(HHead),
    MPlayer(MPlayer),
    MChat(MChat),
    MServerInfo(MServerInfo),
    MRequest(MRequest),
    UUpdate(Vec<u8>),
    Unknown(u8, Vec<u8>),
}

/// The mathematical value of a `ChunkData`.
pub enum ChunkValue {
    HHead(u32),
    MPlayer(Seq<u8>, bool),
    MChat(Seq<u8>, u8, u8, u8, u32),
    MServerInfo(Seq<u8>),
    MRequest(ChunkType),
    UUpdate(Seq<u8>),
    Unknown(u8, Seq<u8>),
}

impl View for ChunkData {
    type V = ChunkValue;

    open spec fn view(&self) -> ChunkValue {
        match self {
            ChunkData::HHead(h) => ChunkValue::HHead(h.id),
            ChunkData::MPlayer(p) => ChunkValue::MPlayer(p.name@, p.echo),
            ChunkData::MChat(c) => ChunkValue::MChat(c.text@, c.red, c.green, c.blue, c.id),
            ChunkData::MServerInfo(i) => ChunkValue::MServerInfo(i.name@),
            ChunkData::MRequest(r) => ChunkValue::MRequest(r.id),
            ChunkData::UUpdate(d) => ChunkValue::UUpdate(d@),
            ChunkData::Unknown(n, d) => ChunkValue::Unknown(*n, d@),
        }
    }
}

/// Why a payload does not fit the layout of its chunk type.
#[derive(PartialEq, Eq, Structural, Clone, Copy, Debug)]
pub enum DecodeError {
    /// The payload is shorter or longer than the layout allows.
    Length,
    /// The echo flag of a player snapshot is neither zero nor one.
    Flag,
}

pub open spec fn type_of(v: ChunkValue) -> ChunkType {
    match v {
        ChunkValue::HHead(_) => ChunkType::HHead,
        ChunkValue::MPlayer(_, _) => ChunkType::MPlayer,
        ChunkValue::MChat(_, _, _, _, _) => ChunkType::MChat,
        ChunkValue::MServerInfo(_) => ChunkType::MServerInfo,
        ChunkValue::MRequest(_) => ChunkType::MRequest,
        ChunkValue::UUpdate(_) => ChunkType::UUpdate,
        ChunkValue::Unknown(n, _) => ChunkType::Unknown(n),
    }
}

/// The payload layout of each chunk type.
pub open spec fn payload_of(v: ChunkValue) -> Seq<u8> {
    match v {
        ChunkValue::HHead(id) => le_bytes(id),
        ChunkValue::MPlayer(name, echo) => seq![if echo { 1u8 } else { 0u8 }] + name,
        ChunkValue::MChat(text, r, g, b, id) => seq![r, g, b] + le_bytes(id) + text,
        ChunkValue::MServerInfo(name) => name,
        ChunkValue::MRequest(t) => seq![tag_of(t)],
        ChunkValue::UUpdate(d) => d,
        ChunkValue::Unknown(_, d) => d,
    }
}

pub open spec fn encoded(v: ChunkValue) -> ChunkModel {
    (type_of(v), payload_of(v))
}

/// The values the codec carries: every one whose chunk fits in a frame.
pub open spec fn supported(v: ChunkValue) -> bool {
    &&& chunk_fits(encoded(v))
    &&& v matches ChunkValue::MRequest(t) ==> canonical(t)
}

/// What a payload of type `t` decodes to.
pub open spec fn decoded(c: ChunkModel) -> Result<ChunkValue, DecodeError> {
    let p = c.1;
    match c.0 {
        ChunkType::HHead => if p.len() == 4 {
            Ok(ChunkValue::HHead(from_le(p[0], p[1], p[2], p[3])))
        } else {
            Err(DecodeError::Length)
        },
        ChunkType::MPlayer => if p.len() < 1 {
            Err(DecodeError::Length)
        } else if p[0] > 1 {
            Err(DecodeError::Flag)
        } else {
            Ok(ChunkValue::MPlayer(p.skip(1), p[0] == 1))
        },
        ChunkType::MChat => if p.len() < 7 {
            Err(DecodeError::Length)
        } else {
            Ok(ChunkValue::MChat(p.skip(7), p[0], p[1], p[2], from_le(p[3], p[4], p[5], p[6])))
        },
        ChunkType::MServerInfo => Ok(ChunkValue::MServerInfo(p)),
        ChunkType::MRequest => if p.len() == 1 {
            Ok(ChunkValue::MRequest(type_of_tag(p[0])))
        } else {
            Err(DecodeError::Length)
        },
        ChunkType::UUpdate => Ok(ChunkValue::UUpdate(p)),
        ChunkType::Unknown(n) => Ok(ChunkValue::Unknown(n, p)),
    }
}

/// Decoding a supported value's encoding gives the value back.
pub proof fn lemma_decode_encode(v: ChunkValue)
    requires
        supported(v),
    ensures
        decoded(encoded(v)) == Ok::<ChunkValue, DecodeError>(v),
{
    match v {
        ChunkValue::HHead(id) => {
            lemma_le_round_trip(id);
        },
        ChunkValue::MPlayer(name, echo) => {
            assert(payload_of(v).skip(1) =~= name);
        },
        ChunkValue::MChat(text, r, g, b, id) => {
            lemma_le_round_trip(id);
            let p = payload_of(v);
            assert(p.skip(7) =~= text);
            assert(p[3] == le_bytes(id)[0] && p[4] == le_bytes(id)[1] && p[5] == le_bytes(id)[2]
                && p[6] == le_bytes(id)[3]);
        },
        _ => {},
    }
}

/// `v[a..b]` as a vector of its own.
pub fn copy_range(v: &[u8], a: usize, b: usize) -> (r: Vec<u8>)
    requires
        a <= b <= v@.len(),
    ensures
        r@ == v@.subrange(a as int, b as int),
{
    let mut r: Vec<u8> = Vec::new();
    let mut i: usize = a;
    while i < b
        invariant
            a <= i <= b <= v@.len(),
            r@ == v@.subrange(a as int, i as int),
        decreases b - i,
    {
        r.push(v[i]);
        assert(r@ =~= v@.subrange(a as int, i + 1));
        i = i + 1;
    }
    r
}

/// Appends `src` to `out`.
pub fn append_bytes(out: &mut Vec<u8>, src: &[u8])
    ensures
        final(out)@ == old(out)@ + src@,
{
    let mut i: usize = 0;
    while i < src.len()
        invariant
            i <= src@.len(),
            out@ == old(out)@ + src@.subrange(0, i as int),
        decreases src@.len() - i,
    {
        out.push(src[i]);
        assert(out@ =~= old(out)@ + src@.subrange(0, i + 1));
        i = i + 1;
    }
    assert(src@.subrange(0, i as int) =~= src@);
}

impl ChunkData {
    /// The chunk that carries this value.
    pub fn encode(&self) -> (c: Chunk)
        requires
            supported(self@),
        ensures
            c@ == encoded(self@),
    {
        match self {
            ChunkData::HHead(h) => Chunk { typ: ChunkType::HHead, data: le_bytes_of(h.id) },
            ChunkData::MPlayer(p) => {
                let mut data: Vec<u8> = vec![if p.echo { 1u8 } else { 0u8 }];
                append_bytes(&mut data, p.name.as_slice());
                Chunk { typ: ChunkType::MPlayer, data }
            },
            ChunkData::MChat(m) => {
                let mut data: Vec<u8> = vec![m.red, m.green, m.blue];
                let id = le_bytes_of(m.id);
                append_bytes(&mut data, id.as_slice());
                append_bytes(&mut data, m.text.as_slice());
                Chunk { typ: ChunkType::MChat, data }
            },
            ChunkData::MServerInfo(i) => Chunk { typ: ChunkType::MServerInfo, data: i.name.clone() },
            ChunkData::MRequest(r) => Chunk { typ: ChunkType::MRequest, data: vec![r.id.tag()] },
            ChunkData::UUpdate(d) => Chunk { typ: ChunkType::UUpdate, data: d.clone() },
            ChunkData::Unknown(n, d) => Chunk { typ: ChunkType::Unknown(*n), data: d.clone() },
        }
    }

    /// The typed value a chunk carries, or why its payload does not fit its
    /// type. Chunks of unknown types decode to `Unknown`.
    pub fn decode(c: &Chunk) -> (r: Result<ChunkData, DecodeError>)
        ensures
            match r {
                Ok(d) => decoded(c@) == Ok::<ChunkValue, DecodeError>(d@),
                Err(e) => decoded(c@) == Err::<ChunkValue, DecodeError>(e),
            },
    {
        let p = c.data.as_slice();
        let n = p.len();
        match c.typ {
            ChunkType::HHead => if n == 4 {
                let id = (p[0] as u32) | ((p[1] as u32) << 8u32) | ((p[2] as u32) << 16u32) | ((
                p[3] as u32) << 24u32);
                Ok(ChunkData::HHead(HHead { id }))
            } else {
                Err(DecodeError::Length)
            },
            ChunkType::MPlayer => if n < 1 {
                Err(DecodeError::Length)
            } else if p[0] > 1 {
                Err(DecodeError::Flag)
            } else {
                let name = copy_range(p, 1, n);
                assert(name@ =~= c.data@.skip(1));
                Ok(ChunkData::MPlayer(MPlayer { name, echo: p[0] == 1 }))
            },
            ChunkType::MChat => if n < 7 {
                Err(DecodeError::Length)
            } else {
                let text = copy_range(p, 7, n);
                assert(text@ =~= c.data@.skip(7));
                let id = (p[3] as u32) | ((p[4] as u32) << 8u32) | ((p[5] as u32) << 16u32) | ((
                p[6] as u32) << 24u32);
                Ok(ChunkData::MChat(MChat { text, red: p[0], green: p[1], blue: p[2], id }))
            },
            ChunkType::MServerInfo => Ok(ChunkData::MServerInfo(MServerInfo { name: c.data.clone() })),
            ChunkType::MRequest => if n == 1 {
                Ok(ChunkData::MRequest(MRequest { id: ChunkType::from_tag(p[0]) }))
            } else {
                Err(DecodeError::Length)
            },
            ChunkType::UUpdate => Ok(ChunkData::UUpdate(c.data.clone())),
            ChunkType::Unknown(t) => Ok(ChunkData::Unknown(t, c.data.clone())),
        }
    }
}

} // verus!
