use vstd::prelude::*;
use crate::codec::{
    append_bytes, chunk_fits, copy_range, decoded, tag_of, type_of_tag, Chunk, ChunkData,
    ChunkModel, ChunkType,
};

verus! {

/// The wire form of one chunk: its tag, its payload length as two
/// little-endian bytes, then the payload.
pub open spec fn chunk_wire(c: ChunkModel) -> Seq<u8> {
    seq![tag_of(c.0), (c.1.len() % 256) as u8, (c.1.len() / 256) as u8] + c.1
}

/// The wire form of a frame: its chunks in order, then a zero byte.
pub open spec fn frame_wire(cs: Seq<ChunkModel>) -> Seq<u8>
    decreases cs.len(),
{
    if cs.len() == 0 {
        seq![0u8]
    } else {
        chunk_wire(cs[0]) + frame_wire(cs.drop_first())
    }
}

/// A chunk that a parser accepts: its payload decodes under its type.
pub open spec fn chunk_valid(c: ChunkModel) -> bool {
    decoded(c) is Ok
}

/// What parsing a byte buffer comes to, in mathematical terms.
pub enum Parse {
    /// A complete frame, and the number of bytes it took.
    Parsed(Seq<ChunkModel>, nat),
    /// The buffer ends before the frame does.
    NeedMore,
    /// A complete chunk does not fit its type.
    Malformed,
}

pub open spec fn prepend(cs: Seq<ChunkModel>, p: Parse) -> Parse {
    match p {
        Parse::Parsed(ds, n) => Parse::Parsed(cs + ds, n),
        other => other,
    }
}

/// Parsing the chunks of a frame that starts at offset `i` of `b`.
pub open spec fn parse_at(b: Seq<u8>, i: nat) -> Parse
    decreases b.len() - i,
{
    let i = i as int;
    if i >= b.len() {
        Parse::NeedMore
    } else if b[i] == 0 {
        Parse::Parsed(Seq::empty(), (i + 1) as nat)
    } else if i + 3 > b.len() {
        Parse::NeedMore
    } else {
        let len = b[i + 1] as nat + 256 * (b[i + 2] as nat);
        if i + 3 + len > b.len() {
            Parse::NeedMore
        } else {
            let c = (type_of_tag(b[i]), b.subrange(i + 3, i + 3 + len));
            if !chunk_valid(c) {
                Parse::Malformed
            } else {
                prepend(seq![c], parse_at(b, (i + 3 + len) as nat))
            }
        }
    }
}

/// Parsing the frame at the start of `b`.
pub open spec fn parse(b: Seq<u8>) -> Parse {
    parse_at(b, 0)
}

/// The result of parsing a buffer.
#[derive(Debug)]
pub enum ParseOutcome {
    Parsed(Vec<Chunk>, usize),
    NeedMoreBytes,
    Malformed,
}

pub open spec fn chunk_models(cs: Seq<Chunk>) -> Seq<ChunkModel> {
    cs.map_values(|c: Chunk| c@)
}

impl View for ParseOutcome {
    type V = Parse;

    open spec fn view(&self) -> Parse {
        match self {
            ParseOutcome::Parsed(cs, n) => Parse::Parsed(chunk_models(cs@), *n as nat),
            ParseOutcome::NeedMoreBytes => Parse::NeedMore,
            ParseOutcome::Malformed => Parse::Malformed,
        }
    }
}

/// Parses the frame at the start of `buf`: its chunks and the number of bytes
/// they took, or that more bytes are needed, or that a complete chunk does not
/// fit its type.
pub fn parse_frame(buf: &[u8]) -> (r: ParseOutcome)
    ensures
        r@ == parse(buf@),
{
    let n = buf.len();
    let mut i: usize = 0;
    let mut chunks: Vec<Chunk> = Vec::new();
    while i < n
        invariant
            n == buf@.len(),
            i <= n,
            parse(buf@) == prepend(chunk_models(chunks@), parse_at(buf@, i as nat)),
        decreases n - i,
    {
        let ghost cs0 = chunk_models(chunks@);
        let tag = buf[i];
        if tag == 0 {
            assert(cs0 + Seq::<ChunkModel>::empty() =~= cs0);
            return ParseOutcome::Parsed(chunks, i + 1);
        }
        if n - i < 3 {
            return ParseOutcome::NeedMoreBytes;
        }
        let len: usize = buf[i + 1] as usize + 256 * (buf[i + 2] as usize);
        if n - i - 3 < len {
            return ParseOutcome::NeedMoreBytes;
        }
        let data = copy_range(buf, i + 3, i + 3 + len);
        let chunk = Chunk { typ: ChunkType::from_tag(tag), data };
        match ChunkData::decode(&chunk) {
            Err(_) => {
                return ParseOutcome::Malformed;
            },
            Ok(_) => {},
        }
        let ghost c = chunk@;
        chunks.push(chunk);
        proof {
            assert(chunk_models(chunks@) =~= cs0.push(c));
            let rest = parse_at(buf@, (i + 3 + len) as nat);
            match rest {
                Parse::Parsed(ds, m) => {
                    assert(cs0 + (seq![c] + ds) =~= cs0.push(c) + ds);
                },
                _ => {},
            }
        }
        i = i + 3 + len;
    }
    ParseOutcome::NeedMoreBytes
}

/// The wire form of a frame of `chunks`.
pub fn write_frame(chunks: &Vec<Chunk>) -> (r: Vec<u8>)
    requires
        forall|k: int| 0 <= k < chunks@.len() ==> chunk_fits(#[trigger] chunks@[k]@),
    ensures
        r@ == frame_wire(chunk_models(chunks@)),
{
    let mut out: Vec<u8> = Vec::new();
    let mut i: usize = 0;
    let ghost all = chunk_models(chunks@);
    assert(all.skip(0) =~= all);
    while i < chunks.len()
        invariant
            i <= chunks@.len(),
            all == chunk_models(chunks@),
            forall|k: int| 0 <= k < chunks@.len() ==> chunk_fits(#[trigger] chunks@[k]@),
            frame_wire(all) == out@ + frame_wire(all.skip(i as int)),
        decreases chunks@.len() - i,
    {
        let ghost out0 = out@;
        let c = &chunks[i];
        assert(chunk_fits(chunks@[i as int]@));
        let len = c.data.len();
        out.push(c.typ.tag());
        out.push((len % 256) as u8);
        out.push((len / 256) as u8);
        append_bytes(&mut out, c.data.as_slice());
        assert(out@ =~= out0 + chunk_wire(all[i as int]));
        assert(all.skip(i as int).drop_first() =~= all.skip(i + 1));
        assert(out0 + (chunk_wire(all[i as int]) + frame_wire(all.skip(i + 1))) =~= out@
            + frame_wire(all.skip(i + 1)));
        i = i + 1;
    }
    out.push(0u8);
    assert(all.skip(i as int) =~= Seq::<ChunkModel>::empty());
    out
}

/// A parse that is settled on a buffer stays the same when more bytes follow.
pub proof fn lemma_parse_at_extend(b1: Seq<u8>, b2: Seq<u8>, i: nat)
    requires
        !(parse_at(b1, i) is NeedMore),
    ensures
        parse_at(b1 + b2, i) == parse_at(b1, i),
    decreases b1.len() - i,
{
    let b = b1 + b2;
    let n = i;
    let i = i as int;
    if i < b1.len() && b1[i as int] != 0 && i + 3 <= b1.len() {
        assert(b[i] == b1[i] && b[i + 1] == b1[i + 1] && b[i + 2] == b1[i + 2]);
        let len = b1[i + 1] as nat + 256 * (b1[i + 2] as nat);
        if i + 3 + len <= b1.len() {
            assert(b.subrange(i + 3, i + 3 + len) =~= b1.subrange(i + 3, i + 3 + len));
            let c = (type_of_tag(b1[i]), b1.subrange(i + 3, i + 3 + len));
            if chunk_valid(c) {
                lemma_parse_at_extend(b1, b2, (i + 3 + len) as nat);
            }
        }
    } else if i < b1.len() {
        assert(b[i] == b1[i]);
    }
}

/// Feeding a stream in two pieces gives the frame that feeding it whole gives,
/// once the first piece settles the parse; until then the first piece alone
/// only asks for more bytes.
pub proof fn lemma_parse_split(b1: Seq<u8>, b2: Seq<u8>)
    ensures
        parse(b1) is NeedMore || parse(b1 + b2) == parse(b1),
{
    if !(parse(b1) is NeedMore) {
        lemma_parse_at_extend(b1, b2, 0);
    }
}

/// The frame that a writer produces parses back to its chunks, whatever
/// follows it in the stream.
pub proof fn lemma_parse_written(cs: Seq<ChunkModel>, rest: Seq<u8>)
    requires
        forall|k: int| 0 <= k < cs.len() ==> chunk_fits(#[trigger] cs[k]) && chunk_valid(cs[k]),
    ensures
        parse(frame_wire(cs) + rest) == Parse::Parsed(cs, frame_wire(cs).len()),
{
    lemma_parse_written_at(Seq::empty(), cs, rest);
    assert(Seq::<u8>::empty() + frame_wire(cs) + rest =~= frame_wire(cs) + rest);
}

proof fn lemma_parse_written_at(pre: Seq<u8>, cs: Seq<ChunkModel>, rest: Seq<u8>)
    requires
        forall|k: int| 0 <= k < cs.len() ==> chunk_fits(#[trigger] cs[k]) && chunk_valid(cs[k]),
    ensures
        parse_at(pre + frame_wire(cs) + rest, pre.len()) == Parse::Parsed(
            cs,
            pre.len() + frame_wire(cs).len(),
        ),
    decreases cs.len(),
{
    let b = pre + frame_wire(cs) + rest;
    let i = pre.len() as int;
    if cs.len() == 0 {
        assert(b[i] == 0);
        assert(cs =~= Seq::<ChunkModel>::empty());
    } else {
        let c = cs[0];
        assert(chunk_fits(cs[0]) && chunk_valid(cs[0]));
        let w = chunk_wire(c);
        let tail = cs.drop_first();
        assert(frame_wire(cs) == w + frame_wire(tail));
        let pre2 = pre + w;
        assert(b =~= pre2 + frame_wire(tail) + rest);
        assert(b[i] == tag_of(c.0));
        assert(b[i + 1] == (c.1.len() % 256) as u8);
        assert(b[i + 2] == (c.1.len() / 256) as u8);
        let len = b[i + 1] as nat + 256 * (b[i + 2] as nat);
        assert(len == c.1.len());
        assert(b.subrange(i + 3, i + 3 + len) =~= c.1);
        assert forall|k: int| 0 <= k < tail.len() implies chunk_fits(#[trigger] tail[k])
            && chunk_valid(tail[k]) by {
            assert(tail[k] == cs[k + 1]);
        }
        lemma_parse_written_at(pre2, tail, rest);
        assert(w.len() == 3 + c.1.len());
        assert(pre2.len() == i + 3 + len);
        assert(parse_at(b, i as nat) == prepend(seq![c], parse_at(b, pre2.len())));
        assert(seq![c] + tail =~= cs);
    }
}

/// A parsed frame never takes more bytes than the buffer holds.
pub proof fn lemma_parsed_within(b: Seq<u8>, i: nat)
    ensures
        parse_at(b, i) matches Parse::Parsed(_, n) ==> i < n <= b.len(),
    decreases b.len() - i,
{
    let k = i as int;
    if k < b.len() && b[k] != 0 && k + 3 <= b.len() {
        let len = b[k + 1] as nat + 256 * (b[k + 2] as nat);
        if k + 3 + len <= b.len() {
            lemma_parsed_within(b, (k + 3 + len) as nat);
        }
    }
}

} // verus!
