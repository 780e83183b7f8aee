use vstd::prelude::*;
use std::collections::BTreeMap;
use crate::codec::{decoded, le_bytes, ChunkData, ChunkModel, ChunkType, ChunkValue, MPlayer};
use crate::frame::{parse, parse_frame, Parse, ParseOutcome};

verus! {

broadcast use vstd::std_specs::btree::group_btree_axioms, vstd::laws_cmp::group_laws_cmp;

/// A registered player: the raw little-endian form of its id, and its latest
/// snapshot.
#[derive(Clone, Debug)]
pub struct PlayerEntry {
    pub raw_id: Vec<u8>,
    pub player: MPlayer,
}

/// A registered player as its raw id, its name and its echo flag.
pub type EntryModel = (Seq<u8>, Seq<u8>, bool);

impl View for PlayerEntry {
    type V = EntryModel;

    open spec fn view(&self) -> EntryModel {
        (self.raw_id@, self.player.name@, self.player.echo)
    }
}

/// The registry once player `id` has sent a snapshot: an empty name removes
/// the player, any other name records the snapshot.
pub open spec fn registry_after(m: Map<u32, EntryModel>, id: u32, name: Seq<u8>, echo: bool) -> Map<
    u32,
    EntryModel,
> {
    if name.len() == 0 {
        m.remove(id)
    } else {
        m.insert(id, (le_bytes(id), name, echo))
    }
}

/// The first chunk of type `t` in `cs`.
pub open spec fn first_of(cs: Seq<ChunkModel>, t: ChunkType) -> Option<ChunkModel>
    decreases cs.len(),
{
    if cs.len() == 0 {
        None
    } else if cs[0].0 == t {
        Some(cs[0])
    } else {
        first_of(cs.drop_first(), t)
    }
}

/// The player update a broadcast frame carries: the id of its first header
/// and the snapshot of its first player chunk, where the frame parses and
/// both decode.
pub open spec fn player_update(frame: Seq<u8>) -> Option<(u32, Seq<u8>, bool)> {
    match parse(frame) {
        Parse::Parsed(cs, _) => match (first_of(cs, ChunkType::HHead), first_of(cs, ChunkType::MPlayer)) {
            (Some(h), Some(p)) => match (decoded(h), decoded(p)) {
                (Ok(ChunkValue::HHead(id)), Ok(ChunkValue::MPlayer(name, echo))) => Some((id, name, echo)),
                _ => None,
            },
            _ => None,
        },
        _ => None,
    }
}

/// The players known to the relay, by session id.
pub struct Registry {
    pub players: BTreeMap<u32, PlayerEntry>,
}

impl View for Registry {
    type V = Map<u32, EntryModel>;

    open spec fn view(&self) -> Map<u32, EntryModel> {
        self.players@.map_values(|e: PlayerEntry| e@)
    }
}

fn first_index(cs: &Vec<crate::codec::Chunk>, t: ChunkType) -> (r: Option<usize>)
    ensures
        match r {
            Some(k) => k < cs@.len() && first_of(crate::frame::chunk_models(cs@), t) == Some(
                cs@[k as int]@,
            ),
            None => first_of(crate::frame::chunk_models(cs@), t) is None,
        },
{
    let ghost all = crate::frame::chunk_models(cs@);
    let mut i: usize = 0;
    assert(all.skip(0) =~= all);
    while i < cs.len()
        invariant
            i <= cs@.len(),
            all == crate::frame::chunk_models(cs@),
            first_of(all, t) == first_of(all.skip(i as int), t),
        decreases cs@.len() - i,
    {
        if cs[i].typ == t {
            return Some(i);
        }
        assert(all.skip(i as int).drop_first() =~= all.skip(i + 1));
        i = i + 1;
    }
    None
}

impl Registry {
    pub fn new() -> (r: Registry)
        ensures
            r@ == Map::<u32, EntryModel>::empty(),
    {
        let r = Registry { players: BTreeMap::new() };
        assert(r@ =~= Map::<u32, EntryModel>::empty());
        r
    }

    /// Records the snapshot `player` under `id`, or removes `id` where the
    /// name is empty.
    pub fn update(&mut self, id: u32, player: MPlayer)
        ensures
            final(self)@ == registry_after(old(self)@, id, player.name@, player.echo),
    {
        if player.name.len() == 0 {
            self.players.remove(&id);
            assert(final(self)@ =~= old(self)@.remove(id));
        } else {
            let raw_id = crate::codec::le_bytes_of(id);
            self.players.insert(id, PlayerEntry { raw_id, player });
            assert(final(self)@ =~= old(self)@.insert(id, (le_bytes(id), player.name@, player.echo)));
        }
    }

    /// Applies the player update that a relayed frame carries, if any.
    pub fn apply_frame(&mut self, frame: &[u8])
        ensures
            final(self)@ == match player_update(frame@) {
                Some((id, name, echo)) => registry_after(old(self)@, id, name, echo),
                None => old(self)@,
            },
    {
        let chunks = match parse_frame(frame) {
            ParseOutcome::Parsed(cs, _) => cs,
            _ => {
                return ;
            },
        };
        let hi = first_index(&chunks, ChunkType::HHead);
        let pi = first_index(&chunks, ChunkType::MPlayer);
        match (hi, pi) {
            (Some(h), Some(p)) => {
                match (ChunkData::decode(&chunks[h]), ChunkData::decode(&chunks[p])) {
                    (Ok(ChunkData::HHead(head)), Ok(ChunkData::MPlayer(player))) => {
                        self.update(head.id, player);
                    },
                    _ => {},
                }
            },
            _ => {},
        }
    }
}

/// A player who joins and then leaves is no longer registered.
pub proof fn lemma_join_then_leave(
    m: Map<u32, EntryModel>,
    id: u32,
    name: Seq<u8>,
    echo: bool,
    echo2: bool,
)
    ensures
        !registry_after(registry_after(m, id, name, echo), id, Seq::empty(), echo2).contains_key(id),
{
}

/// Snapshots of two distinct players are both kept, in either order.
pub proof fn lemma_distinct_joins_kept(
    m: Map<u32, EntryModel>,
    a: u32,
    na: Seq<u8>,
    ea: bool,
    b: u32,
    nb: Seq<u8>,
    eb: bool,
)
    requires
        a != b,
        na.len() > 0,
        nb.len() > 0,
    ensures
        registry_after(registry_after(m, a, na, ea), b, nb, eb) == registry_after(
            registry_after(m, b, nb, eb),
            a,
            na,
            ea,
        ),
        registry_after(registry_after(m, a, na, ea), b, nb, eb)[a] == (le_bytes(a), na, ea),
        registry_after(registry_after(m, a, na, ea), b, nb, eb)[b] == (le_bytes(b), nb, eb),
{
    assert(registry_after(registry_after(m, a, na, ea), b, nb, eb) =~= registry_after(
        registry_after(m, b, nb, eb),
        a,
        na,
        ea,
    ));
}

} // verus!
