use vstd::prelude::*;

verus! {

/// A slot that keeps only the latest value published, with a version that
/// rises by one on every publish. A reader that remembers the last version it
/// saw gets the newest value once, however many publishes it missed.
pub struct LatestSlot {
    value: Option<Vec<u8>>,
    version: u64,
}

/// The latest value and the number of publishes so far.
pub type SlotModel = (Option<Seq<u8>>, nat);

pub open spec fn published(s: SlotModel, v: Seq<u8>) -> SlotModel {
    (Some(v), s.1 + 1)
}

/// The slot after publishing each of `vs` in order.
pub open spec fn after_publishes(s: SlotModel, vs: Seq<Seq<u8>>) -> SlotModel
    decreases vs.len(),
{
    if vs.len() == 0 {
        s
    } else {
        published(after_publishes(s, vs.drop_last()), vs.last())
    }
}

/// What a reader that last saw version `seen` gets.
pub open spec fn read_model(s: SlotModel, seen: nat) -> Option<(nat, Seq<u8>)> {
    match s.0 {
        Some(v) => if s.1 > seen {
            Some((s.1, v))
        } else {
            None
        },
        None => None,
    }
}

impl View for LatestSlot {
    type V = SlotModel;

    closed spec fn view(&self) -> SlotModel {
        (
            match self.value {
                Some(v) => Some(v@),
                None => None,
            },
            self.version as nat,
        )
    }
}

impl LatestSlot {
    pub fn new() -> (r: LatestSlot)
        ensures
            r@ == (None::<Seq<u8>>, 0nat),
    {
        LatestSlot { value: None, version: 0 }
    }

    /// The number of publishes so far.
    pub fn version(&self) -> (r: u64)
        ensures
            r == self@.1,
    {
        self.version
    }

    /// Replaces the value with `v` and advances the version.
    pub fn publish(&mut self, v: Vec<u8>)
        requires
            old(self)@.1 < u64::MAX,
        ensures
            final(self)@ == published(old(self)@, v@),
    {
        self.value = Some(v);
        self.version = self.version + 1;
    }

    /// The newest value and its version, if it is newer than `seen`.
    pub fn read(&self, seen: u64) -> (r: Option<(u64, Vec<u8>)>)
        ensures
            match r {
                Some((n, v)) => read_model(self@, seen as nat) == Some((n as nat, v@)),
                None => read_model(self@, seen as nat) is None,
            },
    {
        match &self.value {
            Some(v) => if self.version > seen {
                Some((self.version, v.clone()))
            } else {
                None
            },
            None => None,
        }
    }
}

/// After a run of publishes that a reader did not follow, one read from the
/// version it last saw gives the last value published, and only that.
pub proof fn lemma_read_after_publishes(s: SlotModel, vs: Seq<Seq<u8>>)
    requires
        vs.len() > 0,
    ensures
        after_publishes(s, vs).1 == s.1 + vs.len(),
        read_model(after_publishes(s, vs), s.1) == Some((s.1 + vs.len(), vs.last())),
{
    lemma_version_after_publishes(s, vs);
}

proof fn lemma_version_after_publishes(s: SlotModel, vs: Seq<Seq<u8>>)
    ensures
        after_publishes(s, vs).1 == s.1 + vs.len(),
    decreases vs.len(),
{
    if vs.len() > 0 {
        lemma_version_after_publishes(s, vs.drop_last());
    }
}

} // verus!
