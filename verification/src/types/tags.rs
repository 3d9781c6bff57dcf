//! Reverse references: which entities refer to the owner of a `Tags` value.

use vstd::prelude::*;

use crate::types::Id;

verus! {

/// A reference to an entity of any kind. Entities are ordered by kind first
/// and by `Id` within a kind.
#[derive(Debug, Hash, Clone, Copy, PartialEq, Eq, PartialOrd, Ord, Structural)]
pub enum EntityId {
    Champion(Id),
    Spell(Id),
    Equip(Id),
    Relic(Id),
    AbilityGroup(Id),
    Effect(Id),
}

impl EntityId {
    /// The position of the kind among the six kinds.
    pub open spec fn kind(self) -> int {
        match self {
            EntityId::Champion(_) => 0,
            EntityId::Spell(_) => 1,
            EntityId::Equip(_) => 2,
            EntityId::Relic(_) => 3,
            EntityId::AbilityGroup(_) => 4,
            EntityId::Effect(_) => 5,
        }
    }

    /// The `Id` that the reference carries.
    pub open spec fn id(self) -> Id {
        match self {
            EntityId::Champion(id) => id,
            EntityId::Spell(id) => id,
            EntityId::Equip(id) => id,
            EntityId::Relic(id) => id,
            EntityId::AbilityGroup(id) => id,
            EntityId::Effect(id) => id,
        }
    }

    /// The place of the reference in the total order: kind, then `Id`.
    pub open spec fn rank(self) -> int {
        self.kind() * 0x1_0000_0000 + self.id()
    }

    /// The reference whose rank is `key`, if there is one.
    pub open spec fn of_rank(key: int) -> Option<EntityId> {
        let id: Id = (key % 0x1_0000_0000) as Id;
        let kind: int = key / 0x1_0000_0000;
        if kind == 0 {
            Some(EntityId::Champion(id))
        } else if kind == 1 {
            Some(EntityId::Spell(id))
        } else if kind == 2 {
            Some(EntityId::Equip(id))
        } else if kind == 3 {
            Some(EntityId::Relic(id))
        } else if kind == 4 {
            Some(EntityId::AbilityGroup(id))
        } else if kind == 5 {
            Some(EntityId::Effect(id))
        } else {
            None
        }
    }

    /// Two references with the same rank are the same reference.
    pub proof fn lemma_rank_injective(a: EntityId, b: EntityId)
        requires
            a.rank() == b.rank(),
        ensures
            a == b,
    {
    }

    /// `of_rank` undoes `rank`.
    pub proof fn lemma_of_rank(a: EntityId)
        ensures
            0 <= a.rank() < 6 * 0x1_0000_0000,
            EntityId::of_rank(a.rank()) == Some(a),
    {
    }

    /// What `of_rank` gives has the rank that it was made of.
    pub proof fn lemma_rank_of(key: int)
        requires
            0 <= key,
        ensures
            EntityId::of_rank(key) matches Some(eid) ==> eid.rank() == key,
    {
    }

    /// The rank as a machine integer.
    pub fn key(&self) -> (k: u64)
        ensures
            k == self.rank(),
    {
        match *self {
            EntityId::Champion(id) => id as u64,
            EntityId::Spell(id) => 0x1_0000_0000u64 + id as u64,
            EntityId::Equip(id) => 0x2_0000_0000u64 + id as u64,
            EntityId::Relic(id) => 0x3_0000_0000u64 + id as u64,
            EntityId::AbilityGroup(id) => 0x4_0000_0000u64 + id as u64,
            EntityId::Effect(id) => 0x5_0000_0000u64 + id as u64,
        }
    }

    /// The reference that `key` stands for; `None` where `key` is the rank of
    /// no reference.
    pub fn from_key(key: u64) -> (r: Option<EntityId>)
        ensures
            r == EntityId::of_rank(key as int),
            forall|e: EntityId| e.rank() == key ==> r == Some(e),
    {
        let id: Id = (key % 0x1_0000_0000u64) as Id;
        let kind: u64 = key / 0x1_0000_0000u64;
        if kind == 0 {
            Some(EntityId::Champion(id))
        } else if kind == 1 {
            Some(EntityId::Spell(id))
        } else if kind == 2 {
            Some(EntityId::Equip(id))
        } else if kind == 3 {
            Some(EntityId::Relic(id))
        } else if kind == 4 {
            Some(EntityId::AbilityGroup(id))
        } else if kind == 5 {
            Some(EntityId::Effect(id))
        } else {
            None
        }
    }

    /// Whether `self` comes strictly before `other` in the total order.
    pub fn before(&self, other: &EntityId) -> (b: bool)
        ensures
            b == (self.rank() < other.rank()),
    {
        self.key() < other.key()
    }
}

/// Whether `s` ascends strictly in the order of `EntityId`.
pub open spec fn strictly_ascending(s: Seq<EntityId>) -> bool {
    forall|i: int, j: int| 0 <= i < j < s.len() ==> s[i].rank() < s[j].rank()
}

/// Whether `after` is what tagging `tid` makes of `before`: the same
/// entities and `tid`, in ascending order, and `before` itself where it
/// already held `tid`.
pub open spec fn tagged(before: Seq<EntityId>, tid: EntityId, after: Seq<EntityId>) -> bool {
    &&& strictly_ascending(after)
    &&& forall|e: EntityId| after.contains(e) <==> before.contains(e) || e == tid
    &&& before.contains(tid) ==> after == before
    &&& !before.contains(tid) ==> after.len() == before.len() + 1
}

/// The entities that refer to the owner: sorted, and each held once.
#[derive(Debug)]
pub struct Tags {
    inner: Vec<EntityId>,
}

impl View for Tags {
    type V = Seq<EntityId>;

    closed spec fn view(&self) -> Seq<EntityId> {
        self.inner@
    }
}

impl Default for Tags {
    fn default() -> (tags: Tags)
        ensures
            tags@ == Seq::<EntityId>::empty(),
    {
        Tags { inner: Vec::new() }
    }
}

impl Tags {
    /// The entities ascend strictly.
    #[verifier::type_invariant]
    spec fn sorted(self) -> bool {
        strictly_ascending(self.inner@)
    }

    /// The first position whose entity does not come before `tid`.
    fn lower_bound(&self, tid: &EntityId) -> (index: usize)
        ensures
            index <= self@.len(),
            forall|i: int| 0 <= i < index ==> self@[i].rank() < tid.rank(),
            forall|i: int| index <= i < self@.len() ==> tid.rank() <= self@[i].rank(),
    {
        proof {
            use_type_invariant(self);
        }
        let mut lo: usize = 0;
        let mut hi: usize = self.inner.len();
        while lo < hi
            invariant
                lo <= hi <= self.inner@.len(),
                strictly_ascending(self.inner@),
                forall|i: int| 0 <= i < lo ==> self.inner@[i].rank() < tid.rank(),
                forall|i: int| hi <= i < self.inner@.len() ==> tid.rank() <= self.inner@[i].rank(),
            decreases hi - lo,
        {
            let mid: usize = lo + (hi - lo) / 2;
            if self.inner[mid].before(tid) {
                lo = mid + 1;
            } else {
                hi = mid;
            }
        }
        lo
    }

    /// Records that `tid` refers to the owner. Tagging an entity that is
    /// already held changes nothing.
    pub fn tag(&mut self, tid: EntityId) -> (tags: &mut Self)
        ensures
            tagged(old(self)@, tid, tags@),
            *final(self) == *final(tags),
    {
        proof {
            use_type_invariant(&*self);
        }
        let index: usize = self.lower_bound(&tid);
        let ghost before = self.inner@;
        let present: bool = index < self.inner.len() && !tid.before(&self.inner[index]);
        if present {
            proof {
                EntityId::lemma_rank_injective(before[index as int], tid);
                assert(before.contains(tid));
            }
        } else {
            let mut inner: Vec<EntityId> = Vec::new();
            std::mem::swap(&mut inner, &mut self.inner);
            inner.insert(index, tid);
            self.inner = inner;
            proof {
                let after = self.inner@;
                assert(after == before.insert(index as int, tid));
                assert(!before.contains(tid)) by {
                    if before.contains(tid) {
                        let k = choose|k: int| 0 <= k < before.len() && before[k] == tid;
                        assert(before[k].rank() == tid.rank());
                    }
                }
                assert forall|e: EntityId| after.contains(e) <==> before.contains(e) || e == tid by {
                    if after.contains(e) {
                        let k = choose|k: int| 0 <= k < after.len() && after[k] == e;
                        if k < index {
                            assert(before[k] == e);
                        } else if k > index {
                            assert(before[k - 1] == e);
                        }
                    }
                    if before.contains(e) {
                        let k = choose|k: int| 0 <= k < before.len() && before[k] == e;
                        if k < index {
                            assert(after[k] == e);
                        } else {
                            assert(after[k + 1] == e);
                        }
                    }
                    if e == tid {
                        assert(after[index as int] == e);
                    }
                }
                assert(strictly_ascending(after)) by {
                    assert forall|i: int, j: int| 0 <= i < j < after.len() implies after[i].rank()
                        < after[j].rank() by {
                        if j < index {
                        } else if j == index {
                        } else if i < index {
                            assert(after[j] == before[j - 1]);
                        } else if i == index {
                            assert(after[j] == before[j - 1]);
                        } else {
                            assert(after[i] == before[i - 1]);
                            assert(after[j] == before[j - 1]);
                        }
                    }
                }
            }
        }
        self
    }

    /// The entities held, in ascending order.
    pub fn entities(&self) -> (held: &[EntityId])
        ensures
            held@ == self@,
            strictly_ascending(held@),
    {
        proof {
            use_type_invariant(self);
        }
        self.inner.as_slice()
    }

    /// How many entities are held.
    pub fn len(&self) -> (n: usize)
        ensures
            n == self@.len(),
    {
        self.inner.len()
    }
}

/// Tagging is idempotent: a second tagging of the same entity leaves the
/// sequence as the first one made it, in length and in order.
pub proof fn lemma_tag_twice(
    start: Seq<EntityId>,
    tid: EntityId,
    once: Seq<EntityId>,
    twice: Seq<EntityId>,
)
    requires
        tagged(start, tid, once),
        tagged(once, tid, twice),
    ensures
        twice == once,
        strictly_ascending(twice),
{
    assert(once.contains(tid));
}

/// A sequence that ascends strictly holds no entity twice.
pub proof fn lemma_ascending_holds_once(s: Seq<EntityId>, i: int, j: int)
    requires
        strictly_ascending(s),
        0 <= i < s.len(),
        0 <= j < s.len(),
        s[i] == s[j],
    ensures
        i == j,
{
    if i < j {
        assert(s[i].rank() < s[j].rank());
    } else if j < i {
        assert(s[j].rank() < s[i].rank());
    }
}

} // verus!
