//! Groups of champions and of abilities.

use std::marker::PhantomData;
use vstd::prelude::*;

use crate::db::autoindex::AutoIndexItem;
use crate::db::table::TableItem;
use crate::types::ability::Ability;
use crate::types::tags::{tagged, EntityId, Tags};
use crate::types::Id;

verus! {

/// A class or a race: the `Id`s of its members, in the order in which they
/// were added.
#[derive(Debug)]
pub struct Group<T> {
    pub id: Id,
    pub name: String,
    pub ids: Vec<Id>,
    pub phantom: PhantomData<T>,
}

/// The `Id` and the name of an entity, for a listing.
#[derive(Debug)]
pub struct Shim<'a> {
    pub id: Id,
    pub name: &'a str,
}

impl<T> Group<T> {
    /// The `Id` and the name, for a listing.
    pub fn shim(&self) -> (shim: Shim<'_>)
        ensures
            shim.id == self.id,
            shim.name@ == self.name@,
    {
        Shim { id: self.id, name: self.name.as_str() }
    }

    /// Adds `item` as the last member.
    pub fn add(&mut self, item: &T) -> (group: &mut Self) where T: TableItem
        ensures
            group.ids@ == old(self).ids@.push(item.spec_id()),
            group.id == old(self).id,
            group.name == old(self).name,
            *final(self) == *final(group),
    {
        self.ids.push(item.id());
        self
    }
}

impl<T> AutoIndexItem for Group<T> {
    open spec fn accepts(raw: Seq<char>) -> bool {
        true
    }

    open spec fn normal(raw: Seq<char>) -> Seq<char> {
        raw
    }

    open spec fn fits(key: Seq<char>) -> bool {
        true
    }

    proof fn lemma_normal_fits(raw: Seq<char>) {
    }

    open spec fn made(id: Id, key: Seq<char>, item: Self) -> bool {
        &&& item.id == id
        &&& item.name@ == key
        &&& item.ids@ == Seq::<Id>::empty()
    }

    fn make_key(key: &str) -> (made: String) {
        key.to_owned()
    }

    fn create(id: Id, key: String) -> (item: Self) {
        Group { id, name: key, ids: Vec::new(), phantom: PhantomData }
    }
}

impl<T> TableItem for Group<T> {
    open spec fn spec_id(&self) -> Id {
        self.id
    }

    fn id(&self) -> (id: Id) {
        self.id
    }
}

/// Whether `ids` ascends strictly.
pub open spec fn ascending(ids: Seq<Id>) -> bool {
    forall|i: int, j: int| 0 <= i < j < ids.len() ==> ids[i] < ids[j]
}

/// Whether `after` is what ranking `id` makes of `before`: the same `Id`s
/// and `id`, in ascending order, and `before` itself where it already held
/// `id`.
pub open spec fn ranked(before: Seq<Id>, id: Id, after: Seq<Id>) -> bool {
    &&& ascending(after)
    &&& forall|other: Id| after.contains(other) <==> before.contains(other) || other == id
    &&& before.contains(id) ==> after == before
    &&& !before.contains(id) ==> after.len() == before.len() + 1
}

/// The abilities that share a name: the ranks of one ability, and the
/// entities that refer to it.
#[derive(Debug)]
pub struct AbilityGroup {
    pub id: Id,
    pub name: String,
    pub ranks: Vec<Id>,
    pub tags: Tags,
}

impl AbilityGroup {
    /// The ranks ascend.
    pub open spec fn wf(&self) -> bool {
        ascending(self.ranks@)
    }

    /// The `Id` and the name, for a listing.
    pub fn shim(&self) -> (shim: Shim<'_>)
        ensures
            shim.id == self.id,
            shim.name@ == self.name@,
    {
        Shim { id: self.id, name: self.name.as_str() }
    }

    /// Takes `rank` among the ranks, which stay in ascending order. An
    /// ability that is a rank already is not taken twice.
    pub fn rank(&mut self, rank: &Ability) -> (group: &mut Self)
        requires
            old(self).wf(),
        ensures
            ranked(old(self).ranks@, rank.spec_id(), group.ranks@),
            group.wf(),
            group.id == old(self).id,
            group.name == old(self).name,
            group.tags == old(self).tags,
            *final(self) == *final(group),
    {
        let id: Id = rank.id();
        let ghost before = self.ranks@;
        let mut lo: usize = 0;
        let mut hi: usize = self.ranks.len();
        while lo < hi
            invariant
                lo <= hi <= self.ranks@.len(),
                self.ranks@ == before,
                ascending(before),
                forall|i: int| 0 <= i < lo ==> before[i] < id,
                forall|i: int| hi <= i < before.len() ==> id <= before[i],
            decreases hi - lo,
        {
            let mid: usize = lo + (hi - lo) / 2;
            if self.ranks[mid] < id {
                lo = mid + 1;
            } else {
                hi = mid;
            }
        }
        if lo < self.ranks.len() && self.ranks[lo] == id {
            assert(before.contains(id));
        } else {
            self.ranks.insert(lo, id);
            proof {
                let after = self.ranks@;
                let at = lo as int;
                assert(!before.contains(id)) by {
                    if before.contains(id) {
                        let k = choose|k: int| 0 <= k < before.len() && before[k] == id;
                    }
                }
                assert forall|other: Id| after.contains(other) <==> before.contains(other) || other
                    == id by {
                    if after.contains(other) {
                        let k = choose|k: int| 0 <= k < after.len() && after[k] == other;
                        if k < at {
                            assert(before[k] == other);
                        } else if k > at {
                            assert(before[k - 1] == other);
                        }
                    }
                    if before.contains(other) {
                        let k = choose|k: int| 0 <= k < before.len() && before[k] == other;
                        if k < at {
                            assert(after[k] == other);
                        } else {
                            assert(after[k + 1] == other);
                        }
                    }
                    if other == id {
                        assert(after[at] == other);
                    }
                }
                assert forall|i: int, j: int| 0 <= i < j < after.len() implies after[i]
                    < after[j] by {
                    if j < at {
                    } else if j == at {
                    } else if i < at {
                        assert(after[j] == before[j - 1]);
                    } else if i == at {
                        assert(after[j] == before[j - 1]);
                    } else {
                        assert(after[i] == before[i - 1]);
                        assert(after[j] == before[j - 1]);
                    }
                }
            }
        }
        self
    }

    /// Records that `tid` refers to the ability.
    pub fn tag(&mut self, tid: EntityId) -> (group: &mut Self)
        ensures
            tagged(old(self).tags@, tid, group.tags@),
            group.id == old(self).id,
            group.name == old(self).name,
            group.ranks == old(self).ranks,
            *final(self) == *final(group),
    {
        self.tags.tag(tid);
        self
    }
}

impl AutoIndexItem for AbilityGroup {
    open spec fn accepts(raw: Seq<char>) -> bool {
        true
    }

    open spec fn normal(raw: Seq<char>) -> Seq<char> {
        raw
    }

    open spec fn fits(key: Seq<char>) -> bool {
        true
    }

    proof fn lemma_normal_fits(raw: Seq<char>) {
    }

    open spec fn made(id: Id, key: Seq<char>, item: Self) -> bool {
        &&& item.id == id
        &&& item.name@ == key
        &&& item.ranks@ == Seq::<Id>::empty()
        &&& item.tags@ == Seq::<EntityId>::empty()
    }

    fn make_key(key: &str) -> (made: String) {
        key.to_owned()
    }

    fn create(id: Id, key: String) -> (item: Self) {
        AbilityGroup { id, name: key, ranks: Vec::new(), tags: Tags::default() }
    }
}

impl TableItem for AbilityGroup {
    open spec fn spec_id(&self) -> Id {
        self.id
    }

    fn id(&self) -> (id: Id) {
        self.id
    }
}

} // verus!
