//! Named sets of runes: expansions, artists, factions.

use vstd::prelude::*;
use vstd::std_specs::convert::FromSpecImpl;

use crate::db::autoindex::AutoIndexItem;
use crate::db::table::TableItem;
use crate::types::group::Shim;
use crate::types::tags::{tagged, EntityId, Tags};
use crate::types::Id;

verus! {

/// A set of runes under a name, with the runes that belong to it as tags.
#[derive(Debug)]
pub struct RuneSet<K = String> {
    pub id: Id,
    pub name: K,
    pub tags: Tags,
}

impl RuneSet<String> {
    /// The `Id` and the name, for a listing.
    pub fn shim(&self) -> (shim: Shim<'_>)
        ensures
            shim.id == self.id,
            shim.name@ == self.name@,
    {
        Shim { id: self.id, name: self.name.as_str() }
    }
}

impl<K> RuneSet<K> {
    /// Records that the rune `tid` belongs to the set.
    pub fn tag(&mut self, tid: EntityId) -> (set: &mut Self)
        ensures
            tagged(old(self).tags@, tid, set.tags@),
            set.id == old(self).id,
            set.name == old(self).name,
            *final(self) == *final(set),
    {
        self.tags.tag(tid);
        self
    }
}

impl<K: TableItem + Copy> From<K> for RuneSet<K> {
    fn from(key: K) -> (set: RuneSet<K>)
        ensures
            set.id == key.spec_id(),
            set.name == key,
            set.tags@ == Seq::<EntityId>::empty(),
    {
        RuneSet { id: key.id(), name: key, tags: Tags::default() }
    }
}

impl<K: TableItem + Copy> FromSpecImpl<K> for RuneSet<K> {
    open spec fn obeys_from_spec() -> bool {
        false
    }

    open spec fn from_spec(key: K) -> RuneSet<K> {
        arbitrary()
    }
}

impl AutoIndexItem for RuneSet<String> {
    open spec fn accepts(raw: Seq<char>) -> bool {
        true
    }

    open spec fn normal(raw: Seq<char>) -> Seq<char> {
        raw
    }

    open spec fn fits(key: Seq<char>) -> bool {
        true
    }

    proof fn lemma_normal_fits(raw: Seq<char>) {
    }

    open spec fn made(id: Id, key: Seq<char>, item: Self) -> bool {
        &&& item.id == id
        &&& item.name@ == key
        &&& item.tags@ == Seq::<EntityId>::empty()
    }

    fn make_key(key: &str) -> (made: String) {
        key.to_owned()
    }

    fn create(id: Id, key: String) -> (item: Self) {
        RuneSet { id, name: key, tags: Tags::default() }
    }
}

impl<K> TableItem for RuneSet<K> {
    open spec fn spec_id(&self) -> Id {
        self.id
    }

    fn id(&self) -> (id: Id) {
        self.id
    }
}

} // verus!
