//! Tables that give out dense `Id`s in the order in which keys are first
//! seen.

use vstd::prelude::*;

use crate::db::table::TableItem;
use crate::trusted::fxmap::{key_ids, key_index_get, key_index_insert, key_index_new, KeyIndex};
use crate::types::Id;

verus! {

/// What such a table stores: an item that is made of its `Id` and its key.
pub trait AutoIndexItem: TableItem + Sized {
    /// Whether an item can be made for the key `raw`.
    spec fn accepts(raw: Seq<char>) -> bool;

    /// The normal form of `raw`, under which its item is kept.
    spec fn normal(raw: Seq<char>) -> Seq<char>;

    /// Whether an item can hold the normal key `key`.
    spec fn fits(key: Seq<char>) -> bool;

    /// The normal form of a key that is accepted can be held.
    proof fn lemma_normal_fits(raw: Seq<char>)
        requires
            Self::accepts(raw),
        ensures
            Self::fits(Self::normal(raw)),
    ;

    /// Whether `item` is what `create` makes of `id` and `key`.
    spec fn made(id: Id, key: Seq<char>, item: Self) -> bool;

    /// The normal form of `key`.
    fn make_key(key: &str) -> (made: String)
        requires
            Self::accepts(key@),
        ensures
            made@ == Self::normal(key@),
    ;

    /// A new item for the normal key `key`, with the `Id` `id`.
    fn create(id: Id, key: String) -> (item: Self)
        requires
            Self::fits(key@),
        ensures
            Self::made(id, key@, item),
    ;
}

/// Whether one of the keys of `ids` has the `Id` `id`.
spec fn keyed(ids: Map<Seq<char>, Id>, id: int) -> bool {
    exists|key: Seq<char>| ids.contains_key(key) && ids[key] == id
}

/// Whether `ids` gives the `Id`s below `len` to its keys, one to one.
spec fn index_wf(ids: Map<Seq<char>, Id>, len: int) -> bool {
    &&& forall|key: Seq<char>| #[trigger] ids.contains_key(key) ==> ids[key] < len
    &&& forall|a: Seq<char>, b: Seq<char>|
        ids.contains_key(a) && ids.contains_key(b) && ids[a] == ids[b] ==> a == b
    &&& forall|id: int| 0 <= id < len ==> #[trigger] keyed(ids, id)
}

/// Items in the order of their `Id`s, and the `Id` of each key.
#[derive(Debug)]
pub struct AutoIndexTable<T: AutoIndexItem> {
    ids: KeyIndex,
    table: Vec<T>,
}

impl<T: AutoIndexItem> Default for AutoIndexTable<T> {
    fn default() -> (table: AutoIndexTable<T>)
        ensures
            table.wf(),
            table.items() == Seq::<T>::empty(),
            forall|key: Seq<char>| table.id_of(key) is None,
    {
        AutoIndexTable { ids: key_index_new(), table: Vec::new() }
    }
}

impl<T: AutoIndexItem> AutoIndexTable<T> {
    /// The items; the `Id` of an item is its place.
    pub closed spec fn items(&self) -> Seq<T> {
        self.table@
    }

    /// The `Id` that was given out for the normal key `key`.
    pub closed spec fn id_of(&self, key: Seq<char>) -> Option<Id> {
        if key_ids(self.ids).contains_key(key) {
            Some(key_ids(self.ids)[key])
        } else {
            None
        }
    }

    /// Every `Id` that was given out is the place of an item, no two keys
    /// share an `Id`, and every item has a key.
    pub closed spec fn wf(&self) -> bool {
        index_wf(key_ids(self.ids), self.table@.len() as int)
    }

    /// Whether every key of `prior` still has its `Id` in `self`.
    pub open spec fn keeps_ids_of(&self, prior: &Self) -> bool {
        forall|key: Seq<char>| #[trigger]
            prior.id_of(key) is Some ==> self.id_of(key) == prior.id_of(key)
    }

    /// Whether `self` is `prior` with `item` stored under the normal key
    /// `key`: in the place of the `Id` of `key` where it has one, and else
    /// in a new place at the end, whose number is then the `Id` of `key`.
    /// Every other key and every other item is as it was.
    pub open spec fn is_put(&self, prior: &Self, key: Seq<char>, item: T) -> bool {
        &&& forall|other: Seq<char>| other != key ==> self.id_of(other) == prior.id_of(other)
        &&& match prior.id_of(key) {
            Some(id) => {
                &&& self.id_of(key) == Some(id)
                &&& self.items() =~= prior.items().update(id as int, item)
            },
            None => {
                &&& self.id_of(key) == Some(prior.items().len() as Id)
                &&& self.items() =~= prior.items().push(item)
            },
        }
    }

    /// What a lookup of `key` finds.
    pub open spec fn lookup(&self, key: Seq<char>) -> Option<T> {
        match self.id_of(key) {
            Some(id) => if id < self.items().len() {
                Some(self.items()[id as int])
            } else {
                None
            },
            None => None,
        }
    }

    /// A lookup finds the item in the place of the `Id` of the key.
    pub proof fn lemma_lookup(&self, key: Seq<char>)
        requires
            self.wf(),
        ensures
            self.lookup(key) == match self.id_of(key) {
                Some(id) => Some(self.items()[id as int]),
                None => None,
            },
    {
    }

    /// Every `Id` that was given out lies below the number of items, so the
    /// next one is above them all; and it was given out for one key alone.
    pub proof fn lemma_wf(&self, key: Seq<char>)
        requires
            self.wf(),
            self.id_of(key) is Some,
        ensures
            self.id_of(key)->0 < self.items().len(),
            forall|other: Seq<char>| self.id_of(other) == self.id_of(key) ==> other == key,
    {
    }

    /// Every item is kept under a key.
    pub proof fn lemma_has_key(&self, id: Id)
        requires
            self.wf(),
            id < self.items().len(),
        ensures
            exists|key: Seq<char>| self.id_of(key) == Some(id),
    {
        assert(keyed(key_ids(self.ids), id as int));
        let key = choose|key: Seq<char>|
            key_ids(self.ids).contains_key(key) && key_ids(self.ids)[key] == id as int;
        assert(self.id_of(key) == Some(id));
    }

    /// The item of `key`: the one that is already kept under the normal
    /// form of `key`, or else a new one, made of the next `Id` and the
    /// normal form. No other key is touched.
    pub fn entry(&mut self, key: &str) -> (stored: &mut T)
        requires
            old(self).wf(),
            T::accepts(key@),
            old(self).items().len() <= u32::MAX,
        ensures
            final(self).wf(),
            final(self).keeps_ids_of(old(self)),
            final(self).is_put(old(self), T::normal(key@), *final(stored)),
            match old(self).id_of(T::normal(key@)) {
                Some(id) => {
                    &&& *stored == old(self).items()[id as int]
                    &&& final(self).items() == old(self).items().update(id as int, *final(stored))
                },
                None => {
                    &&& T::made(old(self).items().len() as Id, T::normal(key@), *stored)
                    &&& final(self).id_of(T::normal(key@)) == Some(old(self).items().len() as Id)
                    &&& final(self).items() == old(self).items().push(*final(stored))
                },
            },
    {
        let normal: String = T::make_key(key);
        let slot: usize = match key_index_get(&self.ids, normal.as_str()) {
            Some(id) => id as usize,
            None => {
                let slot: usize = self.table.len();
                let id: Id = slot as Id;
                let kept: String = normal.clone();
                let ghost was = key_ids(self.ids);
                proof {
                    T::lemma_normal_fits(key@);
                }
                self.table.push(T::create(id, kept));
                key_index_insert(&mut self.ids, normal, id);
                proof {
                    let now = key_ids(self.ids);
                    let len = self.table@.len() as int;
                    assert forall|other: int| 0 <= other < len implies #[trigger] keyed(
                        now,
                        other,
                    ) by {
                        if other < slot {
                            assert(keyed(was, other));
                            let held = choose|held: Seq<char>|
                                was.contains_key(held) && was[held] == other;
                            assert(now.contains_key(held) && now[held] == other);
                        } else {
                            assert(now.contains_key(normal@) && now[normal@] == other);
                        }
                    }
                }
                slot
            },
        };
        &mut self.table[slot]
    }

    /// The item with the `Id` `id`.
    pub fn get(&self, id: Id) -> (found: Option<&T>)
        ensures
            match found {
                Some(item) => id < self.items().len() && *item == self.items()[id as int],
                None => id >= self.items().len(),
            },
    {
        if (id as usize) < self.table.len() {
            Some(&self.table[id as usize])
        } else {
            None
        }
    }

    /// The item with the `Id` `id`, to be changed in place.
    pub fn get_mut(&mut self, id: Id) -> (found: Option<&mut T>)
        ensures
            forall|key: Seq<char>| final(self).id_of(key) == old(self).id_of(key),
            old(self).wf() ==> final(self).wf(),
            match found {
                Some(item) => {
                    &&& id < old(self).items().len()
                    &&& *item == old(self).items()[id as int]
                    &&& final(self).items() == old(self).items().update(id as int, *final(item))
                },
                None => id >= old(self).items().len() && final(self).items() == old(self).items(),
            },
    {
        if (id as usize) < self.table.len() {
            Some(&mut self.table[id as usize])
        } else {
            None
        }
    }

    /// The item that is kept under `key`, which is taken as it is: a caller
    /// that holds a raw key brings it to its normal form first.
    pub fn get_by_key(&self, key: &str) -> (found: Option<&T>)
        ensures
            match found {
                Some(item) => self.lookup(key@) == Some(*item),
                None => self.lookup(key@) is None,
            },
    {
        match key_index_get(&self.ids, key) {
            Some(id) => {
                if (id as usize) < self.table.len() {
                    Some(&self.table[id as usize])
                } else {
                    None
                }
            },
            None => None,
        }
    }

    /// The items in their order, as a slice.
    pub fn as_slice(&self) -> (items: &[T])
        ensures
            items@ == self.items(),
    {
        self.table.as_slice()
    }

    /// How many items are stored.
    pub fn len(&self) -> (n: usize)
        ensures
            n == self.items().len(),
    {
        self.table.len()
    }

    /// The items in the order of their `Id`s.
    pub fn iter(&self) -> (items: std::slice::Iter<'_, T>)
        ensures
            vstd::std_specs::slice::into_iter_elts(items) == self.items(),
    {
        let slice: &[T] = self.table.as_slice();
        let items = slice.iter();
        proof {
            vstd::std_specs::slice::axiom_spec_slice_iter(slice);
            assert(self.table@.as_ref().unref() =~= self.table@);
        }
        items
    }
}

/// A key that is seen again has the `Id` that it was given, and a key that
/// is new is given an `Id` above every `Id` given before.
pub proof fn lemma_ids_ascend<T: AutoIndexItem>(
    before: &AutoIndexTable<T>,
    after: &AutoIndexTable<T>,
    seen: Seq<char>,
    fresh: Seq<char>,
)
    requires
        before.wf(),
        after.keeps_ids_of(before),
        before.id_of(seen) is Some,
        before.id_of(fresh) is None,
        after.id_of(fresh) == Some(before.items().len() as Id),
        before.items().len() <= u32::MAX,
    ensures
        after.id_of(seen) == before.id_of(seen),
        after.id_of(fresh)->0 > before.id_of(seen)->0,
{
    before.lemma_wf(seen);
}

} // verus!
