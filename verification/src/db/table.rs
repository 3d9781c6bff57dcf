//! Dense append-only storage that is addressed by a sparse `Id`.

use vstd::prelude::*;

use crate::types::Id;

verus! {

/// What can be stored in a table: a value that tells its own `Id`.
pub trait TableItem {
    /// The `Id` of the value, for contracts.
    spec fn spec_id(&self) -> Id;

    /// The `Id` of the value.
    fn id(&self) -> (id: Id)
        ensures
            id == self.spec_id(),
    ;
}

/// The slot that `index` gives to `id`.
spec fn slot_in(index: Seq<Option<usize>>, id: Id) -> Option<int> {
    if id < index.len() {
        match index[id as int] {
            Some(slot) => Some(slot as int),
            None => None,
        }
    } else {
        None
    }
}

/// Whether one of the `Id`s of `index` has `slot`.
spec fn owned(index: Seq<Option<usize>>, slot: int) -> bool {
    exists|id: Id| slot_in(index, id) == Some(slot)
}

/// Whether `index` binds its `Id`s one to one to the slots below `len`.
spec fn index_wf(index: Seq<Option<usize>>, len: int) -> bool {
    &&& forall|id: Id| #[trigger]
        slot_in(index, id) is Some ==> 0 <= slot_in(index, id)->0 < len
    &&& forall|a: Id, b: Id|
        slot_in(index, a) is Some && slot_in(index, a) == slot_in(index, b) ==> a == b
    &&& forall|slot: int| 0 <= slot < len ==> #[trigger] owned(index, slot)
}

/// An index that gives every `Id` the slot that a well-formed one gives it is
/// well formed too.
proof fn lemma_same_slots(was: Seq<Option<usize>>, now: Seq<Option<usize>>, len: int)
    requires
        index_wf(was, len),
        forall|id: Id| slot_in(now, id) == slot_in(was, id),
    ensures
        index_wf(now, len),
{
    assert forall|s: int| 0 <= s < len implies #[trigger] owned(now, s) by {
        assert(owned(was, s));
        let k = choose|k: Id| slot_in(was, k) == Some(s);
        assert(slot_in(now, k) == Some(s));
    }
    assert forall|a: Id, b: Id|
        slot_in(now, a) is Some && slot_in(now, a) == slot_in(now, b) implies a == b by {
        assert(slot_in(was, a) == slot_in(was, b));
    }
}

/// Items in the order in which they came, and for each `Id` that was seen
/// the slot of its item.
#[derive(Debug)]
pub struct Table<T> {
    index: Vec<Option<usize>>,
    items: Vec<T>,
}

impl<T> Default for Table<T> {
    fn default() -> (table: Table<T>)
        ensures
            table.wf(),
            table.items() == Seq::<T>::empty(),
            forall|id: Id| table.slot_of(id) is None,
    {
        Table { index: Vec::new(), items: Vec::new() }
    }
}

impl<T> Table<T> {
    /// The items, in the order of their insertion.
    pub closed spec fn items(&self) -> Seq<T> {
        self.items@
    }

    /// The slot that `id` is bound to, if it is bound.
    pub closed spec fn slot_of(&self, id: Id) -> Option<int> {
        slot_in(self.index@, id)
    }

    /// Every bound `Id` has a slot of its own among the items, and every
    /// slot belongs to an `Id`.
    pub closed spec fn wf(&self) -> bool {
        index_wf(self.index@, self.items@.len() as int)
    }

    /// What a lookup of `id` finds.
    pub open spec fn lookup(&self, id: Id) -> Option<T> {
        match self.slot_of(id) {
            Some(slot) => if 0 <= slot < self.items().len() {
                Some(self.items()[slot])
            } else {
                None
            },
            None => None,
        }
    }

    /// Whether every binding of `prior` still stands in `self`, at the same
    /// slot.
    pub open spec fn keeps_bindings_of(&self, prior: &Self) -> bool {
        forall|id: Id| #[trigger]
            prior.slot_of(id) is Some ==> self.slot_of(id) == prior.slot_of(id)
    }

    /// Whether `self` is `prior` with `item` stored under `id`: in the slot
    /// of `id` where it has one, and else in a new slot at the end. Every
    /// other binding and every other item is as it was.
    pub open spec fn is_put(&self, prior: &Self, id: Id, item: T) -> bool {
        &&& forall|other: Id| other != id ==> self.slot_of(other) == prior.slot_of(other)
        &&& match prior.slot_of(id) {
            Some(slot) => {
                &&& self.slot_of(id) == Some(slot)
                &&& self.items() =~= prior.items().update(slot, item)
            },
            None => {
                &&& self.slot_of(id) == Some(prior.items().len() as int)
                &&& self.items() =~= prior.items().push(item)
            },
        }
    }

    /// What `entry` hands out for `id` before anything is changed: the item
    /// in the slot of `id`, or `fresh` where `id` has none.
    pub open spec fn held_or(&self, id: Id, fresh: T) -> T {
        match self.slot_of(id) {
            Some(slot) => self.items()[slot],
            None => fresh,
        }
    }

    /// A bound `Id` has its slot among the items, and no two share one.
    pub proof fn lemma_wf(&self, id: Id)
        requires
            self.wf(),
            self.slot_of(id) is Some,
        ensures
            0 <= self.slot_of(id)->0 < self.items().len(),
            self.lookup(id) == Some(self.items()[self.slot_of(id)->0]),
            forall|other: Id| self.slot_of(other) == self.slot_of(id) ==> other == id,
    {
    }

    /// The item of `item.id()`: the one that is already stored under that
    /// `Id`, or else `item` itself, converted and appended. Bindings made
    /// earlier stay as they are.
    pub fn entry<I>(&mut self, item: I) -> (stored: &mut T) where I: TableItem, T: From<I>
        requires
            old(self).wf(),
        ensures
            final(self).wf(),
            final(self).keeps_bindings_of(old(self)),
            final(self).is_put(old(self), item.spec_id(), *final(stored)),
            match old(self).slot_of(item.spec_id()) {
                Some(slot) => {
                    &&& *stored == old(self).items()[slot]
                    &&& final(self).items() == old(self).items().update(slot, *final(stored))
                },
                None => {
                    &&& call_ensures(T::from, (item,), *stored)
                    &&& final(self).slot_of(item.spec_id()) == Some(old(self).items().len() as int)
                    &&& final(self).items() == old(self).items().push(*final(stored))
                },
            },
    {
        let id: Id = item.id();
        let ghost before = *self;
        while self.index.len() <= id as usize
            invariant
                self.items == before.items,
                self.index@.len() >= before.index@.len(),
                forall|i: int| 0 <= i < before.index@.len() ==> self.index@[i] == before.index@[i],
                forall|i: int| before.index@.len() <= i < self.index@.len() ==> self.index@[i] is None,
            decreases id as usize + 1 - self.index@.len(),
        {
            self.index.push(None);
        }
        proof {
            assert(forall|other: Id| slot_in(self.index@, other) == slot_in(before.index@, other));
            lemma_same_slots(before.index@, self.index@, self.items@.len() as int);
        }
        let ghost grown = self.index@;
        let bound: Option<usize> = self.index[id as usize];
        let slot: usize = match bound {
            Some(slot) => slot,
            None => {
                let slot: usize = self.items.len();
                self.items.push(T::from(item));
                self.index.set(id as usize, Some(slot));
                proof {
                    let now = self.index@;
                    let was = grown;
                    let len = self.items@.len() as int;
                    assert(index_wf(was, len - 1));
                    assert forall|k: Id| #[trigger] slot_in(now, k) == (if k == id {
                        Some(slot as int)
                    } else {
                        slot_in(was, k)
                    }) by {}
                    assert forall|s: int| 0 <= s < len implies #[trigger] owned(now, s) by {
                        if s < slot {
                            assert(owned(was, s));
                            let k = choose|k: Id| slot_in(was, k) == Some(s);
                            assert(slot_in(now, k) == Some(s));
                        } else {
                            assert(slot_in(now, id) == Some(s));
                        }
                    }
                    assert forall|a: Id, b: Id|
                        slot_in(now, a) is Some && slot_in(now, a) == slot_in(now, b) implies a
                        == b by {
                        if a != id && b != id {
                            assert(slot_in(was, a) == slot_in(was, b));
                        } else if a != id {
                            assert(slot_in(was, a) is Some);
                        } else if b != id {
                            assert(slot_in(was, b) is Some);
                        }
                    }
                    assert(index_wf(now, len));
                }
                slot
            },
        };
        &mut self.items[slot]
    }

    /// The item that is stored under `id`.
    pub fn get(&self, id: Id) -> (found: Option<&T>)
        ensures
            match found {
                Some(item) => self.lookup(id) == Some(*item),
                None => self.lookup(id) is None,
            },
    {
        if (id as usize) < self.index.len() {
            if let Some(slot) = self.index[id as usize] {
                if slot < self.items.len() {
                    return Some(&self.items[slot]);
                }
            }
        }
        None
    }

    /// The item in `slot`, counted in the order of insertion.
    pub fn at(&self, slot: usize) -> (found: Option<&T>)
        ensures
            match found {
                Some(item) => slot < self.items().len() && *item == self.items()[slot as int],
                None => slot >= self.items().len(),
            },
    {
        if slot < self.items.len() {
            Some(&self.items[slot])
        } else {
            None
        }
    }

    /// The item in `slot`, to be changed in place. No binding moves.
    pub fn at_mut(&mut self, slot: usize) -> (found: Option<&mut T>)
        ensures
            forall|id: Id| final(self).slot_of(id) == old(self).slot_of(id),
            old(self).wf() ==> final(self).wf(),
            match found {
                Some(item) => {
                    &&& slot < old(self).items().len()
                    &&& *item == old(self).items()[slot as int]
                    &&& final(self).items() == old(self).items().update(slot as int, *final(item))
                },
                None => slot >= old(self).items().len() && final(self).items() == old(self).items(),
            },
    {
        if slot < self.items.len() {
            Some(&mut self.items[slot])
        } else {
            None
        }
    }

    /// The items in their order, as a slice.
    pub fn as_slice(&self) -> (items: &[T])
        ensures
            items@ == self.items(),
    {
        self.items.as_slice()
    }

    /// How many items are stored.
    pub fn len(&self) -> (n: usize)
        ensures
            n == self.items().len(),
    {
        self.items.len()
    }

    /// How far the bindings reach: every `Id` from this number on is
    /// unbound.
    pub closed spec fn reach(&self) -> nat {
        self.index@.len()
    }

    /// Every `Id` from `reach` on is unbound.
    pub proof fn lemma_reach(&self, id: Id)
        requires
            id >= self.reach(),
        ensures
            self.slot_of(id) is None,
    {
    }

    /// How far the bindings reach.
    pub fn span(&self) -> (n: usize)
        ensures
            n == self.reach(),
    {
        self.index.len()
    }

    /// The slot of `id`.
    pub fn slot(&self, id: Id) -> (slot: Option<usize>)
        requires
            self.wf(),
        ensures
            match slot {
                Some(at) => self.slot_of(id) == Some(at as int) && at < self.items().len(),
                None => self.slot_of(id) is None,
            },
    {
        if (id as usize) < self.index.len() {
            self.index[id as usize]
        } else {
            None
        }
    }

    /// The items in the order of their insertion.
    pub fn iter(&self) -> (items: std::slice::Iter<'_, T>)
        ensures
            vstd::std_specs::slice::into_iter_elts(items) == self.items(),
    {
        let slice: &[T] = self.items.as_slice();
        let items = slice.iter();
        proof {
            vstd::std_specs::slice::axiom_spec_slice_iter(slice);
            assert(self.items@.as_ref().unref() =~= self.items@);
        }
        items
    }
}

/// Whether the table after the upsert `k` of a history is the table before
/// it with an item stored under the `Id` of the upsert.
pub open spec fn upserted<T>(history: Seq<Table<T>>, ids: Seq<Id>, k: int) -> bool {
    exists|item: T| #[trigger] history[k + 1].is_put(&history[k], ids[k], item)
}

/// Through any history of upserts into a table that starts without a
/// binding, an `Id` is found exactly when one of the upserts was for it; and
/// from the upsert on it is found in one and the same slot, for as long as
/// the table lives.
pub proof fn lemma_found_iff_stored<T>(history: Seq<Table<T>>, ids: Seq<Id>, id: Id)
    requires
        history.len() == ids.len() + 1,
        forall|other: Id| history[0].slot_of(other) is None,
        forall|k: int| 0 <= k < ids.len() ==> #[trigger] upserted(history, ids, k),
    ensures
        history.last().slot_of(id) is Some <==> ids.contains(id),
        forall|k: int, l: int|
            0 <= k <= l < history.len() && history[k].slot_of(id) is Some ==> history[l].slot_of(
                id,
            ) == history[k].slot_of(id),
    decreases ids.len(),
{
    if ids.len() > 0 {
        let n = ids.len() as int;
        let shorter = history.drop_last();
        let fewer = ids.drop_last();
        assert forall|k: int| 0 <= k < fewer.len() implies #[trigger] upserted(shorter, fewer, k) by {
            assert(upserted(history, ids, k));
            let item = choose|item: T| #[trigger]
                history[k + 1].is_put(&history[k], ids[k], item);
            assert(shorter[k + 1].is_put(&shorter[k], fewer[k], item));
        }
        lemma_found_iff_stored(shorter, fewer, id);
        assert(upserted(history, ids, n - 1));
        assert(shorter.last() == history[n - 1]);
        if fewer.contains(id) {
            let at = choose|at: int| 0 <= at < fewer.len() && fewer[at] == id;
            assert(ids[at] == id);
        }
        if ids.contains(id) {
            let at = choose|at: int| 0 <= at < ids.len() && ids[at] == id;
            if at < n - 1 {
                assert(fewer[at] == id);
            }
        }
        assert forall|k: int, l: int|
            0 <= k <= l < history.len() && history[k].slot_of(id) is Some implies history[l].slot_of(
            id,
        ) == history[k].slot_of(id) by {
            if l < n {
                assert(shorter[k] == history[k]);
                assert(shorter[l] == history[l]);
            } else if k < n {
                assert(shorter[k] == history[k]);
                assert(shorter[n - 1].slot_of(id) == shorter[k].slot_of(id));
            }
        }
    }
}

/// An `Id` that was never seen is not found, and one that was seen is found
/// in its slot for as long as the table lives: bindings only ever add up.
pub proof fn lemma_bindings_last<T>(first: &Table<T>, second: &Table<T>, third: &Table<T>, id: Id)
    requires
        second.keeps_bindings_of(first),
        third.keeps_bindings_of(second),
        first.slot_of(id) is Some,
    ensures
        third.keeps_bindings_of(first),
        third.slot_of(id) == first.slot_of(id),
{
    assert forall|k: Id| #[trigger] first.slot_of(k) is Some implies third.slot_of(k)
        == first.slot_of(k) by {
        assert(second.slot_of(k) is Some);
    }
}

} // verus!
