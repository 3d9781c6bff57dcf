//! Storage with one slot for each value of a closed enumeration.

use vstd::prelude::*;

use crate::db::table::TableItem;
use crate::types::rune_set::RuneSet;
use crate::types::Id;

verus! {

/// A closed enumeration whose values have the `Id`s from zero up to its size.
pub trait EnumId: TableItem + Copy {
    /// The number of values.
    spec fn size() -> nat;

    /// Every value has its `Id` below the size, and the size fits in an
    /// `Id`.
    proof fn lemma_closed(value: Self)
        ensures
            value.spec_id() < Self::size(),
            Self::size() <= u32::MAX,
    ;

    /// The value with the `Id` `id`.
    fn from_id(id: Id) -> (value: Option<Self>)
        ensures
            id < Self::size() ==> value is Some && value->0.spec_id() == id,
            id >= Self::size() ==> value is None,
    ;
}

/// One set for each value of `E`, made when the table is made.
#[derive(Debug)]
pub struct EnumTable<E: EnumId> {
    table: Vec<RuneSet<E>>,
}

impl<E: EnumId> Default for EnumTable<E> {
    fn default() -> (made: EnumTable<E>)
        ensures
            made.wf(),
            forall|id: int|
                0 <= id < E::size() ==> {
                    &&& (#[trigger] made.slots()[id]).id == id
                    &&& made.slots()[id].name.spec_id() == id
                    &&& made.slots()[id].tags@ == Seq::<crate::types::EntityId>::empty()
                },
    {
        let mut table: Vec<RuneSet<E>> = Vec::new();
        let mut id: Id = 0;
        loop
            invariant
                id == table@.len(),
                id <= E::size(),
                forall|k: int|
                    0 <= k < id ==> {
                        &&& (#[trigger] table@[k]).id == k
                        &&& table@[k].name.spec_id() == k
                        &&& table@[k].tags@ == Seq::<crate::types::EntityId>::empty()
                    },
            ensures
                table@.len() == E::size(),
                forall|k: int|
                    0 <= k < table@.len() ==> {
                        &&& (#[trigger] table@[k]).id == k
                        &&& table@[k].name.spec_id() == k
                        &&& table@[k].tags@ == Seq::<crate::types::EntityId>::empty()
                    },
            decreases E::size() - id,
        {
            match E::from_id(id) {
                Some(key) => {
                    proof {
                        E::lemma_closed(key);
                    }
                    table.push(RuneSet::from(key));
                    id = id + 1;
                },
                None => {
                    break ;
                },
            }
        }
        EnumTable { table }
    }
}

impl<E: EnumId> EnumTable<E> {
    /// The sets, in the order of the values.
    pub closed spec fn slots(&self) -> Seq<RuneSet<E>> {
        self.table@
    }

    /// There is one slot for each value.
    pub closed spec fn wf(&self) -> bool {
        self.table@.len() == E::size()
    }

    /// A well-formed table has as many slots as `E` has values.
    pub proof fn lemma_wf(&self)
        requires
            self.wf(),
        ensures
            self.slots().len() == E::size(),
    {
    }

    /// The set of `item`. No slot is ever added or taken away.
    pub fn entry(&mut self, item: E) -> (slot: &mut RuneSet<E>)
        requires
            old(self).wf(),
        ensures
            final(self).wf(),
            *slot == old(self).slots()[item.spec_id() as int],
            final(self).slots() == old(self).slots().update(item.spec_id() as int, *final(slot)),
    {
        proof {
            E::lemma_closed(item);
        }
        &mut self.table[item.id() as usize]
    }

    /// The set of `item`, to be read.
    pub fn get(&self, item: E) -> (slot: &RuneSet<E>)
        requires
            self.wf(),
        ensures
            *slot == self.slots()[item.spec_id() as int],
    {
        proof {
            E::lemma_closed(item);
        }
        &self.table[item.id() as usize]
    }
}

} // verus!
