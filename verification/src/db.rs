//! The indexed tables of the catalog and the search index over them.

use vstd::prelude::*;

use crate::types::{
    Ability, AbilityGroup, Champion, Effect, Equip, Faction, Group, Relic, Rune, RuneSet, Spell,
};

pub mod autoindex;
pub mod enum_table;
pub mod order;
pub mod search;
pub mod table;
pub mod words;

pub use autoindex::{AutoIndexItem, AutoIndexTable};
pub use enum_table::{EnumId, EnumTable};
pub use search::{SearchId, SearchIndex, Searchable};
pub use table::{Table, TableItem};

verus! {

/// One snapshot of the catalog: every table, and the search index over the
/// names.
#[derive(Debug)]
pub struct DB {
    pub ability_groups: AutoIndexTable<AbilityGroup>,
    pub abilities: Table<Ability>,
    pub effects: AutoIndexTable<Effect>,
    pub champs: Table<Champion>,
    pub spells: Table<Rune<Spell>>,
    pub equips: Table<Rune<Equip>>,
    pub relics: Table<Rune<Relic>>,
    pub races: AutoIndexTable<Group<Champion>>,
    pub classes: AutoIndexTable<Group<Champion>>,
    pub artists: AutoIndexTable<RuneSet>,
    pub factions: EnumTable<Faction>,
    pub expansions: AutoIndexTable<RuneSet>,
    pub search: SearchIndex,
}

impl DB {
    /// Every table is well formed, and so is every item that has a form to
    /// keep.
    pub open spec fn wf(&self) -> bool {
        &&& self.ability_groups.wf()
        &&& self.abilities.wf()
        &&& self.effects.wf()
        &&& self.champs.wf()
        &&& self.spells.wf()
        &&& self.equips.wf()
        &&& self.relics.wf()
        &&& self.races.wf()
        &&& self.classes.wf()
        &&& self.artists.wf()
        &&& self.factions.wf()
        &&& self.expansions.wf()
        &&& forall|i: int|
            0 <= i < self.ability_groups.items().len() ==> (
            #[trigger] self.ability_groups.items()[i]).wf()
        &&& forall|i: int|
            0 <= i < self.champs.items().len() ==> (#[trigger] self.champs.items()[i]).wf()
        &&& forall|i: int|
            0 <= i < self.spells.items().len() ==> (#[trigger] self.spells.items()[i]).wf()
        &&& forall|i: int|
            0 <= i < self.equips.items().len() ==> (#[trigger] self.equips.items()[i]).wf()
        &&& forall|i: int|
            0 <= i < self.relics.items().len() ==> (#[trigger] self.relics.items()[i]).wf()
    }

    /// Whether the catalog is as it is made: no table holds an item, every
    /// faction has its set with its `Id` and no tag, and the index holds no
    /// posting.
    pub open spec fn is_fresh(&self) -> bool {
        &&& self.wf()
        &&& self.is_empty()
        &&& forall|id: int|
            0 <= id < 8 ==> {
                &&& (#[trigger] self.factions.slots()[id]).id == id
                &&& self.factions.slots()[id].name.index() == id
                &&& self.factions.slots()[id].tags@ == Seq::<crate::types::EntityId>::empty()
            }
    }

    /// Whether no table holds an item and the index holds no posting.
    pub open spec fn is_empty(&self) -> bool {
        &&& self.ability_groups.items().len() == 0
        &&& self.abilities.items().len() == 0
        &&& self.effects.items().len() == 0
        &&& self.champs.items().len() == 0
        &&& self.spells.items().len() == 0
        &&& self.equips.items().len() == 0
        &&& self.relics.items().len() == 0
        &&& self.races.items().len() == 0
        &&& self.classes.items().len() == 0
        &&& self.artists.items().len() == 0
        &&& self.expansions.items().len() == 0
        &&& self.search@.len() == 0
    }
}

impl Default for DB {
    fn default() -> (db: DB)
        ensures
            db.is_fresh(),
    {
        DB {
            ability_groups: AutoIndexTable::default(),
            abilities: Table::default(),
            effects: AutoIndexTable::default(),
            champs: Table::default(),
            spells: Table::default(),
            equips: Table::default(),
            relics: Table::default(),
            races: AutoIndexTable::default(),
            classes: AutoIndexTable::default(),
            artists: AutoIndexTable::default(),
            factions: EnumTable::default(),
            expansions: AutoIndexTable::default(),
            search: SearchIndex::default(),
        }
    }
}

} // verus!
