//! Champions as the feed describes them, and as the catalog keeps them.

use vstd::prelude::*;
use vstd::std_specs::convert::FromSpecImpl;

use crate::db::table::TableItem;
use crate::trusted::lists::{
    group_held, group_new, set_held, set_new, sides_held, sides_new, starting_held, starting_new,
    GroupIds, SetIds, Sides, StartingIds,
};
use crate::types::enums::{Faction, Size};
use crate::types::tags::EntityId;
use crate::types::{Id, RuneRaw};

verus! {

/// A champion as the feed describes it.
#[derive(Debug)]
pub struct ChampionCore {
    pub raw: RuneRaw,
    pub max_rng: u8,
    pub min_rng: u8,
    pub defense: u8,
    pub speed: u8,
    pub damage: u16,
    pub hit_points: u16,
    pub size: Size,
}

/// The most abilities that a champion starts with.
pub const MAX_STARTING_ABILITIES: usize = 8;

/// The most abilities in one of the two sets of a champion.
pub const MAX_SET_ABILITIES: usize = 4;

/// The most classes, and the most races, of a champion.
pub const MAX_GROUPS: usize = 6;

/// The most factions of a rune.
pub const MAX_FACTIONS: usize = 2;

/// A champion with what belongs to it, each named by its `Id`. A place that
/// is not filled yet holds `u32::MAX`.
#[derive(Debug)]
pub struct Champion {
    pub core: ChampionCore,
    pub starting_abilities: StartingIds,
    pub ability_sets: [SetIds; 2],
    pub defaults: [Id; 2],
    pub classes: GroupIds,
    pub races: GroupIds,
    pub factions: Sides,
    pub expansion: Id,
    pub artist: Id,
}

/// What belongs to a champion, each named by its `Id`, as sequences.
pub struct LinksView {
    pub starting: Seq<Id>,
    pub left: Seq<Id>,
    pub right: Seq<Id>,
    pub default_left: Id,
    pub default_right: Id,
    pub classes: Seq<Id>,
    pub races: Seq<Id>,
    pub factions: Seq<Faction>,
    pub expansion: Id,
    pub artist: Id,
}

impl LinksView {
    /// No list holds more than it is made for.
    pub open spec fn wf(self) -> bool {
        &&& self.starting.len() <= MAX_STARTING_ABILITIES
        &&& self.left.len() <= MAX_SET_ABILITIES
        &&& self.right.len() <= MAX_SET_ABILITIES
        &&& self.classes.len() <= MAX_GROUPS
        &&& self.races.len() <= MAX_GROUPS
        &&& self.factions.len() <= MAX_FACTIONS
    }

    /// What belongs to a champion that was only just made: nothing.
    pub open spec fn bare() -> LinksView {
        LinksView {
            starting: Seq::empty(),
            left: Seq::empty(),
            right: Seq::empty(),
            default_left: u32::MAX,
            default_right: u32::MAX,
            classes: Seq::empty(),
            races: Seq::empty(),
            factions: Seq::empty(),
            expansion: u32::MAX,
            artist: u32::MAX,
        }
    }
}

impl Champion {
    /// What belongs to the champion.
    pub open spec fn links(&self) -> LinksView {
        LinksView {
            starting: starting_held(self.starting_abilities),
            left: set_held(self.ability_sets@[0]),
            right: set_held(self.ability_sets@[1]),
            default_left: self.defaults@[0],
            default_right: self.defaults@[1],
            classes: group_held(self.classes),
            races: group_held(self.races),
            factions: sides_held(self.factions),
            expansion: self.expansion,
            artist: self.artist,
        }
    }

    /// No list holds more than it is made for.
    pub open spec fn wf(&self) -> bool {
        self.links().wf()
    }

    /// Whether `self` is a champion with the core `core` and nothing else
    /// yet.
    pub open spec fn is_bare(&self, core: ChampionCore) -> bool {
        &&& self.core == core
        &&& self.links() == LinksView::bare()
    }
}

impl From<ChampionCore> for Champion {
    fn from(core: ChampionCore) -> (champion: Champion)
        ensures
            champion.is_bare(core),
            champion.wf(),
    {
        Champion {
            core,
            starting_abilities: starting_new(),
            ability_sets: [set_new(), set_new()],
            defaults: [u32::MAX, u32::MAX],
            classes: group_new(),
            races: group_new(),
            factions: sides_new(),
            expansion: u32::MAX,
            artist: u32::MAX,
        }
    }
}

impl FromSpecImpl<ChampionCore> for Champion {
    open spec fn obeys_from_spec() -> bool {
        false
    }

    open spec fn from_spec(core: ChampionCore) -> Champion {
        arbitrary()
    }
}

impl<'a> From<&'a Champion> for EntityId {
    fn from(taggable: &'a Champion) -> (eid: EntityId) {
        EntityId::Champion(taggable.id())
    }
}

impl<'a> FromSpecImpl<&'a Champion> for EntityId {
    open spec fn obeys_from_spec() -> bool {
        true
    }

    open spec fn from_spec(taggable: &'a Champion) -> EntityId {
        EntityId::Champion(taggable.core.raw.id)
    }
}

impl TableItem for Champion {
    open spec fn spec_id(&self) -> Id {
        self.core.raw.id
    }

    fn id(&self) -> (id: Id) {
        self.core.raw.id
    }
}

impl TableItem for ChampionCore {
    open spec fn spec_id(&self) -> Id {
        self.raw.id
    }

    fn id(&self) -> (id: Id) {
        self.raw.id
    }
}

} // verus!
