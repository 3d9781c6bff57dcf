//! The feed as it comes: entries that name what belongs to them by name.

use vstd::prelude::*;

use crate::db::table::TableItem;
use crate::types::{AbilityCore, ChampionCore, Equip, Faction, Id, Relic, Spell};

verus! {

/// An ability of one of the two sets of a champion.
#[derive(Debug)]
pub struct FeedAbility {
    pub core: AbilityCore,
    pub default: Option<bool>,
}

/// One of the two sets of abilities of a champion.
#[derive(Debug)]
pub struct AbilitySet {
    pub abilities: Vec<FeedAbility>,
}

/// A champion of the feed.
#[derive(Debug)]
pub struct FeedChamp {
    pub core: ChampionCore,
    pub classes: Vec<String>,
    pub races: Vec<String>,
    pub artist: String,
    pub factions: Vec<Faction>,
    pub rune_set: String,
    pub starting_abilities: Vec<AbilityCore>,
    pub ability_sets: [AbilitySet; 2],
}

/// A spell, a piece of equipment or a relic of the feed.
#[derive(Debug)]
pub struct FeedRune<C> {
    pub core: C,
    pub artist: String,
    pub factions: Vec<Faction>,
    pub rune_set: String,
}

/// The whole feed.
#[derive(Debug)]
pub struct Feed {
    pub champs: Vec<FeedChamp>,
    pub spells: Vec<FeedRune<Spell>>,
    pub equips: Vec<FeedRune<Equip>>,
    pub relics: Vec<FeedRune<Relic>>,
}

impl TableItem for FeedChamp {
    open spec fn spec_id(&self) -> Id {
        self.core.raw.id
    }

    fn id(&self) -> (id: Id) {
        self.core.raw.id
    }
}

impl<C: TableItem> TableItem for FeedRune<C> {
    open spec fn spec_id(&self) -> Id {
        self.core.spec_id()
    }

    fn id(&self) -> (id: Id) {
        self.core.id()
    }
}

} // verus!
