//! The small closed vocabularies of the catalog.

use vstd::prelude::*;
use vstd::std_specs::convert::FromSpecImpl;

use crate::db::enum_table::EnumId;
use crate::db::table::TableItem;
use crate::types::Id;

verus! {

/// The footprint of a unit on the board.
#[derive(Debug, Clone, Copy, PartialEq, Eq, Structural)]
pub enum Size {
    OneByOne,
    TwoByTwo,
}

/// How rare a rune is.
#[derive(Debug, Clone, Copy, PartialEq, Eq, Structural)]
pub enum Rarity {
    Common,
    Uncommon,
    Rare,
    Exotic,
    Limited,
    Legendary,
}

/// The eight factions, in the order of their `Id`s.
#[derive(Debug, Clone, Copy, PartialEq, Eq, Structural)]
pub enum Faction {
    SavageTundra,
    IronfistStronghold,
    KthirForest,
    ForglarSwamp,
    ShatteredPeaks,
    SunderedLands,
    Underdepths,
    ForsakenWastes,
}

impl Faction {
    /// The `Id` of each faction: its place among the eight.
    pub open spec fn index(self) -> Id {
        match self {
            Faction::SavageTundra => 0,
            Faction::IronfistStronghold => 1,
            Faction::KthirForest => 2,
            Faction::ForglarSwamp => 3,
            Faction::ShatteredPeaks => 4,
            Faction::SunderedLands => 5,
            Faction::Underdepths => 6,
            Faction::ForsakenWastes => 7,
        }
    }
}

impl TableItem for Faction {
    open spec fn spec_id(&self) -> Id {
        self.index()
    }

    fn id(&self) -> (id: Id) {
        match self {
            Faction::SavageTundra => 0,
            Faction::IronfistStronghold => 1,
            Faction::KthirForest => 2,
            Faction::ForglarSwamp => 3,
            Faction::ShatteredPeaks => 4,
            Faction::SunderedLands => 5,
            Faction::Underdepths => 6,
            Faction::ForsakenWastes => 7,
        }
    }
}

impl EnumId for Faction {
    open spec fn size() -> nat {
        8
    }

    proof fn lemma_closed(value: Self) {
    }

    fn from_id(id: Id) -> (value: Option<Faction>) {
        match id {
            0 => Some(Faction::SavageTundra),
            1 => Some(Faction::IronfistStronghold),
            2 => Some(Faction::KthirForest),
            3 => Some(Faction::ForglarSwamp),
            4 => Some(Faction::ShatteredPeaks),
            5 => Some(Faction::SunderedLands),
            6 => Some(Faction::Underdepths),
            7 => Some(Faction::ForsakenWastes),
            _ => None,
        }
    }
}

impl From<Faction> for Id {
    fn from(faction: Faction) -> (id: Id) {
        faction.id()
    }
}

impl FromSpecImpl<Faction> for Id {
    open spec fn obeys_from_spec() -> bool {
        true
    }

    open spec fn from_spec(faction: Faction) -> Id {
        faction.index()
    }
}

} // verus!
