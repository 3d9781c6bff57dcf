//! The entities of the catalog and the references between them.

use arrayvec::ArrayString;
use vstd::prelude::*;
use vstd::std_specs::convert::FromSpecImpl;

use crate::db::table::TableItem;
use crate::trusted::lists::{sides_held, sides_new, Sides};

pub mod ability;
pub mod champ;
pub mod effect;
pub mod enums;
pub mod group;
pub mod rune_set;
pub mod tags;

pub use ability::{Ability, AbilityCore};
pub use champ::{Champion, ChampionCore};
pub use effect::{Effect, EffectKind};
pub use enums::{Faction, Rarity, Size};
pub use group::{AbilityGroup, Group, Shim};
pub use rune_set::RuneSet;
pub use tags::{EntityId, Tags};

verus! {

/// Surrogate key of an entity, unique within the table that owns it.
pub type Id = u32;

/// What the feed tells of every rune, whatever its kind.
#[derive(Debug)]
pub struct RuneRaw {
    pub id: Id,
    pub name: String,
    pub description: String,
    pub rarity: Rarity,
    pub nora_cost: u16,
    pub for_sale: bool,
    pub tradeable: bool,
    pub allow_ranked: bool,
    pub hash: ArrayString<40>,
    pub deck_limit: u8,
}

/// A rune of the kind `C` with what belongs to it, each named by its `Id`.
/// A place that is not filled yet holds `u32::MAX`.
#[derive(Debug)]
pub struct Rune<C> {
    pub core: C,
    pub factions: Sides,
    pub expansion: Id,
    pub artist: Id,
}

impl<C> Rune<C> {
    /// The rune has no more factions than a rune can have.
    pub open spec fn wf(&self) -> bool {
        sides_held(self.factions).len() <= champ::MAX_FACTIONS
    }

    /// Whether `self` is a rune with the core `core` and nothing else yet.
    pub open spec fn is_bare(&self, core: C) -> bool {
        &&& self.core == core
        &&& sides_held(self.factions) == Seq::<Faction>::empty()
        &&& self.expansion == u32::MAX
        &&& self.artist == u32::MAX
    }
}

impl<C> From<C> for Rune<C> {
    fn from(core: C) -> (rune: Rune<C>)
        ensures
            rune.is_bare(core),
    {
        Rune { core, factions: sides_new(), expansion: u32::MAX, artist: u32::MAX }
    }
}

impl<C> FromSpecImpl<C> for Rune<C> {
    open spec fn obeys_from_spec() -> bool {
        false
    }

    open spec fn from_spec(core: C) -> Rune<C> {
        arbitrary()
    }
}

impl<C: TableItem> TableItem for Rune<C> {
    open spec fn spec_id(&self) -> Id {
        self.core.spec_id()
    }

    fn id(&self) -> (id: Id) {
        self.core.id()
    }
}

impl<'a> From<&'a Rune<Spell>> for EntityId {
    fn from(taggable: &'a Rune<Spell>) -> (eid: EntityId) {
        EntityId::Spell(taggable.id())
    }
}

impl<'a> FromSpecImpl<&'a Rune<Spell>> for EntityId {
    open spec fn obeys_from_spec() -> bool {
        true
    }

    open spec fn from_spec(taggable: &'a Rune<Spell>) -> EntityId {
        EntityId::Spell(taggable.core.raw.id)
    }
}

impl<'a> From<&'a Rune<Equip>> for EntityId {
    fn from(taggable: &'a Rune<Equip>) -> (eid: EntityId) {
        EntityId::Equip(taggable.id())
    }
}

impl<'a> FromSpecImpl<&'a Rune<Equip>> for EntityId {
    open spec fn obeys_from_spec() -> bool {
        true
    }

    open spec fn from_spec(taggable: &'a Rune<Equip>) -> EntityId {
        EntityId::Equip(taggable.core.raw.id)
    }
}

impl<'a> From<&'a Rune<Relic>> for EntityId {
    fn from(taggable: &'a Rune<Relic>) -> (eid: EntityId) {
        EntityId::Relic(taggable.id())
    }
}

impl<'a> FromSpecImpl<&'a Rune<Relic>> for EntityId {
    open spec fn obeys_from_spec() -> bool {
        true
    }

    open spec fn from_spec(taggable: &'a Rune<Relic>) -> EntityId {
        EntityId::Relic(taggable.core.raw.id)
    }
}

/// What the three kinds of runes besides champions have in common: what
/// the feed tells of every rune, and a kind of entity.
pub trait RuneKind: TableItem + Sized {
    /// What the feed tells of the rune, for contracts.
    spec fn spec_raw(&self) -> RuneRaw;

    /// The rune with the `Id` `id` as an entity, for contracts.
    spec fn entity(id: Id) -> EntityId;

    /// The `Id` of a rune is the one that the feed tells.
    proof fn lemma_id(&self)
        ensures
            self.spec_id() == self.spec_raw().id,
    ;

    /// What the feed tells of the rune.
    fn raw(&self) -> (raw: &RuneRaw)
        ensures
            *raw == self.spec_raw(),
    ;

    /// The rune with the `Id` `id` as an entity.
    fn entity_of(id: Id) -> (eid: EntityId)
        ensures
            eid == Self::entity(id),
    ;

    /// Whether `after` is `self` with the description `text` and nothing
    /// else changed.
    spec fn described(&self, text: Seq<char>, after: Self) -> bool;

    /// Gives the rune the description `text`.
    fn set_description(&mut self, text: String)
        ensures
            old(self).described(text@, *final(self)),
            final(self).spec_id() == old(self).spec_id(),
    ;
}

/// Whether `after` is `before` with the description `text` and nothing else
/// changed.
pub open spec fn raw_described(before: RuneRaw, text: Seq<char>, after: RuneRaw) -> bool {
    &&& after.description@ == text
    &&& after.id == before.id
    &&& after.name == before.name
    &&& after.rarity == before.rarity
    &&& after.nora_cost == before.nora_cost
    &&& after.for_sale == before.for_sale
    &&& after.tradeable == before.tradeable
    &&& after.allow_ranked == before.allow_ranked
    &&& after.hash == before.hash
    &&& after.deck_limit == before.deck_limit
}

/// A spell as the feed describes it.
#[derive(Debug)]
pub struct Spell {
    pub raw: RuneRaw,
    pub flavor_text: String,
    pub cooldown: u8,
}

impl TableItem for Spell {
    open spec fn spec_id(&self) -> Id {
        self.raw.id
    }

    fn id(&self) -> (id: Id) {
        self.raw.id
    }
}

impl RuneKind for Spell {
    open spec fn spec_raw(&self) -> RuneRaw {
        self.raw
    }

    open spec fn entity(id: Id) -> EntityId {
        EntityId::Spell(id)
    }

    proof fn lemma_id(&self) {
    }

    fn raw(&self) -> (raw: &RuneRaw) {
        &self.raw
    }

    fn entity_of(id: Id) -> (eid: EntityId) {
        EntityId::Spell(id)
    }

    open spec fn described(&self, text: Seq<char>, after: Self) -> bool {
        &&& raw_described(self.raw, text, after.raw)
        &&& after.flavor_text == self.flavor_text
        &&& after.cooldown == self.cooldown
    }

    fn set_description(&mut self, text: String) {
        self.raw.description = text;
    }
}

/// A piece of equipment as the feed describes it.
#[derive(Debug)]
pub struct Equip {
    pub raw: RuneRaw,
    pub flavor_text: String,
}

impl TableItem for Equip {
    open spec fn spec_id(&self) -> Id {
        self.raw.id
    }

    fn id(&self) -> (id: Id) {
        self.raw.id
    }
}

impl RuneKind for Equip {
    open spec fn spec_raw(&self) -> RuneRaw {
        self.raw
    }

    open spec fn entity(id: Id) -> EntityId {
        EntityId::Equip(id)
    }

    proof fn lemma_id(&self) {
    }

    fn raw(&self) -> (raw: &RuneRaw) {
        &self.raw
    }

    fn entity_of(id: Id) -> (eid: EntityId) {
        EntityId::Equip(id)
    }

    open spec fn described(&self, text: Seq<char>, after: Self) -> bool {
        &&& raw_described(self.raw, text, after.raw)
        &&& after.flavor_text == self.flavor_text
    }

    fn set_description(&mut self, text: String) {
        self.raw.description = text;
    }
}

/// A relic as the feed describes it.
#[derive(Debug)]
pub struct Relic {
    pub raw: RuneRaw,
    pub flavor_text: String,
    pub defense: u16,
    pub hit_points: u16,
    pub size: Size,
}

impl TableItem for Relic {
    open spec fn spec_id(&self) -> Id {
        self.raw.id
    }

    fn id(&self) -> (id: Id) {
        self.raw.id
    }
}

impl RuneKind for Relic {
    open spec fn spec_raw(&self) -> RuneRaw {
        self.raw
    }

    open spec fn entity(id: Id) -> EntityId {
        EntityId::Relic(id)
    }

    proof fn lemma_id(&self) {
    }

    fn raw(&self) -> (raw: &RuneRaw) {
        &self.raw
    }

    fn entity_of(id: Id) -> (eid: EntityId) {
        EntityId::Relic(id)
    }

    open spec fn described(&self, text: Seq<char>, after: Self) -> bool {
        &&& raw_described(self.raw, text, after.raw)
        &&& after.flavor_text == self.flavor_text
        &&& after.defense == self.defense
        &&& after.hit_points == self.hit_points
        &&& after.size == self.size
    }

    fn set_description(&mut self, text: String) {
        self.raw.description = text;
    }
}

} // verus!
