//! A snapshot from a feed, phase by phase: the damage types, the entries of
//! the feed in the order of their `Id`s, and the descriptions.

use vstd::prelude::*;
use vstd::string::StringExecFns;
use vstd::utf8::encode_utf8;

use vstd::multiset::Multiset;

use crate::db::autoindex::{AutoIndexItem, AutoIndexTable};
use crate::db::search::{entries_for, Posting, SearchIndex};
use crate::db::words::words_of;
use crate::db::DB;
use crate::parser::champion::{add_champion, champion_added, same_but, Area};
use crate::parser::rune::{add_rune, rune_added, shelved, Shelf};
use crate::parser::feed::{Feed, FeedChamp, FeedRune};
use crate::parser::fold::{
    chained, folded, lemma_chain_ends, lemma_chain_fails, lemma_chain_grows, lemma_chain_starts,
    BuildError,
};
use crate::parser::pass::{ability_step, rewrite_abilities, rewrite_runes, rune_step, slots};
use crate::trusted::sort::{by_id, sort_by_id};
use crate::trusted::word::word_bytes;
use crate::types::effect::lower_key;
use crate::types::tags::EntityId;
use crate::types::{
    AbilityGroup, Champion, Effect, EffectKind, Equip, Id, Relic, Rune, RuneKind, Spell,
};

verus! {

/// The ten damage types, each of which is an effect of every snapshot.
pub const DAMAGE_TYPES: [&'static str; 10] = [
    "Acid",
    "Disease",
    "Electricity",
    "Fire",
    "Frost",
    "Magical",
    "Physical",
    "Poison",
    "Psychic",
    "Sonic",
];

/// What is said of a damage type.
pub open spec fn damage_desc(name: Seq<char>) -> Seq<char> {
    name + " damage type."@
}

/// Whether `outcome` is what making the damage type `name` an effect makes
/// of `before`: the effect under the key of `name` in lower case, which is
/// made where it is new, has the name `name`, is described as a damage
/// type and is one. A name of more than fifteen bytes, or a table that is
/// full, ends the building.
#[verifier::opaque]
pub open spec fn damage_seeded(
    before: AutoIndexTable<Effect>,
    name: Seq<char>,
    outcome: Result<AutoIndexTable<Effect>, BuildError>,
) -> bool {
    if !Effect::accepts(name) || before.items().len() > u32::MAX {
        outcome == Err::<AutoIndexTable<Effect>, BuildError>(BuildError::CapacityViolation)
    } else {
        let key = lower_key(name);
        &&& outcome matches Ok(after)
        &&& after.lookup(key) matches Some(effect)
        &&& after.is_put(&before, key, effect)
        &&& effect.name@ == name
        &&& effect.desc@ == damage_desc(name)
        &&& effect.kind == EffectKind::Damage
        &&& match before.lookup(key) {
            Some(held) => effect.id == held.id && effect.key == held.key && effect.tags
                == held.tags,
            None => effect.id == before.items().len() as Id && word_bytes(effect.key)
                == encode_utf8(key) && effect.tags@ == Seq::<EntityId>::empty(),
        }
    }
}

/// Makes the damage type `name` an effect.
pub fn seed_damage(effects: &mut AutoIndexTable<Effect>, name: &str) -> (done: Result<
    (),
    BuildError,
>)
    requires
        old(effects).wf(),
    ensures
        final(effects).wf(),
        damage_seeded(
            *old(effects),
            name@,
            match done {
                Ok(_) => Ok(*final(effects)),
                Err(error) => Err(error),
            },
        ),
{
    proof {
        reveal(damage_seeded);
        effects.lemma_lookup(lower_key(name@));
    }
    if name.as_bytes().len() > 15 || effects.len() > u32::MAX as usize {
        return Err(BuildError::CapacityViolation);
    }
    let mut desc: String = name.to_owned();
    desc.append(" damage type.");
    let effect: &mut Effect = effects.entry(name);
    effect.name = name.to_owned();
    effect.desc = desc;
    effect.kind = EffectKind::Damage;
    Ok(())
}

/// Making one damage type an effect, as a step.
pub open spec fn seed_step() -> spec_fn(
    AutoIndexTable<Effect>,
    &'static str,
    Result<AutoIndexTable<Effect>, BuildError>,
) -> bool {
    |now: AutoIndexTable<Effect>, name: &'static str, then: Result<
        AutoIndexTable<Effect>,
        BuildError,
    >| damage_seeded(now, name@, then)
}

/// Makes every damage type an effect.
pub fn seed_damage_types(effects: &mut AutoIndexTable<Effect>) -> (done: Result<(), BuildError>)
    requires
        old(effects).wf(),
    ensures
        final(effects).wf(),
        folded(
            seed_step(),
            *old(effects),
            DAMAGE_TYPES@,
            match done {
                Ok(_) => Ok(*final(effects)),
                Err(error) => Err(error),
            },
        ),
{
    let ghost step = seed_step();
    let ghost start = *effects;
    let ghost mut states: Seq<Result<AutoIndexTable<Effect>, BuildError>> = seq![Ok(start)];
    proof {
        lemma_chain_starts(step, start, DAMAGE_TYPES@);
    }
    let mut k: usize = 0;
    while k < 10
        invariant
            k <= 10,
            DAMAGE_TYPES@.len() == 10,
            step == seed_step(),
            start == *old(effects),
            effects.wf(),
            states.len() == k + 1,
            chained(step, start, DAMAGE_TYPES@, states),
            states.last() == Ok::<AutoIndexTable<Effect>, BuildError>(*effects),
        decreases 10 - k,
    {
        let ghost now = *effects;
        let done = seed_damage(effects, DAMAGE_TYPES[k]);
        proof {
            let then: Result<AutoIndexTable<Effect>, BuildError> = match done {
                Ok(_) => Ok(*effects),
                Err(error) => Err(error),
            };
            lemma_chain_grows(step, start, DAMAGE_TYPES@, states, now, then);
            states = states.push(then);
        }
        if let Err(error) = done {
            proof {
                lemma_chain_fails(step, start, DAMAGE_TYPES@, states, error);
            }
            return Err(error);
        }
        k = k + 1;
    }
    proof {
        lemma_chain_ends(step, start, DAMAGE_TYPES@, states);
    }
    Ok(())
}

/// The entries of a feed in the order in which they are taken in.
pub struct Sorted {
    pub champs: Seq<FeedChamp>,
    pub spells: Seq<FeedRune<Spell>>,
    pub equips: Seq<FeedRune<Equip>>,
    pub relics: Seq<FeedRune<Relic>>,
}

/// Whether `sorted` holds the entries of `feed`, each kind in the order of
/// its `Id`s.
pub open spec fn is_sorting(feed: Feed, sorted: Sorted) -> bool {
    &&& sorted.champs.to_multiset() == feed.champs@.to_multiset()
    &&& sorted.spells.to_multiset() == feed.spells@.to_multiset()
    &&& sorted.equips.to_multiset() == feed.equips@.to_multiset()
    &&& sorted.relics.to_multiset() == feed.relics@.to_multiset()
    &&& by_id(sorted.champs)
    &&& by_id(sorted.spells)
    &&& by_id(sorted.equips)
    &&& by_id(sorted.relics)
}

/// The phases of a building, in order.
pub enum Phase {
    Damage,
    Champs,
    Spells,
    Equips,
    Relics,
    AbilityTexts,
    SpellTexts,
    EquipTexts,
    RelicTexts,
}

/// All the phases, in order.
pub open spec fn phases() -> Seq<Phase> {
    seq![
        Phase::Damage,
        Phase::Champs,
        Phase::Spells,
        Phase::Equips,
        Phase::Relics,
        Phase::AbilityTexts,
        Phase::SpellTexts,
        Phase::EquipTexts,
        Phase::RelicTexts,
    ]
}

/// Taking one champion in, as a step.
pub open spec fn champion_step() -> spec_fn(DB, FeedChamp, Result<DB, BuildError>) -> bool {
    |now: DB, entry: FeedChamp, then: Result<DB, BuildError>| champion_added(now, entry, then)
}

/// Taking one rune in, as a step.
pub open spec fn shelf_step<C: RuneKind>() -> spec_fn(
    Shelf<C>,
    FeedRune<C>,
    Result<Shelf<C>, BuildError>,
) -> bool {
    |now: Shelf<C>, entry: FeedRune<C>, then: Result<Shelf<C>, BuildError>|
        rune_added(now, entry, then)
}

/// The tables that taking a rune in may change, besides the table of the
/// runes themselves.
pub open spec fn rune_areas(own: Area) -> Set<Area> {
    set![own, Area::Factions, Area::Expansions, Area::Artists]
}

/// The tables that rewriting a description may change, besides the table
/// of what is described.
pub open spec fn text_areas(own: Area) -> Set<Area> {
    set![own, Area::Effects, Area::Abilities]
}

/// Whether `then` is what the phase `phase` makes of the catalog `now`,
/// with `sorted` for the entries of the feed.
#[verifier::opaque]
pub open spec fn phase_done(sorted: Sorted, now: DB, phase: Phase, then: Result<DB, BuildError>) -> bool {
    match phase {
        Phase::Damage => {
            &&& folded(
                seed_step(),
                now.effects,
                DAMAGE_TYPES@,
                match then {
                    Ok(next) => Ok(next.effects),
                    Err(error) => Err(error),
                },
            )
            &&& then matches Ok(next) ==> same_but(now, next, set![Area::Effects])
        },
        Phase::Champs => folded(champion_step(), now, sorted.champs, then),
        Phase::Spells => {
            &&& folded(
                shelf_step::<Spell>(),
                (now.spells, now.factions, now.expansions, now.artists),
                sorted.spells,
                match then {
                    Ok(next) => Ok((next.spells, next.factions, next.expansions, next.artists)),
                    Err(error) => Err(error),
                },
            )
            &&& then matches Ok(next) ==> same_but(now, next, rune_areas(Area::Spells))
        },
        Phase::Equips => {
            &&& folded(
                shelf_step::<Equip>(),
                (now.equips, now.factions, now.expansions, now.artists),
                sorted.equips,
                match then {
                    Ok(next) => Ok((next.equips, next.factions, next.expansions, next.artists)),
                    Err(error) => Err(error),
                },
            )
            &&& then matches Ok(next) ==> same_but(now, next, rune_areas(Area::Equips))
        },
        Phase::Relics => {
            &&& folded(
                shelf_step::<Relic>(),
                (now.relics, now.factions, now.expansions, now.artists),
                sorted.relics,
                match then {
                    Ok(next) => Ok((next.relics, next.factions, next.expansions, next.artists)),
                    Err(error) => Err(error),
                },
            )
            &&& then matches Ok(next) ==> same_but(now, next, rune_areas(Area::Relics))
        },
        Phase::AbilityTexts => {
            &&& then matches Ok(next)
            &&& folded(
                ability_step(),
                (now.abilities, now.effects, now.ability_groups),
                slots(now.abilities.items().len() as int),
                Ok((next.abilities, next.effects, next.ability_groups)),
            )
            &&& same_but(now, next, text_areas(Area::Abilities))
        },
        Phase::SpellTexts => {
            &&& then matches Ok(next)
            &&& folded(
                rune_step::<Spell>(now.abilities),
                (now.spells, now.effects, now.ability_groups),
                slots(now.spells.items().len() as int),
                Ok((next.spells, next.effects, next.ability_groups)),
            )
            &&& next.abilities == now.abilities
            &&& same_but(now, next, text_areas(Area::Spells))
        },
        Phase::EquipTexts => {
            &&& then matches Ok(next)
            &&& folded(
                rune_step::<Equip>(now.abilities),
                (now.equips, now.effects, now.ability_groups),
                slots(now.equips.items().len() as int),
                Ok((next.equips, next.effects, next.ability_groups)),
            )
            &&& next.abilities == now.abilities
            &&& same_but(now, next, text_areas(Area::Equips))
        },
        Phase::RelicTexts => {
            &&& then matches Ok(next)
            &&& folded(
                rune_step::<Relic>(now.abilities),
                (now.relics, now.effects, now.ability_groups),
                slots(now.relics.items().len() as int),
                Ok((next.relics, next.effects, next.ability_groups)),
            )
            &&& next.abilities == now.abilities
            &&& same_but(now, next, text_areas(Area::Relics))
        },
    }
}

/// The phases of a building, as steps.
pub open spec fn phase_step(sorted: Sorted) -> spec_fn(DB, Phase, Result<DB, BuildError>) -> bool {
    |now: DB, phase: Phase, then: Result<DB, BuildError>| phase_done(sorted, now, phase, then)
}

/// Whether `outcome` is what building a snapshot from `feed` comes to: a
/// fresh catalog is taken through the phases, with the entries of the feed
/// in the order of their `Id`s. A failure of a phase is the outcome;
/// nothing in a description makes a building fail.
#[verifier::opaque]
pub open spec fn built(feed: Feed, outcome: Result<DB, BuildError>) -> bool {
    exists|sorted: Sorted, start: DB| #[trigger]
        folded(phase_step(sorted), start, phases(), outcome) && is_sorting(feed, sorted)
            && start.is_fresh()
}

/// Takes the champions `champs` of the feed in, one after the other.
fn take_champs(db: &mut DB, champs: Vec<FeedChamp>) -> (done: Result<(), BuildError>)
    requires
        old(db).wf(),
    ensures
        final(db).wf(),
        folded(
            champion_step(),
            *old(db),
            champs@,
            match done {
                Ok(_) => Ok(*final(db)),
                Err(error) => Err(error),
            },
        ),
{
    let ghost step = champion_step();
    let ghost start = *db;
    let ghost mut states: Seq<Result<DB, BuildError>> = seq![Ok(start)];
    proof {
        lemma_chain_starts(step, start, champs@);
    }
    for entry in it: champs
        invariant
            it.seq() == champs@,
            step == champion_step(),
            start == *old(db),
            db.wf(),
            states.len() == it.index() + 1,
            chained(step, start, champs@, states),
            states.last() == Ok::<DB, BuildError>(*db),
    {
        let ghost now = *db;
        let done = add_champion(db, entry);
        proof {
            let then: Result<DB, BuildError> = match done {
                Ok(_) => Ok(*db),
                Err(error) => Err(error),
            };
            lemma_chain_grows(step, start, champs@, states, now, then);
            states = states.push(then);
        }
        if let Err(error) = done {
            proof {
                lemma_chain_fails(step, start, champs@, states, error);
            }
            return Err(error);
        }
    }
    proof {
        lemma_chain_ends(step, start, champs@, states);
    }
    Ok(())
}

/// Takes the runes `entries` of the feed in, one after the other.
fn take_runes<C: RuneKind>(
    runes: &mut crate::db::table::Table<crate::types::Rune<C>>,
    factions: &mut crate::db::enum_table::EnumTable<crate::types::Faction>,
    expansions: &mut AutoIndexTable<crate::types::RuneSet>,
    artists: &mut AutoIndexTable<crate::types::RuneSet>,
    entries: Vec<FeedRune<C>>,
) -> (done: Result<(), BuildError>)
    requires
        shelved(
            (*old(runes), *old(factions), *old(expansions), *old(artists)),
        ),
    ensures
        shelved(
            (*final(runes), *final(factions), *final(expansions), *final(artists)),
        ),
        folded(
            shelf_step::<C>(),
            (*old(runes), *old(factions), *old(expansions), *old(artists)),
            entries@,
            match done {
                Ok(_) => Ok((*final(runes), *final(factions), *final(expansions), *final(artists))),
                Err(error) => Err(error),
            },
        ),
{
    let ghost step = shelf_step::<C>();
    let ghost start: Shelf<C> = (*runes, *factions, *expansions, *artists);
    let ghost mut states: Seq<Result<Shelf<C>, BuildError>> = seq![Ok(start)];
    proof {
        lemma_chain_starts(step, start, entries@);
    }
    for entry in it: entries
        invariant
            it.seq() == entries@,
            step == shelf_step::<C>(),
            start == (*old(runes), *old(factions), *old(expansions), *old(artists)),
            shelved((*runes, *factions, *expansions, *artists)),
            states.len() == it.index() + 1,
            chained(step, start, entries@, states),
            states.last() == Ok::<Shelf<C>, BuildError>((*runes, *factions, *expansions, *artists)),
    {
        let ghost now: Shelf<C> = (*runes, *factions, *expansions, *artists);
        let done = add_rune(runes, factions, expansions, artists, entry);
        proof {
            let then: Result<Shelf<C>, BuildError> = match done {
                Ok(_) => Ok((*runes, *factions, *expansions, *artists)),
                Err(error) => Err(error),
            };
            lemma_chain_grows(step, start, entries@, states, now, then);
            states = states.push(then);
        }
        if let Err(error) = done {
            proof {
                lemma_chain_fails(step, start, entries@, states, error);
            }
            return Err(error);
        }
    }
    proof {
        lemma_chain_ends(step, start, entries@, states);
    }
    Ok(())
}

/// The damage types become effects.
fn phase_damage(db: &mut DB, Ghost(sorted): Ghost<Sorted>) -> (done: Result<(), BuildError>)
    requires
        old(db).wf(),
    ensures
        final(db).wf(),
        phase_done(
            sorted,
            *old(db),
            Phase::Damage,
            match done {
                Ok(_) => Ok(*final(db)),
                Err(error) => Err(error),
            },
        ),
{
    proof {
        reveal(phase_done);
    }
    seed_damage_types(&mut db.effects)
}

/// The champions are taken in.
fn phase_champs(db: &mut DB, champs: Vec<FeedChamp>, Ghost(sorted): Ghost<Sorted>) -> (done: Result<(), BuildError>)
    requires
        old(db).wf(),
        champs@ == sorted.champs,
    ensures
        final(db).wf(),
        phase_done(
            sorted,
            *old(db),
            Phase::Champs,
            match done {
                Ok(_) => Ok(*final(db)),
                Err(error) => Err(error),
            },
        ),
{
    proof {
        reveal(phase_done);
    }
    take_champs(db, champs)
}

/// The spells are taken in.
fn phase_spells(db: &mut DB, entries: Vec<FeedRune<Spell>>, Ghost(sorted): Ghost<Sorted>) -> (done: Result<(), BuildError>)
    requires
        old(db).wf(),
        entries@ == sorted.spells,
    ensures
        final(db).wf(),
        phase_done(
            sorted,
            *old(db),
            Phase::Spells,
            match done {
                Ok(_) => Ok(*final(db)),
                Err(error) => Err(error),
            },
        ),
{
    proof {
        reveal(phase_done);
    }
    take_runes(&mut db.spells, &mut db.factions, &mut db.expansions, &mut db.artists, entries)
}

/// The equips are taken in.
fn phase_equips(db: &mut DB, entries: Vec<FeedRune<Equip>>, Ghost(sorted): Ghost<Sorted>) -> (done: Result<(), BuildError>)
    requires
        old(db).wf(),
        entries@ == sorted.equips,
    ensures
        final(db).wf(),
        phase_done(
            sorted,
            *old(db),
            Phase::Equips,
            match done {
                Ok(_) => Ok(*final(db)),
                Err(error) => Err(error),
            },
        ),
{
    proof {
        reveal(phase_done);
    }
    take_runes(&mut db.equips, &mut db.factions, &mut db.expansions, &mut db.artists, entries)
}

/// The relics are taken in.
fn phase_relics(db: &mut DB, entries: Vec<FeedRune<Relic>>, Ghost(sorted): Ghost<Sorted>) -> (done: Result<(), BuildError>)
    requires
        old(db).wf(),
        entries@ == sorted.relics,
    ensures
        final(db).wf(),
        phase_done(
            sorted,
            *old(db),
            Phase::Relics,
            match done {
                Ok(_) => Ok(*final(db)),
                Err(error) => Err(error),
            },
        ),
{
    proof {
        reveal(phase_done);
    }
    take_runes(&mut db.relics, &mut db.factions, &mut db.expansions, &mut db.artists, entries)
}

/// The descriptions of the abilities are rewritten.
fn phase_ability_texts(db: &mut DB, Ghost(sorted): Ghost<Sorted>) -> (done: Result<(), BuildError>)
    requires
        old(db).wf(),
    ensures
        final(db).wf(),
        phase_done(
            sorted,
            *old(db),
            Phase::AbilityTexts,
            match done {
                Ok(_) => Ok(*final(db)),
                Err(error) => Err(error),
            },
        ),
{
    proof {
        reveal(phase_done);
    }
    rewrite_abilities(&mut db.abilities, &mut db.effects, &mut db.ability_groups);
    Ok(())
}

/// The descriptions of the spells are rewritten.
fn phase_spell_texts(db: &mut DB, Ghost(sorted): Ghost<Sorted>) -> (done: Result<(), BuildError>)
    requires
        old(db).wf(),
    ensures
        final(db).wf(),
        phase_done(
            sorted,
            *old(db),
            Phase::SpellTexts,
            match done {
                Ok(_) => Ok(*final(db)),
                Err(error) => Err(error),
            },
        ),
{
    proof {
        reveal(phase_done);
    }
    rewrite_runes(&mut db.spells, &db.abilities, &mut db.effects, &mut db.ability_groups);
    Ok(())
}

/// The descriptions of the equips are rewritten.
fn phase_equip_texts(db: &mut DB, Ghost(sorted): Ghost<Sorted>) -> (done: Result<(), BuildError>)
    requires
        old(db).wf(),
    ensures
        final(db).wf(),
        phase_done(
            sorted,
            *old(db),
            Phase::EquipTexts,
            match done {
                Ok(_) => Ok(*final(db)),
                Err(error) => Err(error),
            },
        ),
{
    proof {
        reveal(phase_done);
    }
    rewrite_runes(&mut db.equips, &db.abilities, &mut db.effects, &mut db.ability_groups);
    Ok(())
}

/// The descriptions of the relics are rewritten.
fn phase_relic_texts(db: &mut DB, Ghost(sorted): Ghost<Sorted>) -> (done: Result<(), BuildError>)
    requires
        old(db).wf(),
    ensures
        final(db).wf(),
        phase_done(
            sorted,
            *old(db),
            Phase::RelicTexts,
            match done {
                Ok(_) => Ok(*final(db)),
                Err(error) => Err(error),
            },
        ),
{
    proof {
        reveal(phase_done);
    }
    rewrite_runes(&mut db.relics, &db.abilities, &mut db.effects, &mut db.ability_groups);
    Ok(())
}

/// Phases that lead from a fresh catalog to `outcome`, with the entries of
/// the feed in order, are a building.
proof fn lemma_built(feed: Feed, sorted: Sorted, start: DB, outcome: Result<DB, BuildError>)
    requires
        folded(phase_step(sorted), start, phases(), outcome),
        is_sorting(feed, sorted),
        start.is_fresh(),
    ensures
        built(feed, outcome),
{
    reveal(built);
}

/// Builds a snapshot from `feed`.
pub fn build(feed: Feed) -> (outcome: Result<DB, BuildError>)
    ensures
        built(feed, outcome),
        outcome matches Ok(db) ==> db.wf(),
{
    let Feed { champs, spells, equips, relics } = feed;
    let mut champs = champs;
    let mut spells = spells;
    let mut equips = equips;
    let mut relics = relics;
    sort_by_id(&mut champs);
    sort_by_id(&mut spells);
    sort_by_id(&mut equips);
    sort_by_id(&mut relics);
    let ghost sorted = Sorted {
        champs: champs@,
        spells: spells@,
        equips: equips@,
        relics: relics@,
    };
    let mut db: DB = DB::default();
    let ghost step = phase_step(sorted);
    let ghost start = db;
    let ghost mut states: Seq<Result<DB, BuildError>> = seq![Ok(start)];
    let ghost mut now = start;
    proof {
        lemma_chain_starts(step, start, phases());
    }

    let done = phase_damage(&mut db, Ghost(sorted));
    proof {
        let then: Result<DB, BuildError> = match done {
            Ok(_) => Ok(db),
            Err(error) => Err(error),
        };
        lemma_chain_grows(step, start, phases(), states, now, then);
        states = states.push(then);
        now = db;
    }
    if let Err(error) = done {
        proof {
            lemma_chain_fails(step, start, phases(), states, error);
            lemma_built(feed, sorted, start, Err(error));
        }
        return Err(error);
    }

    let done = phase_champs(&mut db, champs, Ghost(sorted));
    proof {
        let then: Result<DB, BuildError> = match done {
            Ok(_) => Ok(db),
            Err(error) => Err(error),
        };
        lemma_chain_grows(step, start, phases(), states, now, then);
        states = states.push(then);
        now = db;
    }
    if let Err(error) = done {
        proof {
            lemma_chain_fails(step, start, phases(), states, error);
            lemma_built(feed, sorted, start, Err(error));
        }
        return Err(error);
    }

    let done = phase_spells(&mut db, spells, Ghost(sorted));
    proof {
        let then: Result<DB, BuildError> = match done {
            Ok(_) => Ok(db),
            Err(error) => Err(error),
        };
        lemma_chain_grows(step, start, phases(), states, now, then);
        states = states.push(then);
        now = db;
    }
    if let Err(error) = done {
        proof {
            lemma_chain_fails(step, start, phases(), states, error);
            lemma_built(feed, sorted, start, Err(error));
        }
        return Err(error);
    }

    let done = phase_equips(&mut db, equips, Ghost(sorted));
    proof {
        let then: Result<DB, BuildError> = match done {
            Ok(_) => Ok(db),
            Err(error) => Err(error),
        };
        lemma_chain_grows(step, start, phases(), states, now, then);
        states = states.push(then);
        now = db;
    }
    if let Err(error) = done {
        proof {
            lemma_chain_fails(step, start, phases(), states, error);
            lemma_built(feed, sorted, start, Err(error));
        }
        return Err(error);
    }

    let done = phase_relics(&mut db, relics, Ghost(sorted));
    proof {
        let then: Result<DB, BuildError> = match done {
            Ok(_) => Ok(db),
            Err(error) => Err(error),
        };
        lemma_chain_grows(step, start, phases(), states, now, then);
        states = states.push(then);
        now = db;
    }
    if let Err(error) = done {
        proof {
            lemma_chain_fails(step, start, phases(), states, error);
            lemma_built(feed, sorted, start, Err(error));
        }
        return Err(error);
    }

    let done = phase_ability_texts(&mut db, Ghost(sorted));
    proof {
        let then: Result<DB, BuildError> = match done {
            Ok(_) => Ok(db),
            Err(error) => Err(error),
        };
        lemma_chain_grows(step, start, phases(), states, now, then);
        states = states.push(then);
        now = db;
    }
    if let Err(error) = done {
        proof {
            lemma_chain_fails(step, start, phases(), states, error);
            lemma_built(feed, sorted, start, Err(error));
        }
        return Err(error);
    }

    let done = phase_spell_texts(&mut db, Ghost(sorted));
    proof {
        let then: Result<DB, BuildError> = match done {
            Ok(_) => Ok(db),
            Err(error) => Err(error),
        };
        lemma_chain_grows(step, start, phases(), states, now, then);
        states = states.push(then);
        now = db;
    }
    if let Err(error) = done {
        proof {
            lemma_chain_fails(step, start, phases(), states, error);
            lemma_built(feed, sorted, start, Err(error));
        }
        return Err(error);
    }

    let done = phase_equip_texts(&mut db, Ghost(sorted));
    proof {
        let then: Result<DB, BuildError> = match done {
            Ok(_) => Ok(db),
            Err(error) => Err(error),
        };
        lemma_chain_grows(step, start, phases(), states, now, then);
        states = states.push(then);
        now = db;
    }
    if let Err(error) = done {
        proof {
            lemma_chain_fails(step, start, phases(), states, error);
            lemma_built(feed, sorted, start, Err(error));
        }
        return Err(error);
    }

    let done = phase_relic_texts(&mut db, Ghost(sorted));
    proof {
        let then: Result<DB, BuildError> = match done {
            Ok(_) => Ok(db),
            Err(error) => Err(error),
        };
        lemma_chain_grows(step, start, phases(), states, now, then);
        states = states.push(then);
        now = db;
    }
    if let Err(error) = done {
        proof {
            lemma_chain_fails(step, start, phases(), states, error);
            lemma_built(feed, sorted, start, Err(error));
        }
        return Err(error);
    }

    proof {
        lemma_chain_ends(step, start, phases(), states);
        lemma_built(feed, sorted, start, Ok(db));
    }
    Ok(db)
}

/// What is found by its name: an entity with a name.
pub trait Named {
    /// The name, for contracts.
    spec fn label(&self) -> Seq<char>;

    /// The entity, for contracts.
    spec fn entity(&self) -> EntityId;

    /// The name.
    fn name(&self) -> (name: &str)
        ensures
            name@ == self.label(),
    ;

    /// The entity.
    fn eid(&self) -> (eid: EntityId)
        ensures
            eid == self.entity(),
    ;
}

impl Named for Champion {
    open spec fn label(&self) -> Seq<char> {
        self.core.raw.name@
    }

    open spec fn entity(&self) -> EntityId {
        EntityId::Champion(self.core.raw.id)
    }

    fn name(&self) -> (name: &str) {
        self.core.raw.name.as_str()
    }

    fn eid(&self) -> (eid: EntityId) {
        EntityId::Champion(self.core.raw.id)
    }
}

impl<C: RuneKind> Named for Rune<C> {
    open spec fn label(&self) -> Seq<char> {
        self.core.spec_raw().name@
    }

    open spec fn entity(&self) -> EntityId {
        C::entity(self.core.spec_raw().id)
    }

    fn name(&self) -> (name: &str) {
        self.core.raw().name.as_str()
    }

    fn eid(&self) -> (eid: EntityId) {
        C::entity_of(self.core.raw().id)
    }
}

impl Named for AbilityGroup {
    open spec fn label(&self) -> Seq<char> {
        self.name@
    }

    open spec fn entity(&self) -> EntityId {
        EntityId::AbilityGroup(self.id)
    }

    fn name(&self) -> (name: &str) {
        self.name.as_str()
    }

    fn eid(&self) -> (eid: EntityId) {
        EntityId::AbilityGroup(self.id)
    }
}

impl Named for Effect {
    open spec fn label(&self) -> Seq<char> {
        self.name@
    }

    open spec fn entity(&self) -> EntityId {
        EntityId::Effect(self.id)
    }

    fn name(&self) -> (name: &str) {
        self.name.as_str()
    }

    fn eid(&self) -> (eid: EntityId) {
        EntityId::Effect(self.id)
    }
}

/// The postings `held` and those of the names of the first `upto` of
/// `items`: one for each word of each name.
pub open spec fn indexed<T: Named>(held: Multiset<Posting>, items: Seq<T>, upto: int) -> Multiset<
    Posting,
>
    decreases upto,
{
    if upto <= 0 {
        held
    } else {
        indexed(held, items, upto - 1).add(
            entries_for(
                words_of(encode_utf8(items[upto - 1].label())),
                items[upto - 1].entity(),
            ).to_multiset(),
        )
    }
}

/// The postings `held` and those of the names of all of `items`.
pub open spec fn with_names<T: Named>(held: Multiset<Posting>, items: Seq<T>) -> Multiset<Posting> {
    indexed(held, items, items.len() as int)
}

/// Takes the names of `items` into the index.
pub fn index_names<T: Named>(search: &mut SearchIndex, items: &[T])
    ensures
        final(search)@.to_multiset() == with_names(old(search)@.to_multiset(), items@),
{
    let ghost held = search@.to_multiset();
    let mut k: usize = 0;
    while k < items.len()
        invariant
            k <= items@.len(),
            held == old(search)@.to_multiset(),
            search@.to_multiset() == indexed(held, items@, k as int),
        decreases items@.len() - k,
    {
        let item: &T = &items[k];
        search.insert(item.name(), item.eid());
        k = k + 1;
    }
}

/// The postings that `held` grows to when the names of every entity of
/// `db` are taken in: champions, spells, equipment, relics, groups of
/// abilities and effects, in this order.
pub open spec fn all_names(held: Multiset<Posting>, db: DB) -> Multiset<Posting> {
    with_names(
        with_names(
            with_names(
                with_names(
                    with_names(with_names(held, db.champs.items()), db.spells.items()),
                    db.equips.items(),
                ),
                db.relics.items(),
            ),
            db.ability_groups.items(),
        ),
        db.effects.items(),
    )
}

/// Takes the names of every entity of `db` into its index. No table is
/// touched.
pub fn create_search_index(db: &mut DB)
    ensures
        same_but(*old(db), *final(db), set![Area::Search]),
        final(db).search@.to_multiset() == all_names(old(db).search@.to_multiset(), *old(db)),
{
    index_names(&mut db.search, db.champs.as_slice());
    index_names(&mut db.search, db.spells.as_slice());
    index_names(&mut db.search, db.equips.as_slice());
    index_names(&mut db.search, db.relics.as_slice());
    index_names(&mut db.search, db.ability_groups.as_slice());
    index_names(&mut db.search, db.effects.as_slice());
}

} // verus!
