//! What a snapshot answers: suggestions for a query, and the pages of its
//! entities with what belongs to them.

use vstd::prelude::*;
use vstd::string::StringSliceAdditionalSpecFns;

use crate::db::autoindex::AutoIndexTable;
use crate::db::search::{is_ranking, SearchId, Searchable};
use crate::db::words::query_words;
use crate::db::table::Table;
use crate::db::DB;
use crate::error::NotFound;
use crate::trusted::lists::{group_slice, set_slice, starting_slice};
use crate::trusted::word::word_bytes;
use crate::types::{
    Ability, AbilityGroup, Champion, Effect, EffectKind, EntityId, Group, Id, Rarity, Rune,
    RuneSet, Shim,
};

verus! {

/// One line of the answer to a query: the name of an entity, what names it
/// in a link, and how rare it is where it is a rune.
#[derive(Debug, Clone, Copy)]
pub struct Suggestion<'a> {
    pub name: &'a str,
    pub sid: SearchId<'a>,
    pub rarity: Option<Rarity>,
}

/// Whether `line` is the suggestion for `eid` from `db`.
pub open spec fn suggests(db: DB, eid: EntityId, line: Suggestion<'_>) -> bool {
    match eid {
        EntityId::Champion(id) => {
            &&& db.champs.lookup(id) matches Some(rune)
            &&& line.name@ == rune.core.raw.name@
            &&& line.sid matches SearchId::Champion(named) && named == id
            &&& line.rarity == Some(rune.core.raw.rarity)
        },
        EntityId::Spell(id) => {
            &&& db.spells.lookup(id) matches Some(rune)
            &&& line.name@ == rune.core.raw.name@
            &&& line.sid matches SearchId::Spell(named) && named == id
            &&& line.rarity == Some(rune.core.raw.rarity)
        },
        EntityId::Equip(id) => {
            &&& db.equips.lookup(id) matches Some(rune)
            &&& line.name@ == rune.core.raw.name@
            &&& line.sid matches SearchId::Equip(named) && named == id
            &&& line.rarity == Some(rune.core.raw.rarity)
        },
        EntityId::Relic(id) => {
            &&& db.relics.lookup(id) matches Some(rune)
            &&& line.name@ == rune.core.raw.name@
            &&& line.sid matches SearchId::Relic(named) && named == id
            &&& line.rarity == Some(rune.core.raw.rarity)
        },
        EntityId::AbilityGroup(id) => {
            &&& id < db.ability_groups.items().len()
            &&& line.name@ == db.ability_groups.items()[id as int].name@
            &&& line.sid matches SearchId::AbilityGroup(named) && named == id
            &&& line.rarity is None
        },
        EntityId::Effect(id) => {
            &&& id < db.effects.items().len()
            &&& line.name@ == db.effects.items()[id as int].name@
            &&& line.rarity is None
            &&& effect_named(db.effects.items()[id as int], line.sid)
        },
    }
}

/// Whether `sid` names `effect`: by its key, as what its kind says.
pub open spec fn effect_named(effect: Effect, sid: SearchId<'_>) -> bool {
    match effect.kind {
        EffectKind::Condition => sid matches SearchId::Condition(key) && key.spec_bytes()
            == word_bytes(effect.key),
        EffectKind::Damage => sid matches SearchId::Damage(key) && key.spec_bytes() == word_bytes(
            effect.key,
        ),
        EffectKind::Other => sid matches SearchId::Effect(key) && key.spec_bytes() == word_bytes(
            effect.key,
        ),
    }
}

/// Whether `db` holds the entity `eid`.
pub open spec fn holds(db: DB, eid: EntityId) -> bool {
    match eid {
        EntityId::Champion(id) => db.champs.lookup(id) is Some,
        EntityId::Spell(id) => db.spells.lookup(id) is Some,
        EntityId::Equip(id) => db.equips.lookup(id) is Some,
        EntityId::Relic(id) => db.relics.lookup(id) is Some,
        EntityId::AbilityGroup(id) => id < db.ability_groups.items().len(),
        EntityId::Effect(id) => id < db.effects.items().len(),
    }
}

/// The suggestion for `eid`; `None` where the snapshot does not hold it.
pub fn suggestion<'a>(db: &'a DB, eid: EntityId) -> (line: Option<Suggestion<'a>>)
    ensures
        match line {
            Some(made) => suggests(*db, eid, made),
            None => !holds(*db, eid),
        },
{
    match eid {
        EntityId::Champion(id) => match db.champs.get(id) {
            Some(rune) => Some(
                Suggestion {
                    name: rune.core.raw.name.as_str(),
                    sid: SearchId::Champion(id),
                    rarity: Some(rune.core.raw.rarity),
                },
            ),
            None => None,
        },
        EntityId::Spell(id) => match db.spells.get(id) {
            Some(rune) => Some(
                Suggestion {
                    name: rune.core.raw.name.as_str(),
                    sid: SearchId::Spell(id),
                    rarity: Some(rune.core.raw.rarity),
                },
            ),
            None => None,
        },
        EntityId::Equip(id) => match db.equips.get(id) {
            Some(rune) => Some(
                Suggestion {
                    name: rune.core.raw.name.as_str(),
                    sid: SearchId::Equip(id),
                    rarity: Some(rune.core.raw.rarity),
                },
            ),
            None => None,
        },
        EntityId::Relic(id) => match db.relics.get(id) {
            Some(rune) => Some(
                Suggestion {
                    name: rune.core.raw.name.as_str(),
                    sid: SearchId::Relic(id),
                    rarity: Some(rune.core.raw.rarity),
                },
            ),
            None => None,
        },
        EntityId::AbilityGroup(id) => match db.ability_groups.get(id) {
            Some(group) => Some(
                Suggestion { name: group.name.as_str(), sid: SearchId::AbilityGroup(id), rarity: None },
            ),
            None => None,
        },
        EntityId::Effect(id) => match db.effects.get(id) {
            Some(effect) => Some(
                Suggestion { name: effect.name.as_str(), sid: effect.search_id(), rarity: None },
            ),
            None => None,
        },
    }
}

/// How many suggestions an answer holds at most.
pub const MAX_SUGGESTIONS: usize = 10;

/// Whether `lines` are the suggestions for the first `upto` of `ranked`,
/// in their order, those left out that the snapshot does not hold.
pub open spec fn suggested(
    db: DB,
    ranked: Seq<(EntityId, i32)>,
    upto: int,
    lines: Seq<Suggestion<'_>>,
) -> bool
    decreases upto,
{
    if upto <= 0 {
        lines.len() == 0
    } else if holds(db, ranked[upto - 1].0) {
        &&& lines.len() > 0
        &&& suggests(db, ranked[upto - 1].0, lines.last())
        &&& suggested(db, ranked, upto - 1, lines.drop_last())
    } else {
        suggested(db, ranked, upto - 1, lines)
    }
}

/// The suggestions for the first ten of `ranked`.
pub fn suggestions<'a>(db: &'a DB, ranked: &Vec<(EntityId, i32)>) -> (lines: Vec<Suggestion<'a>>)
    ensures
        suggested(
            *db,
            ranked@,
            if ranked@.len() < MAX_SUGGESTIONS {
                ranked@.len() as int
            } else {
                MAX_SUGGESTIONS as int
            },
            lines@,
        ),
{
    let n: usize = if ranked.len() < MAX_SUGGESTIONS {
        ranked.len()
    } else {
        MAX_SUGGESTIONS
    };
    let mut lines: Vec<Suggestion<'a>> = Vec::new();
    let mut k: usize = 0;
    while k < n
        invariant
            k <= n <= ranked@.len(),
            suggested(*db, ranked@, k as int, lines@),
        decreases n - k,
    {
        match suggestion(db, ranked[k].0) {
            Some(line) => {
                proof {
                    assert(lines@.push(line).drop_last() =~= lines@);
                }
                lines.push(line);
            },
            None => {},
        }
        k = k + 1;
    }
    lines
}

/// The answer to `query`: the suggestions for the ten entities that it
/// finds best.
pub fn typeahead<'a>(db: &'a DB, query: &str) -> (lines: Vec<Suggestion<'a>>)
    ensures
        exists|ranked: Seq<(EntityId, i32)>| #[trigger]
            is_ranking(db.search@, query_words(query.spec_bytes()), ranked) && suggested(
                *db,
                ranked,
                if ranked.len() < MAX_SUGGESTIONS {
                    ranked.len() as int
                } else {
                    MAX_SUGGESTIONS as int
                },
                lines@,
            ),
{
    let ranked: Vec<(EntityId, i32)> = db.search.find(query);
    let lines = suggestions(db, &ranked);
    assert(is_ranking(db.search@, query_words(query.spec_bytes()), ranked@));
    lines
}

/// Whether `found` are the abilities with the `Id`s `ids`, in their order.
pub open spec fn are_abilities(abilities: Table<Ability>, ids: Seq<Id>, found: Seq<&Ability>) -> bool {
    &&& found.len() == ids.len()
    &&& forall|i: int| 0 <= i < ids.len() ==> abilities.lookup(#[trigger] ids[i]) == Some(*found[i])
}

/// Whether the table holds an ability for every one of `ids`.
pub open spec fn all_abilities(abilities: Table<Ability>, ids: Seq<Id>) -> bool {
    forall|i: int| 0 <= i < ids.len() ==> abilities.lookup(#[trigger] ids[i]) is Some
}

/// Adds the abilities with the `Id`s `ids` to `found`.
pub fn find_abilities<'a>(
    abilities: &'a Table<Ability>,
    ids: &[Id],
    found: &mut Vec<&'a Ability>,
) -> (done: Result<(), NotFound>)
    ensures
        match done {
            Ok(_) => all_abilities(*abilities, ids@) && exists|more: Seq<&Ability>|
                #![auto]
                are_abilities(*abilities, ids@, more) && final(found)@ == old(found)@ + more,
            Err(_) => !all_abilities(*abilities, ids@),
        },
{
    let ghost before = found@;
    let ghost mut more: Seq<&Ability> = Seq::empty();
    let mut k: usize = 0;
    while k < ids.len()
        invariant
            k <= ids@.len(),
            before == old(found)@,
            found@ == before + more,
            are_abilities(*abilities, ids@.take(k as int), more),
        decreases ids@.len() - k,
    {
        match abilities.get(ids[k]) {
            Some(ability) => {
                found.push(ability);
                proof {
                    let longer = more.push(ability);
                    assert(found@ =~= before + longer);
                    assert forall|i: int| 0 <= i < k + 1 implies abilities.lookup(
                        #[trigger] ids@.take(k + 1)[i],
                    ) == Some(*longer[i]) by {
                        if i < k {
                            assert(ids@.take(k as int)[i] == ids@[i]);
                        }
                    }
                    more = longer;
                }
            },
            None => {
                proof {
                    assert(abilities.lookup(ids@[k as int]) is None);
                }
                return Err(NotFound);
            },
        }
        k = k + 1;
    }
    proof {
        assert(ids@.take(k as int) =~= ids@);
    }
    Ok(())
}

/// Whether `found` are the `Id`s and names of the groups with the `Id`s
/// `ids`, in their order.
pub open spec fn are_shims(
    groups: AutoIndexTable<Group<Champion>>,
    ids: Seq<Id>,
    found: Seq<Shim<'_>>,
) -> bool {
    &&& found.len() == ids.len()
    &&& forall|i: int|
        0 <= i < ids.len() ==> {
            &&& (#[trigger] ids[i]) < groups.items().len()
            &&& found[i].id == groups.items()[ids[i] as int].id
            &&& found[i].name@ == groups.items()[ids[i] as int].name@
        }
}

/// Whether the table holds a group for every one of `ids`.
pub open spec fn all_groups(groups: AutoIndexTable<Group<Champion>>, ids: Seq<Id>) -> bool {
    forall|i: int| 0 <= i < ids.len() ==> (#[trigger] ids[i]) < groups.items().len()
}

/// The `Id`s and names of the groups with the `Id`s `ids`.
pub fn find_groups<'a>(groups: &'a AutoIndexTable<Group<Champion>>, ids: &[Id]) -> (found: Result<
    Vec<Shim<'a>>,
    NotFound,
>)
    ensures
        match found {
            Ok(shims) => are_shims(*groups, ids@, shims@),
            Err(_) => !all_groups(*groups, ids@),
        },
{
    let mut shims: Vec<Shim<'a>> = Vec::new();
    let mut k: usize = 0;
    while k < ids.len()
        invariant
            k <= ids@.len(),
            are_shims(*groups, ids@.take(k as int), shims@),
        decreases ids@.len() - k,
    {
        match groups.get(ids[k]) {
            Some(group) => {
                let ghost before = shims@;
                shims.push(group.shim());
                proof {
                    assert forall|i: int| 0 <= i < k + 1 implies {
                        &&& (#[trigger] ids@.take(k + 1)[i]) < groups.items().len()
                        &&& shims@[i].id == groups.items()[ids@.take(k + 1)[i] as int].id
                        &&& shims@[i].name@ == groups.items()[ids@.take(k + 1)[i] as int].name@
                    } by {
                        if i < k {
                            assert(ids@.take(k as int)[i] == ids@[i]);
                            assert(shims@[i] == before[i]);
                        }
                    }
                }
            },
            None => {
                proof {
                    assert(ids@[k as int] >= groups.items().len());
                }
                return Err(NotFound);
            },
        }
        k = k + 1;
    }
    proof {
        assert(ids@.take(k as int) =~= ids@);
    }
    Ok(shims)
}

/// A champion with what belongs to it.
#[derive(Debug)]
pub struct ChampionPage<'a> {
    pub champion: &'a Champion,
    pub abilities: Vec<&'a Ability>,
    pub classes: Vec<Shim<'a>>,
    pub races: Vec<Shim<'a>>,
    pub artist: Shim<'a>,
}

/// The `Id`s of all abilities of a champion: the ones it starts with, then
/// its two sets.
pub open spec fn ability_ids(champion: Champion) -> Seq<Id> {
    champion.links().starting + champion.links().left + champion.links().right
}

/// Whether the snapshot holds the champion with the `Id` `id` and
/// everything that the champion names.
pub open spec fn champion_whole(db: DB, id: Id) -> bool {
    &&& db.champs.lookup(id) matches Some(champion)
    &&& all_abilities(db.abilities, ability_ids(champion))
    &&& all_groups(db.classes, champion.links().classes)
    &&& all_groups(db.races, champion.links().races)
    &&& champion.artist < db.artists.items().len()
}

/// The page of the champion with the `Id` `id`: the champion, its
/// abilities, its classes, its races and its artist. Where the snapshot
/// does not hold the champion, or something that the champion names,
/// nothing is found.
pub fn champion_page<'a>(db: &'a DB, id: Id) -> (page: Result<ChampionPage<'a>, NotFound>)
    ensures
        match page {
            Ok(made) => {
                &&& champion_whole(*db, id)
                &&& db.champs.lookup(id) == Some(*made.champion)
                &&& are_abilities(db.abilities, ability_ids(*made.champion), made.abilities@)
                &&& are_shims(db.classes, made.champion.links().classes, made.classes@)
                &&& are_shims(db.races, made.champion.links().races, made.races@)
                &&& made.artist.id == db.artists.items()[made.champion.artist as int].id
                &&& made.artist.name@ == db.artists.items()[made.champion.artist as int].name@
            },
            Err(_) => !champion_whole(*db, id),
        },
{
    let champion: &Champion = match db.champs.get(id) {
        Some(champion) => champion,
        None => {
            return Err(NotFound);
        },
    };
    let starting = starting_slice(&champion.starting_abilities);
    let left = set_slice(&champion.ability_sets[0]);
    let right = set_slice(&champion.ability_sets[1]);
    let mut abilities: Vec<&'a Ability> = Vec::new();
    if find_abilities(&db.abilities, starting, &mut abilities).is_err() {
        proof {
            lemma_some_ability_missing(db.abilities, starting@, Seq::empty(), left@ + right@);
            assert(Seq::<Id>::empty() + starting@ + (left@ + right@) =~= ability_ids(*champion));
        }
        return Err(NotFound);
    }
    let ghost first = abilities@;
    if find_abilities(&db.abilities, left, &mut abilities).is_err() {
        proof {
            lemma_some_ability_missing(db.abilities, left@, starting@, right@);
            assert(starting@ + left@ + right@ =~= ability_ids(*champion));
        }
        return Err(NotFound);
    }
    let ghost second = abilities@;
    if find_abilities(&db.abilities, right, &mut abilities).is_err() {
        proof {
            lemma_some_ability_missing(db.abilities, right@, starting@ + left@, Seq::empty());
            assert(starting@ + left@ + right@ + Seq::<Id>::empty() =~= ability_ids(*champion));
        }
        return Err(NotFound);
    }
    proof {
        lemma_abilities_joined(db.abilities, starting@, left@, right@, first, second, abilities@);
    }
    let classes = match find_groups(&db.classes, group_slice(&champion.classes)) {
        Ok(shims) => shims,
        Err(error) => {
            return Err(error);
        },
    };
    let races = match find_groups(&db.races, group_slice(&champion.races)) {
        Ok(shims) => shims,
        Err(error) => {
            return Err(error);
        },
    };
    let artist = match db.artists.get(champion.artist) {
        Some(set) => set.shim(),
        None => {
            return Err(NotFound);
        },
    };
    Ok(ChampionPage { champion, abilities, classes, races, artist })
}

/// An ability that is missing from a part is missing from the whole.
proof fn lemma_some_ability_missing(
    abilities: Table<Ability>,
    part: Seq<Id>,
    before: Seq<Id>,
    after: Seq<Id>,
)
    requires
        !all_abilities(abilities, part),
    ensures
        !all_abilities(abilities, before + part + after),
{
    let i = choose|i: int| 0 <= i < part.len() && abilities.lookup(#[trigger] part[i]) is None;
    let whole = before + part + after;
    assert(whole[before.len() + i] == part[i]);
}

/// The abilities of three lists, found one list after the other, are the
/// abilities of the lists joined.
proof fn lemma_abilities_joined(
    abilities: Table<Ability>,
    a: Seq<Id>,
    b: Seq<Id>,
    c: Seq<Id>,
    first: Seq<&Ability>,
    second: Seq<&Ability>,
    third: Seq<&Ability>,
)
    requires
        all_abilities(abilities, a),
        all_abilities(abilities, b),
        all_abilities(abilities, c),
        exists|more: Seq<&Ability>|
            #![auto]
            are_abilities(abilities, a, more) && first == Seq::<&Ability>::empty() + more,
        exists|more: Seq<&Ability>| #![auto] are_abilities(abilities, b, more) && second == first + more,
        exists|more: Seq<&Ability>| #![auto] are_abilities(abilities, c, more) && third == second + more,
    ensures
        all_abilities(abilities, a + b + c),
        are_abilities(abilities, a + b + c, third),
{
    let x = choose|more: Seq<&Ability>|
        #![auto]
        are_abilities(abilities, a, more) && first == Seq::<&Ability>::empty() + more;
    let y = choose|more: Seq<&Ability>|
        #![auto]
        are_abilities(abilities, b, more) && second == first + more;
    let z = choose|more: Seq<&Ability>|
        #![auto]
        are_abilities(abilities, c, more) && third == second + more;
    let ids = a + b + c;
    assert(first =~= x);
    assert(third =~= x + y + z);
    assert forall|i: int| 0 <= i < ids.len() implies abilities.lookup(#[trigger] ids[i]) == Some(
        *third[i],
    ) by {
        if i < a.len() {
            assert(ids[i] == a[i]);
        } else if i < a.len() + b.len() {
            assert(ids[i] == b[i - a.len()]);
            assert(third[i] == y[i - a.len()]);
        } else {
            assert(ids[i] == c[i - a.len() - b.len()]);
            assert(third[i] == z[i - a.len() - b.len()]);
        }
    }
}

/// A group of abilities with its ranks.
#[derive(Debug)]
pub struct AbilityPage<'a> {
    pub group: &'a AbilityGroup,
    pub abilities: Vec<&'a Ability>,
}

/// Whether the snapshot holds the group with the `Id` `id` and all its
/// ranks.
pub open spec fn ability_whole(db: DB, id: Id) -> bool {
    &&& id < db.ability_groups.items().len()
    &&& all_abilities(db.abilities, db.ability_groups.items()[id as int].ranks@)
}

/// The page of the group of abilities with the `Id` `id`: the group and
/// its ranks.
pub fn ability_page<'a>(db: &'a DB, id: Id) -> (page: Result<AbilityPage<'a>, NotFound>)
    ensures
        match page {
            Ok(made) => {
                &&& ability_whole(*db, id)
                &&& *made.group == db.ability_groups.items()[id as int]
                &&& are_abilities(db.abilities, made.group.ranks@, made.abilities@)
            },
            Err(_) => !ability_whole(*db, id),
        },
{
    let group: &AbilityGroup = match db.ability_groups.get(id) {
        Some(group) => group,
        None => {
            return Err(NotFound);
        },
    };
    let mut abilities: Vec<&'a Ability> = Vec::new();
    match find_abilities(&db.abilities, group.ranks.as_slice(), &mut abilities) {
        Ok(_) => {
            proof {
                let more = choose|more: Seq<&Ability>|
                    #![auto]
                    are_abilities(db.abilities, group.ranks@, more) && abilities@
                        == Seq::<&Ability>::empty() + more;
                assert(abilities@ =~= more);
            }
            Ok(AbilityPage { group, abilities })
        },
        Err(error) => Err(error),
    }
}

/// A rune with its artist.
#[derive(Debug)]
pub struct RunePage<'a, C> {
    pub rune: &'a Rune<C>,
    pub artist: Shim<'a>,
}

/// The page of the rune with the `Id` `id`: the rune and its artist.
pub fn rune_page<'a, C>(
    runes: &'a Table<Rune<C>>,
    artists: &'a AutoIndexTable<RuneSet>,
    id: Id,
) -> (page: Result<RunePage<'a, C>, NotFound>)
    ensures
        match page {
            Ok(made) => {
                &&& runes.lookup(id) == Some(*made.rune)
                &&& made.rune.artist < artists.items().len()
                &&& made.artist.id == artists.items()[made.rune.artist as int].id
                &&& made.artist.name@ == artists.items()[made.rune.artist as int].name@
            },
            Err(_) => !(runes.lookup(id) matches Some(rune) && rune.artist < artists.items().len()),
        },
{
    let rune: &Rune<C> = match runes.get(id) {
        Some(rune) => rune,
        None => {
            return Err(NotFound);
        },
    };
    match artists.get(rune.artist) {
        Some(set) => Ok(RunePage { rune, artist: set.shim() }),
        None => Err(NotFound),
    }
}

/// The effect under the key `key`, which is taken as it is.
pub fn effect_page<'a>(db: &'a DB, key: &str) -> (page: Result<&'a Effect, NotFound>)
    ensures
        match page {
            Ok(effect) => db.effects.lookup(key@) == Some(*effect),
            Err(_) => db.effects.lookup(key@) is None,
        },
{
    match db.effects.get_by_key(key) {
        Some(effect) => Ok(effect),
        None => Err(NotFound),
    }
}

/// The `Id` and the name of every expansion, in the order of the `Id`s.
pub fn expansions<'a>(db: &'a DB) -> (shims: Vec<Shim<'a>>)
    ensures
        shims@.len() == db.expansions.items().len(),
        forall|i: int|
            0 <= i < shims@.len() ==> (#[trigger] shims@[i]).id == db.expansions.items()[i].id
                && shims@[i].name@ == db.expansions.items()[i].name@,
{
    let sets: &[RuneSet] = db.expansions.as_slice();
    let mut shims: Vec<Shim<'a>> = Vec::new();
    let mut k: usize = 0;
    while k < sets.len()
        invariant
            k <= sets@.len(),
            sets@ == db.expansions.items(),
            shims@.len() == k,
            forall|i: int|
                0 <= i < k ==> (#[trigger] shims@[i]).id == sets@[i].id && shims@[i].name@
                    == sets@[i].name@,
        decreases sets@.len() - k,
    {
        shims.push(sets[k].shim());
        k = k + 1;
    }
    shims
}

} // verus!
