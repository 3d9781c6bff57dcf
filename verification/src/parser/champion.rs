//! Taking a champion of the feed into the catalog: what it brings is taken
//! in stage by stage, and at the end the champion is stored with all that
//! belongs to it.

use vstd::prelude::*;

use crate::db::table::Table;
use crate::db::DB;
use crate::parser::feed::{AbilitySet, FeedAbility, FeedChamp};
use crate::parser::fold::{
    chained, folded, lemma_chain_ends, lemma_chain_fails, lemma_chain_grows, lemma_chain_starts,
    BuildError,
};
use crate::parser::linking::{
    enroll, enrolled, group_of, join_groups, join_step, link_set, link_starting, set_of, set_step,
    side_step, side_with_all, sides_of, start_step, starting_of,
};
use crate::trusted::lists::{
    group_slice, set_slice, sides_slice, starting_slice, GroupIds, SetIds, Sides, StartingIds,
};
use crate::types::champ::{
    LinksView, MAX_FACTIONS, MAX_GROUPS, MAX_SET_ABILITIES, MAX_STARTING_ABILITIES,
};
use crate::types::tags::EntityId;
use crate::types::{AbilityCore, Champion, ChampionCore, Faction, Id};

verus! {

/// The tables of the catalog that one step of the building may change.
pub enum Area {
    Abilities,
    Effects,
    Champs,
    Spells,
    Equips,
    Relics,
    Races,
    Classes,
    Artists,
    Factions,
    Expansions,
    Search,
}

/// Whether `after` is `before` in everything but the tables of `areas`;
/// the abilities and their groups are one area.
pub open spec fn same_but(before: DB, after: DB, areas: Set<Area>) -> bool {
    &&& areas.contains(Area::Abilities) || (after.abilities == before.abilities
        && after.ability_groups == before.ability_groups)
    &&& areas.contains(Area::Effects) || after.effects == before.effects
    &&& areas.contains(Area::Champs) || after.champs == before.champs
    &&& areas.contains(Area::Spells) || after.spells == before.spells
    &&& areas.contains(Area::Equips) || after.equips == before.equips
    &&& areas.contains(Area::Relics) || after.relics == before.relics
    &&& areas.contains(Area::Races) || after.races == before.races
    &&& areas.contains(Area::Classes) || after.classes == before.classes
    &&& areas.contains(Area::Artists) || after.artists == before.artists
    &&& areas.contains(Area::Factions) || after.factions == before.factions
    &&& areas.contains(Area::Expansions) || after.expansions == before.expansions
    &&& areas.contains(Area::Search) || after.search == before.search
}

/// The catalog, and what belongs to the champion that is being taken in.
pub type Assembling = (DB, LinksView);

/// What a champion of the feed brings, in the order in which it is taken
/// in.
pub enum Stage {
    Starting,
    Left,
    Right,
    Classes,
    Races,
    Factions,
    Expansion,
    Artist,
}

/// All the stages, in order.
pub open spec fn stages() -> Seq<Stage> {
    seq![
        Stage::Starting,
        Stage::Left,
        Stage::Right,
        Stage::Classes,
        Stage::Races,
        Stage::Factions,
        Stage::Expansion,
        Stage::Artist,
    ]
}

/// The first two of the factions of a champion of the feed: the ones that
/// count.
pub open spec fn counted(factions: Seq<Faction>) -> Seq<Faction> {
    if factions.len() > 2 {
        factions.take(2)
    } else {
        factions.take(factions.len() as int)
    }
}

/// The stages of taking the champion `entry` in, as steps.
pub open spec fn champ_stage(entry: FeedChamp, owner: EntityId, member: Id) -> spec_fn(
    Assembling,
    Stage,
    Result<Assembling, BuildError>,
) -> bool {
    |now: Assembling, stage: Stage, then: Result<Assembling, BuildError>|
        stage_taken(entry, owner, member, now, stage, then)
}

/// One stage of taking the champion `entry` in, which is `owner` as an
/// entity and `member` as a member of groups: what the stage brings is
/// taken into its tables and into its list, and nothing else is touched.
#[verifier::opaque]
pub open spec fn stage_taken(
    entry: FeedChamp,
    owner: EntityId,
    member: Id,
    now: Assembling,
    stage: Stage,
    then: Result<Assembling, BuildError>,
) -> bool {
    {
        match stage {
            Stage::Starting => {
                &&& folded(
                    start_step(owner, MAX_STARTING_ABILITIES as int),
                    (now.0.abilities, now.0.ability_groups, now.1.starting),
                    entry.starting_abilities@,
                    match then {
                        Ok(next) => Ok((next.0.abilities, next.0.ability_groups, next.1.starting)),
                        Err(error) => Err(error),
                    },
                )
                &&& then matches Ok(next) ==> same_but(now.0, next.0, set![Area::Abilities]) && next.1
                    == (LinksView { starting: next.1.starting, ..now.1 })
            },
            Stage::Left => {
                &&& folded(
                    set_step(owner, MAX_SET_ABILITIES as int),
                    (now.0.abilities, now.0.ability_groups, now.1.left, now.1.default_left),
                    entry.ability_sets@[0].abilities@,
                    match then {
                        Ok(next) => Ok(
                            (
                                next.0.abilities,
                                next.0.ability_groups,
                                next.1.left,
                                next.1.default_left,
                            ),
                        ),
                        Err(error) => Err(error),
                    },
                )
                &&& then matches Ok(next) ==> same_but(now.0, next.0, set![Area::Abilities]) && next.1
                    == (LinksView {
                    left: next.1.left,
                    default_left: next.1.default_left,
                    ..now.1
                })
            },
            Stage::Right => {
                &&& folded(
                    set_step(owner, MAX_SET_ABILITIES as int),
                    (now.0.abilities, now.0.ability_groups, now.1.right, now.1.default_right),
                    entry.ability_sets@[1].abilities@,
                    match then {
                        Ok(next) => Ok(
                            (
                                next.0.abilities,
                                next.0.ability_groups,
                                next.1.right,
                                next.1.default_right,
                            ),
                        ),
                        Err(error) => Err(error),
                    },
                )
                &&& then matches Ok(next) ==> same_but(now.0, next.0, set![Area::Abilities]) && next.1
                    == (LinksView {
                    right: next.1.right,
                    default_right: next.1.default_right,
                    ..now.1
                })
            },
            Stage::Classes => {
                &&& folded(
                    join_step(member, MAX_GROUPS as int),
                    (now.0.classes, now.1.classes),
                    entry.classes@,
                    match then {
                        Ok(next) => Ok((next.0.classes, next.1.classes)),
                        Err(error) => Err(error),
                    },
                )
                &&& then matches Ok(next) ==> same_but(now.0, next.0, set![Area::Classes]) && next.1
                    == (LinksView { classes: next.1.classes, ..now.1 })
            },
            Stage::Races => {
                &&& folded(
                    join_step(member, MAX_GROUPS as int),
                    (now.0.races, now.1.races),
                    entry.races@,
                    match then {
                        Ok(next) => Ok((next.0.races, next.1.races)),
                        Err(error) => Err(error),
                    },
                )
                &&& then matches Ok(next) ==> same_but(now.0, next.0, set![Area::Races]) && next.1
                    == (LinksView { races: next.1.races, ..now.1 })
            },
            Stage::Factions => {
                &&& folded(
                    side_step(owner, MAX_FACTIONS as int),
                    (now.0.factions, now.1.factions),
                    counted(entry.factions@),
                    match then {
                        Ok(next) => Ok((next.0.factions, next.1.factions)),
                        Err(error) => Err(error),
                    },
                )
                &&& then matches Ok(next) ==> same_but(now.0, next.0, set![Area::Factions]) && next.1
                    == (LinksView { factions: next.1.factions, ..now.1 })
            },
            Stage::Expansion => match then {
                Ok(next) => {
                    &&& now.0.expansions.items().len() <= u32::MAX
                    &&& enrolled(now.0.expansions, entry.rune_set@, owner, next.0.expansions)
                    &&& same_but(now.0, next.0, set![Area::Expansions])
                    &&& next.0.expansions.lookup(entry.rune_set@) matches Some(set) && next.1
                        == (LinksView { expansion: set.id, ..now.1 })
                },
                Err(error) => error == BuildError::CapacityViolation
                    && now.0.expansions.items().len() > u32::MAX,
            },
            Stage::Artist => match then {
                Ok(next) => {
                    &&& now.0.artists.items().len() <= u32::MAX
                    &&& enrolled(now.0.artists, entry.artist@, owner, next.0.artists)
                    &&& same_but(now.0, next.0, set![Area::Artists])
                    &&& next.0.artists.lookup(entry.artist@) matches Some(set) && next.1
                        == (LinksView { artist: set.id, ..now.1 })
                },
                Err(error) => error == BuildError::CapacityViolation
                    && now.0.artists.items().len() > u32::MAX,
            },
        }
    }
}

/// Whether `outcome` is what taking the champion `entry` in makes of the
/// catalog `before`. The champion is the one that is stored under the `Id`
/// of `entry`, or else a new one; what `entry` brings is added to what
/// belongs to it, stage by stage; and at the end it is stored with all of
/// that. A list that is full, or a table that is, ends the building.
#[verifier::opaque]
pub open spec fn champion_added(before: DB, entry: FeedChamp, outcome: Result<DB, BuildError>) -> bool {
    exists|end: Result<Assembling, BuildError>| #[trigger]
        folded(
            champ_stage(entry, EntityId::Champion(own_id(before, entry)), own_id(before, entry)),
            (before, own_links(before, entry)),
            stages(),
            end,
        ) && champion_stored(before, entry, end, outcome)
}

/// The `Id` that the champion of `entry` has for itself: that of the
/// champion that is stored under the `Id` of `entry`, or else the `Id` of
/// `entry`.
pub open spec fn own_id(before: DB, entry: FeedChamp) -> Id {
    match before.champs.lookup(entry.core.raw.id) {
        Some(champion) => champion.core.raw.id,
        None => entry.core.raw.id,
    }
}

/// What belongs to the champion of `entry` before `entry` is taken in.
pub open spec fn own_links(before: DB, entry: FeedChamp) -> LinksView {
    match before.champs.lookup(entry.core.raw.id) {
        Some(champion) => champion.links(),
        None => LinksView::bare(),
    }
}

/// Whether `outcome` is what comes of storing the champion of `entry` when
/// the stages have led to `end`: the champion is stored under the `Id` of
/// `entry` with what belongs to it, and no other table is touched; a
/// failure of a stage is the outcome.
pub open spec fn champion_stored(
    before: DB,
    entry: FeedChamp,
    end: Result<Assembling, BuildError>,
    outcome: Result<DB, BuildError>,
) -> bool {
    let id = entry.core.raw.id;
    match end {
        Ok(last) => {
            &&& outcome matches Ok(after)
            &&& same_but(last.0, after, set![Area::Champs])
            &&& after.champs.lookup(id) matches Some(champion)
            &&& champion.core == (match before.champs.lookup(id) {
                Some(held) => held.core,
                None => entry.core,
            })
            &&& champion.links() == last.1
            &&& after.champs.is_put(&before.champs, id, champion)
        },
        Err(error) => outcome == Err::<DB, BuildError>(error),
    }
}

/// What belongs to a champion while it is taken in.
#[derive(Debug)]
pub struct Links {
    pub starting: Vec<Id>,
    pub left: Vec<Id>,
    pub right: Vec<Id>,
    pub default_left: Id,
    pub default_right: Id,
    pub classes: Vec<Id>,
    pub races: Vec<Id>,
    pub factions: Vec<Faction>,
    pub expansion: Id,
    pub artist: Id,
}

impl View for Links {
    type V = LinksView;

    open spec fn view(&self) -> LinksView {
        LinksView {
            starting: self.starting@,
            left: self.left@,
            right: self.right@,
            default_left: self.default_left,
            default_right: self.default_right,
            classes: self.classes@,
            races: self.races@,
            factions: self.factions@,
            expansion: self.expansion,
            artist: self.artist,
        }
    }
}

impl Links {
    /// What belongs to the champion with the `Id` `id` so far: nothing
    /// where the catalog holds no such champion. With it comes the `Id`
    /// that the champion has for itself.
    pub fn of(champs: &Table<Champion>, id: Id) -> (found: (Links, Id))
        requires
            champs.wf(),
            forall|i: int| 0 <= i < champs.items().len() ==> (#[trigger] champs.items()[i]).wf(),
        ensures
            found.0@.wf(),
            match champs.lookup(id) {
                Some(champion) => found.0@ == champion.links() && found.1 == champion.core.raw.id,
                None => found.0@ == LinksView::bare() && found.1 == id,
            },
    {
        match champs.get(id) {
            Some(champion) => {
                proof {
                    champs.lemma_wf(id);
                    assert(*champion == champs.items()[champs.slot_of(id)->0]);
                }
                (
                    Links {
                        starting: vstd::slice::slice_to_vec(
                            starting_slice(&champion.starting_abilities),
                        ),
                        left: vstd::slice::slice_to_vec(set_slice(&champion.ability_sets[0])),
                        right: vstd::slice::slice_to_vec(set_slice(&champion.ability_sets[1])),
                        default_left: champion.defaults[0],
                        default_right: champion.defaults[1],
                        classes: vstd::slice::slice_to_vec(group_slice(&champion.classes)),
                        races: vstd::slice::slice_to_vec(group_slice(&champion.races)),
                        factions: vstd::slice::slice_to_vec(sides_slice(&champion.factions)),
                        expansion: champion.expansion,
                        artist: champion.artist,
                    },
                    champion.core.raw.id,
                )
            },
            None => (
                Links {
                    starting: Vec::new(),
                    left: Vec::new(),
                    right: Vec::new(),
                    default_left: u32::MAX,
                    default_right: u32::MAX,
                    classes: Vec::new(),
                    races: Vec::new(),
                    factions: Vec::new(),
                    expansion: u32::MAX,
                    artist: u32::MAX,
                },
                id,
            ),
        }
    }
}

/// Takes the starting abilities of a champion in.
fn take_starting(
    db: &mut DB,
    links: &mut Links,
    cores: Vec<AbilityCore>,
    owner: EntityId,
    Ghost(entry): Ghost<FeedChamp>,
    Ghost(member): Ghost<Id>,
    Ghost(owner_of): Ghost<EntityId>,
) -> (done: Result<(), BuildError>)
    requires
        old(db).wf(),
        old(links)@.wf(),
        cores@ == entry.starting_abilities@,
        owner == owner_of,
    ensures
        final(db).wf(),
        final(links)@.wf(),
        stage_taken(
            entry,
            owner_of,
            member,
            (*old(db), old(links)@),
            Stage::Starting,
            match done {
                Ok(_) => Ok((*final(db), final(links)@)),
                Err(error) => Err(error),
            },
        ),
{
    proof {
        reveal(stage_taken);
    }
    link_starting(
        &mut db.abilities,
        &mut db.ability_groups,
        &mut links.starting,
        MAX_STARTING_ABILITIES,
        cores,
        owner,
    )
}

/// Takes the first set of abilities of a champion in.
fn take_left(
    db: &mut DB,
    links: &mut Links,
    entries: Vec<FeedAbility>,
    owner: EntityId,
    Ghost(entry): Ghost<FeedChamp>,
    Ghost(member): Ghost<Id>,
    Ghost(owner_of): Ghost<EntityId>,
) -> (done: Result<(), BuildError>)
    requires
        old(db).wf(),
        old(links)@.wf(),
        entries@ == entry.ability_sets@[0].abilities@,
        owner == owner_of,
    ensures
        final(db).wf(),
        final(links)@.wf(),
        stage_taken(
            entry,
            owner_of,
            member,
            (*old(db), old(links)@),
            Stage::Left,
            match done {
                Ok(_) => Ok((*final(db), final(links)@)),
                Err(error) => Err(error),
            },
        ),
{
    proof {
        reveal(stage_taken);
    }
    link_set(
        &mut db.abilities,
        &mut db.ability_groups,
        &mut links.left,
        &mut links.default_left,
        MAX_SET_ABILITIES,
        entries,
        owner,
    )
}

/// Takes the second set of abilities of a champion in.
fn take_right(
    db: &mut DB,
    links: &mut Links,
    entries: Vec<FeedAbility>,
    owner: EntityId,
    Ghost(entry): Ghost<FeedChamp>,
    Ghost(member): Ghost<Id>,
    Ghost(owner_of): Ghost<EntityId>,
) -> (done: Result<(), BuildError>)
    requires
        old(db).wf(),
        old(links)@.wf(),
        entries@ == entry.ability_sets@[1].abilities@,
        owner == owner_of,
    ensures
        final(db).wf(),
        final(links)@.wf(),
        stage_taken(
            entry,
            owner_of,
            member,
            (*old(db), old(links)@),
            Stage::Right,
            match done {
                Ok(_) => Ok((*final(db), final(links)@)),
                Err(error) => Err(error),
            },
        ),
{
    proof {
        reveal(stage_taken);
    }
    link_set(
        &mut db.abilities,
        &mut db.ability_groups,
        &mut links.right,
        &mut links.default_right,
        MAX_SET_ABILITIES,
        entries,
        owner,
    )
}

/// Takes the classes of a champion in.
fn take_classes(
    db: &mut DB,
    links: &mut Links,
    names: Vec<String>,
    joiner: Id,
    Ghost(entry): Ghost<FeedChamp>,
    Ghost(member): Ghost<Id>,
    Ghost(owner_of): Ghost<EntityId>,
) -> (done: Result<(), BuildError>)
    requires
        old(db).wf(),
        old(links)@.wf(),
        names@ == entry.classes@,
        joiner == member,
    ensures
        final(db).wf(),
        final(links)@.wf(),
        stage_taken(
            entry,
            owner_of,
            member,
            (*old(db), old(links)@),
            Stage::Classes,
            match done {
                Ok(_) => Ok((*final(db), final(links)@)),
                Err(error) => Err(error),
            },
        ),
{
    proof {
        reveal(stage_taken);
    }
    join_groups(&mut db.classes, &mut links.classes, MAX_GROUPS, names, joiner)
}

/// Takes the races of a champion in.
fn take_races(
    db: &mut DB,
    links: &mut Links,
    names: Vec<String>,
    joiner: Id,
    Ghost(entry): Ghost<FeedChamp>,
    Ghost(member): Ghost<Id>,
    Ghost(owner_of): Ghost<EntityId>,
) -> (done: Result<(), BuildError>)
    requires
        old(db).wf(),
        old(links)@.wf(),
        names@ == entry.races@,
        joiner == member,
    ensures
        final(db).wf(),
        final(links)@.wf(),
        stage_taken(
            entry,
            owner_of,
            member,
            (*old(db), old(links)@),
            Stage::Races,
            match done {
                Ok(_) => Ok((*final(db), final(links)@)),
                Err(error) => Err(error),
            },
        ),
{
    proof {
        reveal(stage_taken);
    }
    join_groups(&mut db.races, &mut links.races, MAX_GROUPS, names, joiner)
}

/// Takes the factions of a champion in: the first two of them.
fn take_factions(
    db: &mut DB,
    links: &mut Links,
    factions: &Vec<Faction>,
    owner: EntityId,
    Ghost(entry): Ghost<FeedChamp>,
    Ghost(member): Ghost<Id>,
    Ghost(owner_of): Ghost<EntityId>,
) -> (done: Result<(), BuildError>)
    requires
        old(db).wf(),
        old(links)@.wf(),
        factions@ == entry.factions@,
        owner == owner_of,
    ensures
        final(db).wf(),
        final(links)@.wf(),
        stage_taken(
            entry,
            owner_of,
            member,
            (*old(db), old(links)@),
            Stage::Factions,
            match done {
                Ok(_) => Ok((*final(db), final(links)@)),
                Err(error) => Err(error),
            },
        ),
{
    proof {
        reveal(stage_taken);
    }
    let count: usize = if factions.len() > 2 {
        2
    } else {
        factions.len()
    };
    side_with_all(&mut db.factions, &mut links.factions, MAX_FACTIONS, factions, count, owner)
}

/// Takes the expansion of a champion in.
fn take_expansion(
    db: &mut DB,
    links: &mut Links,
    name: &str,
    owner: EntityId,
    Ghost(entry): Ghost<FeedChamp>,
    Ghost(member): Ghost<Id>,
    Ghost(owner_of): Ghost<EntityId>,
) -> (done: Result<(), BuildError>)
    requires
        old(db).wf(),
        old(links)@.wf(),
        name@ == entry.rune_set@,
        owner == owner_of,
    ensures
        final(db).wf(),
        final(links)@.wf(),
        stage_taken(
            entry,
            owner_of,
            member,
            (*old(db), old(links)@),
            Stage::Expansion,
            match done {
                Ok(_) => Ok((*final(db), final(links)@)),
                Err(error) => Err(error),
            },
        ),
{
    proof {
        reveal(stage_taken);
    }
    match enroll(&mut db.expansions, name, owner) {
        Ok(set) => {
            links.expansion = set;
            Ok(())
        },
        Err(error) => Err(error),
    }
}

/// Takes the artist of a champion in.
fn take_artist(
    db: &mut DB,
    links: &mut Links,
    name: &str,
    owner: EntityId,
    Ghost(entry): Ghost<FeedChamp>,
    Ghost(member): Ghost<Id>,
    Ghost(owner_of): Ghost<EntityId>,
) -> (done: Result<(), BuildError>)
    requires
        old(db).wf(),
        old(links)@.wf(),
        name@ == entry.artist@,
        owner == owner_of,
    ensures
        final(db).wf(),
        final(links)@.wf(),
        stage_taken(
            entry,
            owner_of,
            member,
            (*old(db), old(links)@),
            Stage::Artist,
            match done {
                Ok(_) => Ok((*final(db), final(links)@)),
                Err(error) => Err(error),
            },
        ),
{
    proof {
        reveal(stage_taken);
    }
    match enroll(&mut db.artists, name, owner) {
        Ok(set) => {
            links.artist = set;
            Ok(())
        },
        Err(error) => Err(error),
    }
}

/// Takes what the champion `entry` brings into the catalog and into
/// `links`, stage by stage.
fn assemble(
    db: &mut DB,
    links: &mut Links,
    starting: Vec<AbilityCore>,
    left: Vec<FeedAbility>,
    right: Vec<FeedAbility>,
    classes: Vec<String>,
    races: Vec<String>,
    factions: Vec<Faction>,
    rune_set: String,
    artist: String,
    member: Id,
    Ghost(entry): Ghost<FeedChamp>,
) -> (done: Result<(), BuildError>)
    requires
        old(db).wf(),
        old(links)@.wf(),
        starting@ == entry.starting_abilities@,
        left@ == entry.ability_sets@[0].abilities@,
        right@ == entry.ability_sets@[1].abilities@,
        classes@ == entry.classes@,
        races@ == entry.races@,
        factions@ == entry.factions@,
        rune_set@ == entry.rune_set@,
        artist@ == entry.artist@,
    ensures
        final(db).wf(),
        final(links)@.wf(),
        folded(
            champ_stage(entry, EntityId::Champion(member), member),
            (*old(db), old(links)@),
            stages(),
            match done {
                Ok(_) => Ok((*final(db), final(links)@)),
                Err(error) => Err(error),
            },
        ),
{
    let owner: EntityId = EntityId::Champion(member);
    let ghost step = champ_stage(entry, owner, member);
    let ghost start: Assembling = (*db, links@);
    let ghost mut states: Seq<Result<Assembling, BuildError>> = seq![Ok(start)];
    let ghost mut now: Assembling = start;
    proof {
        lemma_chain_starts(step, start, stages());
    }

    let done = take_starting(db, links, starting, owner, Ghost(entry), Ghost(member), Ghost(owner));
    proof {
        let then: Result<Assembling, BuildError> = match done {
            Ok(_) => Ok((*db, links@)),
            Err(error) => Err(error),
        };
        lemma_chain_grows(step, start, stages(), states, now, then);
        states = states.push(then);
        now = (*db, links@);
    }
    if let Err(error) = done {
        proof {
            lemma_chain_fails(step, start, stages(), states, error);
        }
        return Err(error);
    }

    let done = take_left(db, links, left, owner, Ghost(entry), Ghost(member), Ghost(owner));
    proof {
        let then: Result<Assembling, BuildError> = match done {
            Ok(_) => Ok((*db, links@)),
            Err(error) => Err(error),
        };
        lemma_chain_grows(step, start, stages(), states, now, then);
        states = states.push(then);
        now = (*db, links@);
    }
    if let Err(error) = done {
        proof {
            lemma_chain_fails(step, start, stages(), states, error);
        }
        return Err(error);
    }

    let done = take_right(db, links, right, owner, Ghost(entry), Ghost(member), Ghost(owner));
    proof {
        let then: Result<Assembling, BuildError> = match done {
            Ok(_) => Ok((*db, links@)),
            Err(error) => Err(error),
        };
        lemma_chain_grows(step, start, stages(), states, now, then);
        states = states.push(then);
        now = (*db, links@);
    }
    if let Err(error) = done {
        proof {
            lemma_chain_fails(step, start, stages(), states, error);
        }
        return Err(error);
    }

    let done = take_classes(db, links, classes, member, Ghost(entry), Ghost(member), Ghost(owner));
    proof {
        let then: Result<Assembling, BuildError> = match done {
            Ok(_) => Ok((*db, links@)),
            Err(error) => Err(error),
        };
        lemma_chain_grows(step, start, stages(), states, now, then);
        states = states.push(then);
        now = (*db, links@);
    }
    if let Err(error) = done {
        proof {
            lemma_chain_fails(step, start, stages(), states, error);
        }
        return Err(error);
    }

    let done = take_races(db, links, races, member, Ghost(entry), Ghost(member), Ghost(owner));
    proof {
        let then: Result<Assembling, BuildError> = match done {
            Ok(_) => Ok((*db, links@)),
            Err(error) => Err(error),
        };
        lemma_chain_grows(step, start, stages(), states, now, then);
        states = states.push(then);
        now = (*db, links@);
    }
    if let Err(error) = done {
        proof {
            lemma_chain_fails(step, start, stages(), states, error);
        }
        return Err(error);
    }

    let done = take_factions(db, links, &factions, owner, Ghost(entry), Ghost(member), Ghost(owner));
    proof {
        let then: Result<Assembling, BuildError> = match done {
            Ok(_) => Ok((*db, links@)),
            Err(error) => Err(error),
        };
        lemma_chain_grows(step, start, stages(), states, now, then);
        states = states.push(then);
        now = (*db, links@);
    }
    if let Err(error) = done {
        proof {
            lemma_chain_fails(step, start, stages(), states, error);
        }
        return Err(error);
    }

    let done = take_expansion(db, links, rune_set.as_str(), owner, Ghost(entry), Ghost(member), Ghost(owner));
    proof {
        let then: Result<Assembling, BuildError> = match done {
            Ok(_) => Ok((*db, links@)),
            Err(error) => Err(error),
        };
        lemma_chain_grows(step, start, stages(), states, now, then);
        states = states.push(then);
        now = (*db, links@);
    }
    if let Err(error) = done {
        proof {
            lemma_chain_fails(step, start, stages(), states, error);
        }
        return Err(error);
    }

    let done = take_artist(db, links, artist.as_str(), owner, Ghost(entry), Ghost(member), Ghost(owner));
    proof {
        let then: Result<Assembling, BuildError> = match done {
            Ok(_) => Ok((*db, links@)),
            Err(error) => Err(error),
        };
        lemma_chain_grows(step, start, stages(), states, now, then);
        states = states.push(then);
        now = (*db, links@);
    }
    if let Err(error) = done {
        proof {
            lemma_chain_fails(step, start, stages(), states, error);
        }
        return Err(error);
    }

    proof {
        lemma_chain_ends(step, start, stages(), states);
    }
    Ok(())
}

/// Stages that lead to `end`, and a storing that leads from there to
/// `outcome`, are the taking in of the champion.
proof fn lemma_champion_added(
    before: DB,
    entry: FeedChamp,
    member: Id,
    links: LinksView,
    end: Result<Assembling, BuildError>,
    outcome: Result<DB, BuildError>,
)
    requires
        folded(
            champ_stage(entry, EntityId::Champion(member), member),
            (before, links),
            stages(),
            end,
        ),
        champion_stored(before, entry, end, outcome),
        member == own_id(before, entry),
        links == own_links(before, entry),
    ensures
        champion_added(before, entry, outcome),
{
    reveal(champion_added);
}

/// Stores the champion with the core `core` and with `links` for what
/// belongs to it: in the place of the champion that is stored under the
/// `Id` of `core` where there is one, whose own core is kept.
pub fn store_champion(champs: &mut Table<Champion>, core: ChampionCore, links: Links)
    requires
        old(champs).wf(),
        links@.wf(),
        forall|i: int|
            0 <= i < old(champs).items().len() ==> (#[trigger] old(champs).items()[i]).wf(),
    ensures
        final(champs).wf(),
        forall|i: int|
            0 <= i < final(champs).items().len() ==> (#[trigger] final(champs).items()[i]).wf(),
        final(champs).lookup(core.raw.id) matches Some(champion) && {
            &&& champion.core == (match old(champs).lookup(core.raw.id) {
                Some(held) => held.core,
                None => core,
            })
            &&& champion.links() == links@
            &&& final(champs).is_put(old(champs), core.raw.id, champion)
        },
{
    let ghost before = *champs;
    let ghost id = core.raw.id;
    proof {
        if before.slot_of(id) is Some {
            before.lemma_wf(id);
        }
    }
    let starting: StartingIds = starting_of(&links.starting);
    let left: SetIds = set_of(&links.left);
    let right: SetIds = set_of(&links.right);
    let classes: GroupIds = group_of(&links.classes);
    let races: GroupIds = group_of(&links.races);
    let sides: Sides = sides_of(&links.factions);
    let champion: &mut Champion = champs.entry(core);
    champion.starting_abilities = starting;
    champion.ability_sets = [left, right];
    champion.defaults = [links.default_left, links.default_right];
    champion.classes = classes;
    champion.races = races;
    champion.factions = sides;
    champion.expansion = links.expansion;
    champion.artist = links.artist;
    proof {
        let after = *champs;
        after.lemma_wf(id);
        let slot = after.slot_of(id)->0;
        assert forall|i: int| 0 <= i < after.items().len() implies (#[trigger] after.items()[i]).wf() by {
            if i != slot {
                assert(after.items()[i] == before.items()[i]);
            }
        }
    }
}

/// Takes the champion `entry` of the feed into the catalog.
pub fn add_champion(db: &mut DB, entry: FeedChamp) -> (done: Result<(), BuildError>)
    requires
        old(db).wf(),
    ensures
        final(db).wf(),
        champion_added(
            *old(db),
            entry,
            match done {
                Ok(_) => Ok(*final(db)),
                Err(error) => Err(error),
            },
        ),
{
    let ghost before = *db;
    let FeedChamp {
        core,
        classes,
        races,
        artist,
        factions,
        rune_set,
        starting_abilities,
        ability_sets,
    } = entry;
    let mut sets: [AbilitySet; 2] = ability_sets;
    let mut left: Vec<FeedAbility> = Vec::new();
    let mut right: Vec<FeedAbility> = Vec::new();
    std::mem::swap(&mut left, &mut sets[0].abilities);
    std::mem::swap(&mut right, &mut sets[1].abilities);
    let id: Id = core.raw.id;
    let (mut links, member) = Links::of(&db.champs, id);
    let ghost held = links@;
    let done = assemble(
        db,
        &mut links,
        starting_abilities,
        left,
        right,
        classes,
        races,
        factions,
        rune_set,
        artist,
        member,
        Ghost(entry),
    );
    let ghost end: Result<Assembling, BuildError> = match done {
        Ok(_) => Ok((*db, links@)),
        Err(error) => Err(error),
    };
    if let Err(error) = done {
        proof {
            lemma_champion_added(before, entry, member, held, end, Err(error));
        }
        return Err(error);
    }
    let ghost last = *db;
    proof {
        lemma_stages_keep_champs(entry, EntityId::Champion(member), member, (before, held), end);
    }
    store_champion(&mut db.champs, core, links);
    proof {
        lemma_champion_added(before, entry, member, held, end, Ok(*db));
    }
    Ok(())
}

/// No stage touches the table of champions.
proof fn lemma_stages_keep_champs(
    entry: FeedChamp,
    owner: EntityId,
    member: Id,
    start: Assembling,
    end: Result<Assembling, BuildError>,
)
    requires
        folded(champ_stage(entry, owner, member), start, stages(), end),
    ensures
        end matches Ok(last) ==> last.0.champs == start.0.champs,
{
    let step = champ_stage(entry, owner, member);
    let states = choose|states: Seq<Result<Assembling, BuildError>>| #[trigger]
        chained(step, start, stages(), states) && states.len() == stages().len() + 1
            && states.last() == end;
    reveal(stage_taken);
    if end is Ok {
        assert forall|k: int| 0 <= k <= 8 implies (#[trigger] states[k]) matches Ok(state)
            && state.0.champs == start.0.champs by {
            lemma_kept_upto(entry, owner, member, start, states, k);
        }
        assert(states[8] == end);
    }
}

/// Where a chain of stages has not failed, the table of champions is as it
/// was at the start.
proof fn lemma_kept_upto(
    entry: FeedChamp,
    owner: EntityId,
    member: Id,
    start: Assembling,
    states: Seq<Result<Assembling, BuildError>>,
    k: int,
)
    requires
        chained(champ_stage(entry, owner, member), start, stages(), states),
        states.len() == 9,
        states[8] is Ok,
        0 <= k <= 8,
    ensures
        states[k] matches Ok(state) && state.0.champs == start.0.champs,
    decreases 8 - k,
{
    reveal(stage_taken);
    if k < 8 {
        lemma_kept_upto(entry, owner, member, start, states, k + 1);
        lemma_kept_down(entry, owner, member, start, states, k);
    } else {
        lemma_kept_down(entry, owner, member, start, states, 8);
    }
}

/// The same, from the start on.
proof fn lemma_kept_down(
    entry: FeedChamp,
    owner: EntityId,
    member: Id,
    start: Assembling,
    states: Seq<Result<Assembling, BuildError>>,
    k: int,
)
    requires
        chained(champ_stage(entry, owner, member), start, stages(), states),
        states.len() == 9,
        0 <= k <= 8,
        states[k] is Ok,
    ensures
        states[k] matches Ok(state) && state.0.champs == start.0.champs,
        forall|j: int| 0 <= j <= k ==> (#[trigger] states[j]) is Ok,
    decreases k,
{
    reveal(stage_taken);
    if k > 0 {
        assert(states[k - 1] is Ok) by {
            if states[k - 1] is Err {
                assert(states[k - 1 + 1] is Err);
            }
        }
        lemma_kept_down(entry, owner, member, start, states, k - 1);
        let before = states[k - 1]->Ok_0;
        assert(stage_taken(entry, owner, member, before, stages()[k - 1], states[k - 1 + 1]));
    }
}

} // verus!
