//! The steps of a building: an ability is linked to the group of its name,
//! a champion joins its classes and races, a rune tags its factions, its
//! expansion and its artist. Lists of such steps are taken one after the
//! other, as long as the lists of fixed size have room.

use vstd::prelude::*;

use crate::db::autoindex::AutoIndexTable;
use crate::db::enum_table::EnumTable;
use crate::db::table::Table;
use crate::parser::feed::FeedAbility;
use crate::parser::fold::{
    chained, folded, lemma_chain_ends, lemma_chain_fails, lemma_chain_grows, lemma_chain_starts,
    BuildError,
};
use crate::trusted::lists::{
    group_held, group_new, group_push, set_held, set_new, set_push, sides_held, sides_new,
    sides_push, starting_held, starting_new, starting_push, GroupIds, SetIds, Sides, StartingIds,
};
use crate::types::champ::{MAX_FACTIONS, MAX_GROUPS, MAX_SET_ABILITIES, MAX_STARTING_ABILITIES};
use crate::types::group::ranked;
use crate::types::tags::{tagged, EntityId};
use crate::types::{Ability, AbilityCore, AbilityGroup, Champion, Faction, Group, Id, RuneSet};

verus! {

/// Whether `after` is the group `before` with `rank` among its ranks and
/// `owner` among its tags; where there was no group before, a new one with
/// the `Id` `fresh` and the name `name`.
pub open spec fn grouped(
    before: Option<AbilityGroup>,
    fresh: Id,
    name: Seq<char>,
    rank: Id,
    owner: EntityId,
    after: AbilityGroup,
) -> bool {
    match before {
        Some(group) => {
            &&& after.id == group.id
            &&& after.name == group.name
            &&& ranked(group.ranks@, rank, after.ranks@)
            &&& tagged(group.tags@, owner, after.tags@)
        },
        None => {
            &&& after.id == fresh
            &&& after.name@ == name
            &&& ranked(Seq::empty(), rank, after.ranks@)
            &&& tagged(Seq::empty(), owner, after.tags@)
        },
    }
}

/// The `Id` under which the ability `core` is taken in: that of the ability
/// that is stored under the `Id` of `core`, or else the `Id` of `core`.
pub open spec fn linked_id(abilities: Table<Ability>, core: AbilityCore) -> Id {
    abilities.held_or(core.id, Ability { core, group: u32::MAX }).core.id
}

/// Whether `after` holds the abilities and the groups after the ability
/// `core` of `owner` is taken in: the ability is the one that is stored
/// under the `Id` of `core`, or else `core` itself; it is a rank of the group
/// of its name, which `owner` tags; and it knows the `Id` of that group.
#[verifier::opaque]
pub open spec fn linked(
    abilities: Table<Ability>,
    groups: AutoIndexTable<AbilityGroup>,
    core: AbilityCore,
    owner: EntityId,
    after: (Table<Ability>, AutoIndexTable<AbilityGroup>),
) -> bool {
    let ability = abilities.held_or(core.id, Ability { core, group: u32::MAX });
    let name = ability.core.name@;
    let before = groups.lookup(name);
    let group = after.1.lookup(name);
    &&& group is Some
    &&& after.1.is_put(&groups, name, group->0)
    &&& grouped(
        before,
        groups.items().len() as Id,
        name,
        linked_id(abilities, core),
        owner,
        group->0,
    )
    &&& after.0.is_put(&abilities, core.id, Ability { core: ability.core, group: group->0.id })
}

/// Whether the groups are well formed, each for itself and as a table, and
/// the abilities as a table.
pub open spec fn linkable(abilities: Table<Ability>, groups: AutoIndexTable<AbilityGroup>) -> bool {
    &&& abilities.wf()
    &&& groups.wf()
    &&& forall|i: int| 0 <= i < groups.items().len() ==> (#[trigger] groups.items()[i]).wf()
}

/// Takes the ability `core` of `owner` in. With as many groups as there are
/// `Id`s nothing is taken in.
pub fn link_ability(
    abilities: &mut Table<Ability>,
    groups: &mut AutoIndexTable<AbilityGroup>,
    core: AbilityCore,
    owner: EntityId,
) -> (id: Result<Id, BuildError>)
    requires
        linkable(*old(abilities), *old(groups)),
    ensures
        linkable(*final(abilities), *final(groups)),
        match id {
            Ok(id) => {
                &&& old(groups).items().len() <= u32::MAX
                &&& id == linked_id(*old(abilities), core)
                &&& linked(
                    *old(abilities),
                    *old(groups),
                    core,
                    owner,
                    (*final(abilities), *final(groups)),
                )
            },
            Err(error) => {
                &&& old(groups).items().len() > u32::MAX
                &&& error == BuildError::CapacityViolation
                &&& *final(abilities) == *old(abilities)
                &&& *final(groups) == *old(groups)
            },
        },
{
    if groups.len() > u32::MAX as usize {
        return Err(BuildError::CapacityViolation);
    }
    let ghost abilities_before = *abilities;
    let ghost groups_before = *groups;
    let ability: &mut Ability = abilities.entry(core);
    let ghost held = *ability;
    proof {
        groups_before.lemma_lookup(held.core.name@);
    }
    let group: &mut AbilityGroup = groups.entry(ability.core.name.as_str());
    let id: Id = ability.core.id;
    group.rank(&*ability);
    group.tag(owner);
    ability.group = group.id;
    proof {
        reveal(linked);
        assert(held == abilities_before.held_or(core.id, Ability { core, group: u32::MAX }));
    }
    Ok(id)
}

/// Whether `after` is the table of groups `before` with `member` as the
/// last member of the group `name`, which is made where there was none.
#[verifier::opaque]
pub open spec fn joined(
    before: AutoIndexTable<Group<Champion>>,
    name: Seq<char>,
    member: Id,
    after: AutoIndexTable<Group<Champion>>,
) -> bool {
    let group = after.lookup(name);
    &&& group is Some
    &&& after.is_put(&before, name, group->0)
    &&& match before.lookup(name) {
        Some(held) => {
            &&& group->0.id == held.id
            &&& group->0.name == held.name
            &&& group->0.ids@ =~= held.ids@.push(member)
        },
        None => {
            &&& group->0.id == before.items().len() as Id
            &&& group->0.name@ == name
            &&& group->0.ids@ =~= seq![member]
        },
    }
}

/// Makes `member` the last member of the group `name` and gives the `Id` of
/// the group. With as many groups as there are `Id`s nothing is done.
pub fn join_group(table: &mut AutoIndexTable<Group<Champion>>, name: &str, member: Id) -> (id:
    Result<Id, BuildError>)
    requires
        old(table).wf(),
    ensures
        final(table).wf(),
        match id {
            Ok(id) => {
                &&& old(table).items().len() <= u32::MAX
                &&& joined(*old(table), name@, member, *final(table))
                &&& final(table).lookup(name@) matches Some(group) && group.id == id
            },
            Err(error) => {
                &&& old(table).items().len() > u32::MAX
                &&& error == BuildError::CapacityViolation
                &&& *final(table) == *old(table)
            },
        },
{
    if table.len() > u32::MAX as usize {
        return Err(BuildError::CapacityViolation);
    }
    proof {
        reveal(joined);
        table.lemma_lookup(name@);
    }
    let group: &mut Group<Champion> = table.entry(name);
    group.ids.push(member);
    Ok(group.id)
}

/// Whether `after` is the table of sets `before` with `owner` among the
/// tags of the set `name`, which is made where there was none.
#[verifier::opaque]
pub open spec fn enrolled(
    before: AutoIndexTable<RuneSet>,
    name: Seq<char>,
    owner: EntityId,
    after: AutoIndexTable<RuneSet>,
) -> bool {
    let set = after.lookup(name);
    &&& set is Some
    &&& after.is_put(&before, name, set->0)
    &&& match before.lookup(name) {
        Some(held) => {
            &&& set->0.id == held.id
            &&& set->0.name == held.name
            &&& tagged(held.tags@, owner, set->0.tags@)
        },
        None => {
            &&& set->0.id == before.items().len() as Id
            &&& set->0.name@ == name
            &&& tagged(Seq::empty(), owner, set->0.tags@)
        },
    }
}

/// Puts `owner` among the tags of the set `name` and gives the `Id` of the
/// set. With as many sets as there are `Id`s nothing is done.
pub fn enroll(table: &mut AutoIndexTable<RuneSet>, name: &str, owner: EntityId) -> (id: Result<
    Id,
    BuildError,
>)
    requires
        old(table).wf(),
    ensures
        final(table).wf(),
        match id {
            Ok(id) => {
                &&& old(table).items().len() <= u32::MAX
                &&& enrolled(*old(table), name@, owner, *final(table))
                &&& final(table).lookup(name@) matches Some(set) && set.id == id
            },
            Err(error) => {
                &&& old(table).items().len() > u32::MAX
                &&& error == BuildError::CapacityViolation
                &&& *final(table) == *old(table)
            },
        },
{
    if table.len() > u32::MAX as usize {
        return Err(BuildError::CapacityViolation);
    }
    proof {
        reveal(enrolled);
        table.lemma_lookup(name@);
    }
    let set: &mut RuneSet = table.entry(name);
    set.tag(owner);
    Ok(set.id)
}

/// Whether `after` is the table of factions `before` with `owner` among
/// the tags of `faction`.
#[verifier::opaque]
pub open spec fn sided(
    before: EnumTable<Faction>,
    faction: Faction,
    owner: EntityId,
    after: EnumTable<Faction>,
) -> bool {
    let at = faction.index() as int;
    let held = before.slots()[at];
    let set = after.slots()[at];
    &&& after.slots() =~= before.slots().update(at, set)
    &&& set.id == held.id
    &&& set.name == held.name
    &&& tagged(held.tags@, owner, set.tags@)
}

/// Puts `owner` among the tags of `faction`.
pub fn side_with(table: &mut EnumTable<Faction>, faction: Faction, owner: EntityId)
    requires
        old(table).wf(),
    ensures
        final(table).wf(),
        sided(*old(table), faction, owner, *final(table)),
{
    proof {
        reveal(sided);
        table.lemma_wf();
    }
    let set: &mut RuneSet<Faction> = table.entry(faction);
    set.tag(owner);
}

/// The abilities, the groups, and a list of abilities that is being filled.
pub type Linking = (Table<Ability>, AutoIndexTable<AbilityGroup>, Seq<Id>);

/// Taking one starting ability of `owner` in: it is linked, and its `Id`
/// is the next of the list, which holds `limit` at most.
pub open spec fn start_step(owner: EntityId, limit: int) -> spec_fn(
    Linking,
    AbilityCore,
    Result<Linking, BuildError>,
) -> bool {
    |now: Linking, core: AbilityCore, then: Result<Linking, BuildError>|
        match then {
            Ok(next) => {
                &&& now.2.len() < limit
                &&& now.1.items().len() <= u32::MAX
                &&& linked(now.0, now.1, core, owner, (next.0, next.1))
                &&& next.2 == now.2.push(linked_id(now.0, core))
            },
            Err(error) => {
                &&& error == BuildError::CapacityViolation
                &&& now.2.len() >= limit || now.1.items().len() > u32::MAX
            },
        }
}

/// Takes the starting abilities `cores` of `owner` in and adds them to
/// `list`, which holds `limit` at most.
pub fn link_starting(
    abilities: &mut Table<Ability>,
    groups: &mut AutoIndexTable<AbilityGroup>,
    list: &mut Vec<Id>,
    limit: usize,
    cores: Vec<AbilityCore>,
    owner: EntityId,
) -> (done: Result<(), BuildError>)
    requires
        linkable(*old(abilities), *old(groups)),
        old(list)@.len() <= limit,
    ensures
        linkable(*final(abilities), *final(groups)),
        final(list)@.len() <= limit,
        folded(
            start_step(owner, limit as int),
            (*old(abilities), *old(groups), old(list)@),
            cores@,
            match done {
                Ok(_) => Ok((*final(abilities), *final(groups), final(list)@)),
                Err(error) => Err(error),
            },
        ),
{
    let ghost step = start_step(owner, limit as int);
    let ghost start: Linking = (*abilities, *groups, list@);
    let ghost mut states: Seq<Result<Linking, BuildError>> = seq![Ok(start)];
    proof {
        lemma_chain_starts(step, start, cores@);
    }
    for core in it: cores
        invariant
            it.seq() == cores@,
            step == start_step(owner, limit as int),
            start == (*old(abilities), *old(groups), old(list)@),
            linkable(*abilities, *groups),
            list@.len() <= limit,
            states.len() == it.index() + 1,
            chained(step, start, cores@, states),
            states.last() == Ok::<Linking, BuildError>((*abilities, *groups, list@)),
    {
        let ghost now: Linking = (*abilities, *groups, list@);
        if list.len() >= limit {
            proof {
                let then: Result<Linking, BuildError> = Err(BuildError::CapacityViolation);
                lemma_chain_grows(step, start, cores@, states, now, then);
                lemma_chain_fails(
                    step,
                    start,
                    cores@,
                    states.push(then),
                    BuildError::CapacityViolation,
                );
            }
            return Err(BuildError::CapacityViolation);
        }
        match link_ability(abilities, groups, core, owner) {
            Ok(id) => {
                list.push(id);
                proof {
                    let then: Result<Linking, BuildError> = Ok((*abilities, *groups, list@));
                    lemma_chain_grows(step, start, cores@, states, now, then);
                    states = states.push(then);
                }
            },
            Err(error) => {
                proof {
                    let then: Result<Linking, BuildError> = Err(error);
                    lemma_chain_grows(step, start, cores@, states, now, then);
                    lemma_chain_fails(step, start, cores@, states.push(then), error);
                }
                return Err(error);
            },
        }
    }
    proof {
        lemma_chain_ends(step, start, cores@, states);
    }
    Ok(())
}

/// The abilities, the groups, a list of abilities that is being filled, and
/// the ability of the list that is the default.
pub type Choosing = (Table<Ability>, AutoIndexTable<AbilityGroup>, Seq<Id>, Id);

/// Taking one ability of a set of `owner` in: it is linked, its `Id` is the
/// next of the list, which holds `limit` at most, and it is the default
/// from now on where the feed says so.
pub open spec fn set_step(owner: EntityId, limit: int) -> spec_fn(
    Choosing,
    FeedAbility,
    Result<Choosing, BuildError>,
) -> bool {
    |now: Choosing, entry: FeedAbility, then: Result<Choosing, BuildError>|
        match then {
            Ok(next) => {
                &&& now.2.len() < limit
                &&& now.1.items().len() <= u32::MAX
                &&& linked(now.0, now.1, entry.core, owner, (next.0, next.1))
                &&& next.2 == now.2.push(linked_id(now.0, entry.core))
                &&& next.3 == (if entry.default == Some(true) {
                    linked_id(now.0, entry.core)
                } else {
                    now.3
                })
            },
            Err(error) => {
                &&& error == BuildError::CapacityViolation
                &&& now.2.len() >= limit || now.1.items().len() > u32::MAX
            },
        }
}

/// Takes the abilities `entries` of one set of `owner` in and adds them to
/// `list`, which holds `limit` at most.
pub fn link_set(
    abilities: &mut Table<Ability>,
    groups: &mut AutoIndexTable<AbilityGroup>,
    list: &mut Vec<Id>,
    chosen: &mut Id,
    limit: usize,
    entries: Vec<FeedAbility>,
    owner: EntityId,
) -> (done: Result<(), BuildError>)
    requires
        linkable(*old(abilities), *old(groups)),
        old(list)@.len() <= limit,
    ensures
        linkable(*final(abilities), *final(groups)),
        final(list)@.len() <= limit,
        folded(
            set_step(owner, limit as int),
            (*old(abilities), *old(groups), old(list)@, *old(chosen)),
            entries@,
            match done {
                Ok(_) => Ok((*final(abilities), *final(groups), final(list)@, *final(chosen))),
                Err(error) => Err(error),
            },
        ),
{
    let ghost step = set_step(owner, limit as int);
    let ghost start: Choosing = (*abilities, *groups, list@, *chosen);
    let ghost mut states: Seq<Result<Choosing, BuildError>> = seq![Ok(start)];
    proof {
        lemma_chain_starts(step, start, entries@);
    }
    for entry in it: entries
        invariant
            it.seq() == entries@,
            step == set_step(owner, limit as int),
            start == (*old(abilities), *old(groups), old(list)@, *old(chosen)),
            linkable(*abilities, *groups),
            list@.len() <= limit,
            states.len() == it.index() + 1,
            chained(step, start, entries@, states),
            states.last() == Ok::<Choosing, BuildError>((*abilities, *groups, list@, *chosen)),
    {
        let ghost now: Choosing = (*abilities, *groups, list@, *chosen);
        if list.len() >= limit {
            proof {
                let then: Result<Choosing, BuildError> = Err(BuildError::CapacityViolation);
                lemma_chain_grows(step, start, entries@, states, now, then);
                lemma_chain_fails(
                    step,
                    start,
                    entries@,
                    states.push(then),
                    BuildError::CapacityViolation,
                );
            }
            return Err(BuildError::CapacityViolation);
        }
        let is_default: bool = match entry.default {
            Some(flag) => flag,
            None => false,
        };
        match link_ability(abilities, groups, entry.core, owner) {
            Ok(id) => {
                list.push(id);
                if is_default {
                    *chosen = id;
                }
                proof {
                    let then: Result<Choosing, BuildError> = Ok(
                        (*abilities, *groups, list@, *chosen),
                    );
                    lemma_chain_grows(step, start, entries@, states, now, then);
                    states = states.push(then);
                }
            },
            Err(error) => {
                proof {
                    let then: Result<Choosing, BuildError> = Err(error);
                    lemma_chain_grows(step, start, entries@, states, now, then);
                    lemma_chain_fails(step, start, entries@, states.push(then), error);
                }
                return Err(error);
            },
        }
    }
    proof {
        lemma_chain_ends(step, start, entries@, states);
    }
    Ok(())
}

/// A table of groups and a list of groups that is being filled.
pub type Joining = (AutoIndexTable<Group<Champion>>, Seq<Id>);

/// Taking one class or race of the champion `member` in: the champion is
/// the last member of the group of that name, and the `Id` of the group is
/// the next of the list, which holds `limit` at most.
pub open spec fn join_step(member: Id, limit: int) -> spec_fn(
    Joining,
    String,
    Result<Joining, BuildError>,
) -> bool {
    |now: Joining, name: String, then: Result<Joining, BuildError>|
        match then {
            Ok(next) => {
                &&& now.1.len() < limit
                &&& now.0.items().len() <= u32::MAX
                &&& joined(now.0, name@, member, next.0)
                &&& next.0.lookup(name@) matches Some(group) && next.1 == now.1.push(group.id)
            },
            Err(error) => {
                &&& error == BuildError::CapacityViolation
                &&& now.1.len() >= limit || now.0.items().len() > u32::MAX
            },
        }
}

/// Takes the classes, or the races, `names` of the champion `member` in and
/// adds them to `list`, which holds `limit` at most.
pub fn join_groups(
    table: &mut AutoIndexTable<Group<Champion>>,
    list: &mut Vec<Id>,
    limit: usize,
    names: Vec<String>,
    member: Id,
) -> (done: Result<(), BuildError>)
    requires
        old(table).wf(),
        old(list)@.len() <= limit,
    ensures
        final(table).wf(),
        final(list)@.len() <= limit,
        folded(
            join_step(member, limit as int),
            (*old(table), old(list)@),
            names@,
            match done {
                Ok(_) => Ok((*final(table), final(list)@)),
                Err(error) => Err(error),
            },
        ),
{
    let ghost step = join_step(member, limit as int);
    let ghost start: Joining = (*table, list@);
    let ghost mut states: Seq<Result<Joining, BuildError>> = seq![Ok(start)];
    proof {
        lemma_chain_starts(step, start, names@);
    }
    for name in it: names
        invariant
            it.seq() == names@,
            step == join_step(member, limit as int),
            start == (*old(table), old(list)@),
            table.wf(),
            list@.len() <= limit,
            states.len() == it.index() + 1,
            chained(step, start, names@, states),
            states.last() == Ok::<Joining, BuildError>((*table, list@)),
    {
        let ghost now: Joining = (*table, list@);
        if list.len() >= limit {
            proof {
                let then: Result<Joining, BuildError> = Err(BuildError::CapacityViolation);
                lemma_chain_grows(step, start, names@, states, now, then);
                lemma_chain_fails(
                    step,
                    start,
                    names@,
                    states.push(then),
                    BuildError::CapacityViolation,
                );
            }
            return Err(BuildError::CapacityViolation);
        }
        match join_group(table, name.as_str(), member) {
            Ok(id) => {
                list.push(id);
                proof {
                    let then: Result<Joining, BuildError> = Ok((*table, list@));
                    lemma_chain_grows(step, start, names@, states, now, then);
                    states = states.push(then);
                }
            },
            Err(error) => {
                proof {
                    let then: Result<Joining, BuildError> = Err(error);
                    lemma_chain_grows(step, start, names@, states, now, then);
                    lemma_chain_fails(step, start, names@, states.push(then), error);
                }
                return Err(error);
            },
        }
    }
    proof {
        lemma_chain_ends(step, start, names@, states);
    }
    Ok(())
}

/// The table of factions and a list of factions that is being filled.
pub type Siding = (EnumTable<Faction>, Seq<Faction>);

/// Taking one faction of `owner` in: it is the next of the list, which
/// holds `limit` at most, and `owner` is among its tags.
pub open spec fn side_step(owner: EntityId, limit: int) -> spec_fn(
    Siding,
    Faction,
    Result<Siding, BuildError>,
) -> bool {
    |now: Siding, faction: Faction, then: Result<Siding, BuildError>|
        match then {
            Ok(next) => {
                &&& now.1.len() < limit
                &&& sided(now.0, faction, owner, next.0)
                &&& next.1 == now.1.push(faction)
            },
            Err(error) => error == BuildError::CapacityViolation && now.1.len() >= limit,
        }
}

/// Takes the first `count` of the factions `factions` of `owner` in and
/// adds them to `list`, which holds `limit` at most.
pub fn side_with_all(
    table: &mut EnumTable<Faction>,
    list: &mut Vec<Faction>,
    limit: usize,
    factions: &Vec<Faction>,
    count: usize,
    owner: EntityId,
) -> (done: Result<(), BuildError>)
    requires
        old(table).wf(),
        old(list)@.len() <= limit,
        count <= factions@.len(),
    ensures
        final(table).wf(),
        final(list)@.len() <= limit,
        folded(
            side_step(owner, limit as int),
            (*old(table), old(list)@),
            factions@.take(count as int),
            match done {
                Ok(_) => Ok((*final(table), final(list)@)),
                Err(error) => Err(error),
            },
        ),
{
    let ghost step = side_step(owner, limit as int);
    let ghost start: Siding = (*table, list@);
    let ghost items = factions@.take(count as int);
    let ghost mut states: Seq<Result<Siding, BuildError>> = seq![Ok(start)];
    proof {
        lemma_chain_starts(step, start, items);
    }
    let mut k: usize = 0;
    while k < count
        invariant
            k <= count <= factions@.len(),
            items == factions@.take(count as int),
            step == side_step(owner, limit as int),
            start == (*old(table), old(list)@),
            table.wf(),
            list@.len() <= limit,
            states.len() == k + 1,
            chained(step, start, items, states),
            states.last() == Ok::<Siding, BuildError>((*table, list@)),
        decreases count - k,
    {
        let ghost now: Siding = (*table, list@);
        let faction: Faction = factions[k];
        if list.len() >= limit {
            proof {
                let then: Result<Siding, BuildError> = Err(BuildError::CapacityViolation);
                lemma_chain_grows(step, start, items, states, now, then);
                lemma_chain_fails(
                    step,
                    start,
                    items,
                    states.push(then),
                    BuildError::CapacityViolation,
                );
            }
            return Err(BuildError::CapacityViolation);
        }
        side_with(table, faction, owner);
        list.push(faction);
        proof {
            let then: Result<Siding, BuildError> = Ok((*table, list@));
            lemma_chain_grows(step, start, items, states, now, then);
            states = states.push(then);
        }
        k = k + 1;
    }
    proof {
        lemma_chain_ends(step, start, items, states);
    }
    Ok(())
}

/// A list of fixed capacity that holds `items`.
pub(crate) fn starting_of(items: &Vec<Id>) -> (list: StartingIds)
    requires
        items@.len() <= MAX_STARTING_ABILITIES,
    ensures
        starting_held(list) == items@,
{
    let mut list: StartingIds = starting_new();
    let mut k: usize = 0;
    while k < items.len()
        invariant
            k <= items@.len() <= MAX_STARTING_ABILITIES,
            starting_held(list) == items@.take(k as int),
        decreases items@.len() - k,
    {
        starting_push(&mut list, items[k]);
        proof {
            assert(items@.take(k + 1) =~= items@.take(k as int).push(items@[k as int]));
        }
        k = k + 1;
    }
    proof {
        assert(items@.take(k as int) =~= items@);
    }
    list
}

/// A list of fixed capacity that holds `items`.
pub(crate) fn set_of(items: &Vec<Id>) -> (list: SetIds)
    requires
        items@.len() <= MAX_SET_ABILITIES,
    ensures
        set_held(list) == items@,
{
    let mut list: SetIds = set_new();
    let mut k: usize = 0;
    while k < items.len()
        invariant
            k <= items@.len() <= MAX_SET_ABILITIES,
            set_held(list) == items@.take(k as int),
        decreases items@.len() - k,
    {
        set_push(&mut list, items[k]);
        proof {
            assert(items@.take(k + 1) =~= items@.take(k as int).push(items@[k as int]));
        }
        k = k + 1;
    }
    proof {
        assert(items@.take(k as int) =~= items@);
    }
    list
}

/// A list of fixed capacity that holds `items`.
pub(crate) fn group_of(items: &Vec<Id>) -> (list: GroupIds)
    requires
        items@.len() <= MAX_GROUPS,
    ensures
        group_held(list) == items@,
{
    let mut list: GroupIds = group_new();
    let mut k: usize = 0;
    while k < items.len()
        invariant
            k <= items@.len() <= MAX_GROUPS,
            group_held(list) == items@.take(k as int),
        decreases items@.len() - k,
    {
        group_push(&mut list, items[k]);
        proof {
            assert(items@.take(k + 1) =~= items@.take(k as int).push(items@[k as int]));
        }
        k = k + 1;
    }
    proof {
        assert(items@.take(k as int) =~= items@);
    }
    list
}

/// A list of fixed capacity that holds `items`.
pub(crate) fn sides_of(items: &Vec<Faction>) -> (list: Sides)
    requires
        items@.len() <= MAX_FACTIONS,
    ensures
        sides_held(list) == items@,
{
    let mut list: Sides = sides_new();
    let mut k: usize = 0;
    while k < items.len()
        invariant
            k <= items@.len() <= MAX_FACTIONS,
            sides_held(list) == items@.take(k as int),
        decreases items@.len() - k,
    {
        sides_push(&mut list, items[k]);
        proof {
            assert(items@.take(k + 1) =~= items@.take(k as int).push(items@[k as int]));
        }
        k = k + 1;
    }
    proof {
        assert(items@.take(k as int) =~= items@);
    }
    list
}

} // verus!
