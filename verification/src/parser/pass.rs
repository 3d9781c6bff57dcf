//! The pass over the descriptions of a snapshot: each is rewritten, and
//! what it refers to is tagged with the entity that it describes.

use vstd::prelude::*;
use vstd::utf8::encode_utf8;

use crate::db::autoindex::AutoIndexTable;
use crate::db::table::Table;
use crate::parser::fold::{
    chained, folded, lemma_chain_ends, lemma_chain_grows, lemma_chain_starts, BuildError,
};
use crate::parser::rewrite::{fix_desc, fixed, TagId, MARKERS};
use crate::trusted::pattern::regex_captures;
use crate::types::tags::{tagged, EntityId};
use crate::types::{Ability, AbilityGroup, Effect, Id, Rune, RuneKind};

verus! {

/// Whether `after` is the effect `before` with `tid` among its tags.
pub open spec fn effect_tagged(before: Effect, tid: EntityId, after: Effect) -> bool {
    &&& after.id == before.id
    &&& after.key == before.key
    &&& after.name == before.name
    &&& after.desc == before.desc
    &&& after.kind == before.kind
    &&& tagged(before.tags@, tid, after.tags@)
}

/// Whether `after` is the group `before` with `tid` among its tags.
pub open spec fn group_tagged(before: AbilityGroup, tid: EntityId, after: AbilityGroup) -> bool {
    &&& after.id == before.id
    &&& after.name == before.name
    &&& after.ranks == before.ranks
    &&& tagged(before.tags@, tid, after.tags@)
}

/// The effects and the groups of abilities: what a description can refer
/// to.
pub type Targets = (AutoIndexTable<Effect>, AutoIndexTable<AbilityGroup>);

/// Whether the two tables are well formed, and every group.
pub open spec fn targetable(targets: Targets) -> bool {
    &&& targets.0.wf()
    &&& targets.1.wf()
    &&& forall|i: int| 0 <= i < targets.1.items().len() ==> (#[trigger] targets.1.items()[i]).wf()
}

/// Whether `after` holds the targets `before` with `tid` among the tags of
/// what `tag` names; a `tag` that names nothing changes nothing. No key and
/// no other item is touched.
#[verifier::opaque]
pub open spec fn tag_applied(before: Targets, tag: TagId, tid: EntityId, after: Targets) -> bool {
    &&& forall|key: Seq<char>| after.0.id_of(key) == before.0.id_of(key)
    &&& forall|key: Seq<char>| after.1.id_of(key) == before.1.id_of(key)
    &&& match tag {
        TagId::Effect(id) => {
            &&& after.1.items() == before.1.items()
            &&& if id < before.0.items().len() {
                &&& after.0.items() =~= before.0.items().update(id as int, after.0.items()[id as int])
                &&& effect_tagged(before.0.items()[id as int], tid, after.0.items()[id as int])
            } else {
                after.0.items() == before.0.items()
            }
        },
        TagId::AbilityGroup(id) => {
            &&& after.0.items() == before.0.items()
            &&& if id < before.1.items().len() {
                &&& after.1.items() =~= before.1.items().update(id as int, after.1.items()[id as int])
                &&& group_tagged(before.1.items()[id as int], tid, after.1.items()[id as int])
            } else {
                after.1.items() == before.1.items()
            }
        },
    }
}

/// Puts `tid` among the tags of what `tag` names.
pub fn apply_tag(
    effects: &mut AutoIndexTable<Effect>,
    groups: &mut AutoIndexTable<AbilityGroup>,
    tag: TagId,
    tid: EntityId,
)
    requires
        targetable((*old(effects), *old(groups))),
    ensures
        targetable((*final(effects), *final(groups))),
        final(effects).items().len() == old(effects).items().len(),
        final(groups).items().len() == old(groups).items().len(),
        tag_applied((*old(effects), *old(groups)), tag, tid, (*final(effects), *final(groups))),
{
    proof {
        reveal(tag_applied);
    }
    let ghost groups_before = *groups;
    match tag {
        TagId::Effect(id) => {
            match effects.get_mut(id) {
                Some(effect) => {
                    effect.tags.tag(tid);
                },
                None => {},
            }
        },
        TagId::AbilityGroup(id) => {
            match groups.get_mut(id) {
                Some(group) => {
                    group.tags.tag(tid);
                },
                None => {},
            }
            proof {
                assert forall|i: int| 0 <= i < groups.items().len() implies (
                #[trigger] groups.items()[i]).wf() by {
                    if i != id {
                        assert(groups.items()[i] == groups_before.items()[i]);
                    }
                }
            }
        },
    }
}

/// Applying one tag, as a step.
pub open spec fn tag_step(tid: EntityId) -> spec_fn(
    Targets,
    TagId,
    Result<Targets, BuildError>,
) -> bool {
    |now: Targets, tag: TagId, then: Result<Targets, BuildError>|
        then matches Ok(next) && tag_applied(now, tag, tid, next)
}

/// Puts `tid` among the tags of everything that `tags` names.
pub fn apply_tags(
    effects: &mut AutoIndexTable<Effect>,
    groups: &mut AutoIndexTable<AbilityGroup>,
    tags: &Vec<TagId>,
    tid: EntityId,
)
    requires
        targetable((*old(effects), *old(groups))),
    ensures
        targetable((*final(effects), *final(groups))),
        final(effects).items().len() == old(effects).items().len(),
        final(groups).items().len() == old(groups).items().len(),
        folded(
            tag_step(tid),
            (*old(effects), *old(groups)),
            tags@,
            Ok((*final(effects), *final(groups))),
        ),
{
    let ghost step = tag_step(tid);
    let ghost start: Targets = (*effects, *groups);
    let ghost mut states: Seq<Result<Targets, BuildError>> = seq![Ok(start)];
    proof {
        lemma_chain_starts(step, start, tags@);
    }
    let mut k: usize = 0;
    while k < tags.len()
        invariant
            k <= tags@.len(),
            step == tag_step(tid),
            start == (*old(effects), *old(groups)),
            targetable((*effects, *groups)),
            effects.items().len() == old(effects).items().len(),
            groups.items().len() == old(groups).items().len(),
            states.len() == k + 1,
            chained(step, start, tags@, states),
            states.last() == Ok::<Targets, BuildError>((*effects, *groups)),
        decreases tags@.len() - k,
    {
        let ghost now: Targets = (*effects, *groups);
        apply_tag(effects, groups, tags[k], tid);
        proof {
            let then: Result<Targets, BuildError> = Ok((*effects, *groups));
            lemma_chain_grows(step, start, tags@, states, now, then);
            states = states.push(then);
        }
        k = k + 1;
    }
    proof {
        lemma_chain_ends(step, start, tags@, states);
    }
}

/// Whether `after` is the ability `before` with the description `text`.
pub open spec fn ability_described(before: Ability, text: Seq<char>, after: Ability) -> bool {
    &&& after.group == before.group
    &&& after.core.short_description@ == text
    &&& after.core.id == before.core.id
    &&& after.core.ap_cost == before.core.ap_cost
    &&& after.core.name == before.core.name
    &&& after.core.activation_type == before.core.activation_type
    &&& after.core.level == before.core.level
    &&& after.core.cooldown == before.core.cooldown
    &&& after.core.nora_cost == before.core.nora_cost
    &&& after.core.icon_name == before.core.icon_name
}

/// The abilities with the tables that their descriptions can refer to.
pub type Described = (Table<Ability>, AutoIndexTable<Effect>, AutoIndexTable<AbilityGroup>);

/// Whether `after` is what rewriting the description of the ability in
/// `slot` makes of `before`: nothing where there is nothing to rewrite;
/// else the ability has the rewritten description, and what the
/// description refers to is tagged with the group of the ability.
#[verifier::opaque]
pub open spec fn ability_rewritten(before: Described, slot: int, after: Described) -> bool {
    let ability = before.0.items()[slot];
    let desc = ability.core.short_description@;
    match fixed(before.1, before.0, encode_utf8(desc), regex_captures(MARKERS@, desc)) {
        Some((text, tags)) => {
            &&& forall|id: Id| after.0.slot_of(id) == before.0.slot_of(id)
            &&& after.0.items() =~= before.0.items().update(slot, after.0.items()[slot])
            &&& ability_described(ability, text, after.0.items()[slot])
            &&& folded(
                tag_step(EntityId::AbilityGroup(ability.group)),
                (before.1, before.2),
                tags,
                Ok((after.1, after.2)),
            )
        },
        None => after == before,
    }
}

/// Rewriting the description of one ability, as a step.
pub open spec fn ability_step() -> spec_fn(Described, int, Result<Described, BuildError>) -> bool {
    |now: Described, slot: int, then: Result<Described, BuildError>|
        then matches Ok(next) && ability_rewritten(now, slot, next)
}

/// The numbers from zero up to `n`.
pub open spec fn slots(n: int) -> Seq<int> {
    Seq::new(n as nat, |i: int| i)
}

/// Rewrites the description of the ability in `slot`.
pub fn rewrite_ability(
    abilities: &mut Table<Ability>,
    effects: &mut AutoIndexTable<Effect>,
    groups: &mut AutoIndexTable<AbilityGroup>,
    slot: usize,
)
    requires
        old(abilities).wf(),
        targetable((*old(effects), *old(groups))),
        slot < old(abilities).items().len(),
    ensures
        final(abilities).wf(),
        targetable((*final(effects), *final(groups))),
        final(abilities).items().len() == old(abilities).items().len(),
        final(effects).items().len() == old(effects).items().len(),
        final(groups).items().len() == old(groups).items().len(),
        ability_rewritten(
            (*old(abilities), *old(effects), *old(groups)),
            slot as int,
            (*final(abilities), *final(effects), *final(groups)),
        ),
{
    proof {
        reveal(ability_rewritten);
    }
    let found = match abilities.at(slot) {
        Some(ability) => {
            let group: Id = ability.group;
            match fix_desc(effects, abilities, ability.core.short_description.as_str()) {
                Some(made) => Some((made, group)),
                None => None,
            }
        },
        None => None,
    };
    match found {
        Some((made, group)) => {
            match abilities.at_mut(slot) {
                Some(ability) => {
                    ability.core.short_description = made.text;
                },
                None => {},
            }
            apply_tags(effects, groups, &made.tags, EntityId::AbilityGroup(group));
        },
        None => {},
    }
}

/// Rewrites the descriptions of all abilities, in the order of their
/// slots.
pub fn rewrite_abilities(
    abilities: &mut Table<Ability>,
    effects: &mut AutoIndexTable<Effect>,
    groups: &mut AutoIndexTable<AbilityGroup>,
)
    requires
        old(abilities).wf(),
        targetable((*old(effects), *old(groups))),
    ensures
        final(abilities).wf(),
        targetable((*final(effects), *final(groups))),
        final(abilities).items().len() == old(abilities).items().len(),
        final(effects).items().len() == old(effects).items().len(),
        final(groups).items().len() == old(groups).items().len(),
        folded(
            ability_step(),
            (*old(abilities), *old(effects), *old(groups)),
            slots(old(abilities).items().len() as int),
            Ok((*final(abilities), *final(effects), *final(groups))),
        ),
{
    let n: usize = abilities.len();
    let ghost step = ability_step();
    let ghost start: Described = (*abilities, *effects, *groups);
    let ghost all = slots(n as int);
    let ghost mut states: Seq<Result<Described, BuildError>> = seq![Ok(start)];
    proof {
        lemma_chain_starts(step, start, all);
    }
    let mut slot: usize = 0;
    while slot < n
        invariant
            slot <= n,
            n == abilities.items().len(),
            n == old(abilities).items().len(),
            all == slots(n as int),
            step == ability_step(),
            start == (*old(abilities), *old(effects), *old(groups)),
            abilities.wf(),
            targetable((*effects, *groups)),
            effects.items().len() == old(effects).items().len(),
            groups.items().len() == old(groups).items().len(),
            states.len() == slot + 1,
            chained(step, start, all, states),
            states.last() == Ok::<Described, BuildError>((*abilities, *effects, *groups)),
        decreases n - slot,
    {
        let ghost now: Described = (*abilities, *effects, *groups);
        rewrite_ability(abilities, effects, groups, slot);
        proof {
            let then: Result<Described, BuildError> = Ok((*abilities, *effects, *groups));
            assert(all[slot as int] == slot);
            lemma_chain_grows(step, start, all, states, now, then);
            states = states.push(then);
        }
        slot = slot + 1;
    }
    proof {
        lemma_chain_ends(step, start, all, states);
    }
}

/// The runes of one kind with the tables that their descriptions can
/// refer to.
pub type Captioned<C> = (
    Table<Rune<C>>,
    AutoIndexTable<Effect>,
    AutoIndexTable<AbilityGroup>,
);

/// Whether `after` is the rune `before` with the description `text`.
pub open spec fn rune_described<C: RuneKind>(before: Rune<C>, text: Seq<char>, after: Rune<C>) -> bool {
    &&& before.core.described(text, after.core)
    &&& after.factions == before.factions
    &&& after.expansion == before.expansion
    &&& after.artist == before.artist
}

/// Whether `after` is what rewriting the description of the rune in `slot`
/// makes of `before`, with `abilities` for the abilities that the
/// description may name: nothing where there is nothing to rewrite; else
/// the rune has the rewritten description, and what the description refers
/// to is tagged with the rune.
#[verifier::opaque]
pub open spec fn rune_rewritten<C: RuneKind>(
    abilities: Table<Ability>,
    before: Captioned<C>,
    slot: int,
    after: Captioned<C>,
) -> bool {
    let rune = before.0.items()[slot];
    let desc = rune.core.spec_raw().description@;
    match fixed(before.1, abilities, encode_utf8(desc), regex_captures(MARKERS@, desc)) {
        Some((text, tags)) => {
            &&& forall|id: Id| after.0.slot_of(id) == before.0.slot_of(id)
            &&& after.0.items() =~= before.0.items().update(slot, after.0.items()[slot])
            &&& rune_described(rune, text, after.0.items()[slot])
            &&& folded(
                tag_step(C::entity(rune.core.spec_raw().id)),
                (before.1, before.2),
                tags,
                Ok((after.1, after.2)),
            )
        },
        None => after == before,
    }
}

/// Rewriting the description of one rune, as a step.
pub open spec fn rune_step<C: RuneKind>(abilities: Table<Ability>) -> spec_fn(
    Captioned<C>,
    int,
    Result<Captioned<C>, BuildError>,
) -> bool {
    |now: Captioned<C>, slot: int, then: Result<Captioned<C>, BuildError>|
        then matches Ok(next) && rune_rewritten(abilities, now, slot, next)
}

/// Rewrites the description of the rune in `slot`.
pub fn rewrite_rune<C: RuneKind>(
    runes: &mut Table<Rune<C>>,
    abilities: &Table<Ability>,
    effects: &mut AutoIndexTable<Effect>,
    groups: &mut AutoIndexTable<AbilityGroup>,
    slot: usize,
)
    requires
        old(runes).wf(),
        targetable((*old(effects), *old(groups))),
        slot < old(runes).items().len(),
        forall|i: int| 0 <= i < old(runes).items().len() ==> (#[trigger] old(runes).items()[i]).wf(),
    ensures
        final(runes).wf(),
        targetable((*final(effects), *final(groups))),
        final(runes).items().len() == old(runes).items().len(),
        final(effects).items().len() == old(effects).items().len(),
        final(groups).items().len() == old(groups).items().len(),
        forall|i: int|
            0 <= i < final(runes).items().len() ==> (#[trigger] final(runes).items()[i]).wf(),
        rune_rewritten(
            *abilities,
            (*old(runes), *old(effects), *old(groups)),
            slot as int,
            (*final(runes), *final(effects), *final(groups)),
        ),
{
    proof {
        reveal(rune_rewritten);
    }
    let ghost before = *runes;
    let found = match runes.at(slot) {
        Some(rune) => {
            let raw = rune.core.raw();
            let id: Id = raw.id;
            match fix_desc(effects, abilities, raw.description.as_str()) {
                Some(made) => Some((made, id)),
                None => None,
            }
        },
        None => None,
    };
    match found {
        Some((made, id)) => {
            match runes.at_mut(slot) {
                Some(rune) => {
                    rune.core.set_description(made.text);
                },
                None => {},
            }
            proof {
                assert forall|i: int| 0 <= i < runes.items().len() implies (
                #[trigger] runes.items()[i]).wf() by {
                    if i != slot {
                        assert(runes.items()[i] == before.items()[i]);
                    }
                }
            }
            apply_tags(effects, groups, &made.tags, C::entity_of(id));
        },
        None => {},
    }
}

/// Rewrites the descriptions of all runes of one kind, in the order of
/// their slots.
pub fn rewrite_runes<C: RuneKind>(
    runes: &mut Table<Rune<C>>,
    abilities: &Table<Ability>,
    effects: &mut AutoIndexTable<Effect>,
    groups: &mut AutoIndexTable<AbilityGroup>,
)
    requires
        old(runes).wf(),
        targetable((*old(effects), *old(groups))),
        forall|i: int| 0 <= i < old(runes).items().len() ==> (#[trigger] old(runes).items()[i]).wf(),
    ensures
        final(runes).wf(),
        targetable((*final(effects), *final(groups))),
        final(runes).items().len() == old(runes).items().len(),
        final(effects).items().len() == old(effects).items().len(),
        final(groups).items().len() == old(groups).items().len(),
        forall|i: int|
            0 <= i < final(runes).items().len() ==> (#[trigger] final(runes).items()[i]).wf(),
        folded(
            rune_step::<C>(*abilities),
            (*old(runes), *old(effects), *old(groups)),
            slots(old(runes).items().len() as int),
            Ok((*final(runes), *final(effects), *final(groups))),
        ),
{
    let n: usize = runes.len();
    let ghost step = rune_step::<C>(*abilities);
    let ghost start: Captioned<C> = (*runes, *effects, *groups);
    let ghost all = slots(n as int);
    let ghost mut states: Seq<Result<Captioned<C>, BuildError>> = seq![Ok(start)];
    proof {
        lemma_chain_starts(step, start, all);
    }
    let mut slot: usize = 0;
    while slot < n
        invariant
            slot <= n,
            n == runes.items().len(),
            n == old(runes).items().len(),
            all == slots(n as int),
            step == rune_step::<C>(*abilities),
            start == (*old(runes), *old(effects), *old(groups)),
            runes.wf(),
            targetable((*effects, *groups)),
            effects.items().len() == old(effects).items().len(),
            groups.items().len() == old(groups).items().len(),
            forall|i: int| 0 <= i < runes.items().len() ==> (#[trigger] runes.items()[i]).wf(),
            states.len() == slot + 1,
            chained(step, start, all, states),
            states.last() == Ok::<Captioned<C>, BuildError>((*runes, *effects, *groups)),
        decreases n - slot,
    {
        let ghost now: Captioned<C> = (*runes, *effects, *groups);
        rewrite_rune(runes, abilities, effects, groups, slot);
        proof {
            let then: Result<Captioned<C>, BuildError> = Ok((*runes, *effects, *groups));
            assert(all[slot as int] == slot);
            lemma_chain_grows(step, start, all, states, now, then);
            states = states.push(then);
        }
        slot = slot + 1;
    }
    proof {
        lemma_chain_ends(step, start, all, states);
    }
}

} // verus!
