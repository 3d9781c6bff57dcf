use poxbase::types::{Ability, AbilityCore, AbilityGroup, EntityId, RuneSet, Tags};
use poxbase::db::AutoIndexItem;

#[test]
fn tags_are_kept_in_order() {
    let mut tags = Tags::default();
    tags.tag(EntityId::Spell(1));
    tags.tag(EntityId::Champion(9));
    tags.tag(EntityId::Effect(0));
    tags.tag(EntityId::Champion(2));
    tags.tag(EntityId::Relic(4));
    tags.tag(EntityId::AbilityGroup(3));
    tags.tag(EntityId::Equip(8));
    assert_eq!(
        tags.entities(),
        &[
            EntityId::Champion(2),
            EntityId::Champion(9),
            EntityId::Spell(1),
            EntityId::Equip(8),
            EntityId::Relic(4),
            EntityId::AbilityGroup(3),
            EntityId::Effect(0),
        ]
    );
}

#[test]
fn tagging_twice_changes_nothing() {
    let mut tags = Tags::default();
    tags.tag(EntityId::Spell(1)).tag(EntityId::Champion(9));
    let once: Vec<EntityId> = tags.entities().to_vec();
    tags.tag(EntityId::Spell(1));
    assert_eq!(tags.entities(), &once[..]);
    tags.tag(EntityId::Champion(9)).tag(EntityId::Champion(9));
    assert_eq!(tags.entities(), &once[..]);
    assert_eq!(tags.len(), 2);
}

#[test]
fn the_order_of_entities_is_that_of_their_keys() {
    let all = [
        EntityId::Champion(0),
        EntityId::Champion(u32::MAX),
        EntityId::Spell(0),
        EntityId::Equip(7),
        EntityId::Relic(7),
        EntityId::AbilityGroup(1),
        EntityId::Effect(u32::MAX),
    ];
    for (i, a) in all.iter().enumerate() {
        assert_eq!(EntityId::from_key(a.key()), Some(*a));
        for (j, b) in all.iter().enumerate() {
            assert_eq!(a.before(b), i < j);
            assert_eq!(a < b, i < j);
            assert_eq!(a.key() < b.key(), i < j);
        }
    }
    assert_eq!(EntityId::Spell(3).key(), (1u64 << 32) + 3);
    assert_eq!(EntityId::from_key(6u64 << 32), None);
    assert_eq!(EntityId::from_key(u64::MAX), None);
}

#[test]
fn ranks_of_a_group_are_kept_in_order_and_once() {
    let ability = |id: u32| {
        Ability::from(AbilityCore {
            id,
            ap_cost: 0,
            name: String::from("Charge"),
            short_description: String::new(),
            activation_type: 0,
            level: 1,
            cooldown: 0,
            nora_cost: 0,
            icon_name: String::new(),
        })
    };
    let mut group = AbilityGroup::create(4, String::from("Charge"));
    group.rank(&ability(30)).rank(&ability(10)).rank(&ability(20)).rank(&ability(10));
    assert_eq!(group.ranks, vec![10, 20, 30]);
    group.tag(EntityId::Champion(3)).tag(EntityId::Champion(3));
    assert_eq!(group.tags.entities(), &[EntityId::Champion(3)]);
    assert_eq!(group.shim().id, 4);
    assert_eq!(group.shim().name, "Charge");
}

#[test]
fn a_set_of_runes_is_tagged() {
    let mut set = RuneSet::create(2, String::from("Grimlic's Descent"));
    set.tag(EntityId::Relic(1)).tag(EntityId::Equip(1));
    assert_eq!(set.tags.entities(), &[EntityId::Equip(1), EntityId::Relic(1)]);
    assert_eq!(set.shim().id, 2);
    assert_eq!(set.shim().name, "Grimlic's Descent");
}
