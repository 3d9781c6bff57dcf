use poxbase::db::{AutoIndexItem, AutoIndexTable, EnumId, EnumTable, Table, TableItem};
use poxbase::types::{Champion, Effect, EffectKind, EntityId, Faction, Group, Id, RuneSet};

#[derive(Debug, PartialEq, Eq, Clone, Copy)]
struct Thing {
    id: Id,
    weight: u32,
}

impl TableItem for Thing {
    fn spec_id(&self) -> Id {
        self.id
    }

    fn id(&self) -> Id {
        self.id
    }
}

#[test]
fn what_was_stored_is_found_until_the_end() {
    let mut table: Table<Thing> = Table::default();
    assert_eq!(table.get(3), None);
    table.entry(Thing { id: 3, weight: 30 });
    let ids = [7u32, 0, 100, 5, 3, 7, 1000];
    for id in ids {
        table.entry(Thing { id, weight: id * 10 });
        assert_eq!(table.get(3), Some(&Thing { id: 3, weight: 30 }));
        assert_eq!(table.slot(3), Some(0));
    }
    assert_eq!(table.len(), 6);
    assert_eq!(table.span(), 1001);
    assert_eq!(table.get(4), None);
    assert_eq!(table.get(1001), None);
    assert_eq!(table.get(u32::MAX), None);
}

#[test]
fn an_id_that_is_seen_again_keeps_its_item() {
    let mut table: Table<Thing> = Table::default();
    table.entry(Thing { id: 2, weight: 1 });
    let again = table.entry(Thing { id: 2, weight: 99 });
    assert_eq!(*again, Thing { id: 2, weight: 1 });
    again.weight = 5;
    assert_eq!(table.get(2), Some(&Thing { id: 2, weight: 5 }));
    assert_eq!(table.len(), 1);
}

#[test]
fn items_are_walked_in_the_order_of_insertion() {
    let mut table: Table<Thing> = Table::default();
    for id in [9u32, 2, 5] {
        table.entry(Thing { id, weight: 0 });
    }
    let seen: Vec<Id> = table.iter().map(|thing| thing.id).collect();
    assert_eq!(seen, vec![9, 2, 5]);
    let again: Vec<Id> = table.iter().map(|thing| thing.id).collect();
    assert_eq!(again, seen);
    assert_eq!(table.at(1), Some(&Thing { id: 2, weight: 0 }));
    assert_eq!(table.at(3), None);
    table.at_mut(2).unwrap().weight = 4;
    assert_eq!(table.get(5), Some(&Thing { id: 5, weight: 4 }));
    assert!(table.at_mut(3).is_none());
    assert_eq!(table.as_slice().len(), 3);
}

#[test]
fn keys_are_given_ids_in_the_order_in_which_they_are_seen() {
    let mut table: AutoIndexTable<RuneSet> = AutoIndexTable::default();
    assert_eq!(table.entry("Ronin").id, 0);
    assert_eq!(table.entry("Drums of War").id, 1);
    assert_eq!(table.entry("Ronin").id, 0);
    assert_eq!(table.entry("Path to Conquest").id, 2);
    assert_eq!(table.entry("Drums of War").id, 1);
    assert_eq!(table.len(), 3);
    assert_eq!(table.get(1).unwrap().name, "Drums of War");
    assert_eq!(table.get_by_key("Path to Conquest").unwrap().id, 2);
    assert!(table.get_by_key("path to conquest").is_none());
    assert!(table.get(3).is_none());
    assert!(table.get_mut(3).is_none());
    table.get_mut(0).unwrap().tag(EntityId::Spell(4));
    assert_eq!(table.get_by_key("Ronin").unwrap().tags.entities(), &[EntityId::Spell(4)]);
    let names: Vec<&str> = table.iter().map(|set| set.name.as_str()).collect();
    assert_eq!(names, vec!["Ronin", "Drums of War", "Path to Conquest"]);
}

#[test]
fn a_new_key_is_given_an_id_above_all() {
    let mut table: AutoIndexTable<Group<Champion>> = AutoIndexTable::default();
    let mut highest: Option<Id> = None;
    for key in ["Elf", "Human", "Elf", "Undead", "elf", "Human", "Beast"] {
        let known = table.get_by_key(key).map(|group| group.id);
        let id = table.entry(key).id;
        match known {
            Some(before) => assert_eq!(id, before),
            None => {
                assert!(highest.map_or(true, |top| id > top));
                highest = Some(id);
            }
        }
    }
    assert_eq!(highest, Some(4));
}

#[test]
fn effects_are_kept_under_keys_in_lower_case() {
    let mut table: AutoIndexTable<Effect> = AutoIndexTable::default();
    let fire = table.entry("Fire");
    assert_eq!(fire.id, 0);
    assert_eq!(fire.key.as_str(), "fire");
    assert_eq!(fire.kind, EffectKind::Other);
    assert_eq!(table.entry("FIRE").id, 0);
    assert_eq!(table.entry("fire").id, 0);
    assert_eq!(table.entry("Frost").id, 1);
    assert_eq!(table.get_by_key("fire").unwrap().id, 0);
    assert!(table.get_by_key("Fire").is_none());
    assert_eq!(Effect::make_key("ELECTRICITY \u{c9}"), "electricity \u{c9}");
    assert_eq!(Effect::normal_key("Electricity"), Some(String::from("electricity")));
    assert_eq!(Effect::normal_key("fifteen bytes!!"), Some(String::from("fifteen bytes!!")));
    assert_eq!(Effect::normal_key("sixteen bytes!!!"), None);
    assert_eq!(Effect::normal_key("\u{e9}\u{e9}\u{e9}\u{e9}\u{e9}\u{e9}\u{e9}\u{e9}"), None);
}

#[test]
fn every_faction_has_its_set() {
    let mut table: EnumTable<Faction> = EnumTable::default();
    for id in 0..8 {
        let faction = Faction::from_id(id).unwrap();
        assert_eq!(faction.id(), id);
        assert_eq!(Id::from(faction), id);
        assert_eq!(table.get(faction).id, id);
        assert_eq!(table.get(faction).name, faction);
        assert_eq!(table.get(faction).tags.len(), 0);
    }
    assert_eq!(Faction::from_id(8), None);
    assert_eq!(Faction::from_id(u32::MAX), None);
    table.entry(Faction::Underdepths).tag(EntityId::Champion(3));
    table.entry(Faction::Underdepths).tag(EntityId::Champion(1));
    assert_eq!(
        table.get(Faction::Underdepths).tags.entities(),
        &[EntityId::Champion(1), EntityId::Champion(3)]
    );
    assert_eq!(table.get(Faction::SavageTundra).tags.len(), 0);
}
