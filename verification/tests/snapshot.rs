use arrayvec::ArrayString;
use poxbase::db::DB;
use poxbase::parser::{
    build, create_search_index, AbilitySet, BuildError, Feed, FeedAbility, FeedChamp, FeedRune,
};
use poxbase::types::{
    AbilityCore, ChampionCore, EffectKind, EntityId, Equip, Faction, Rarity, Relic, RuneRaw, Size,
    Spell,
};

fn raw(id: u32, name: &str, description: &str) -> RuneRaw {
    RuneRaw {
        id,
        name: String::from(name),
        description: String::from(description),
        rarity: Rarity::Rare,
        nora_cost: 50,
        for_sale: true,
        tradeable: true,
        allow_ranked: true,
        hash: ArrayString::from("0123456789abcdef0123456789abcdef01234567").unwrap(),
        deck_limit: 2,
    }
}

fn ability(id: u32, name: &str, description: &str) -> AbilityCore {
    AbilityCore {
        id,
        ap_cost: 2,
        name: String::from(name),
        short_description: String::from(description),
        activation_type: 1,
        level: 1,
        cooldown: 0,
        nora_cost: 3,
        icon_name: String::from("icon"),
    }
}

fn champ(id: u32, name: &str) -> FeedChamp {
    FeedChamp {
        core: ChampionCore {
            raw: raw(id, name, ""),
            max_rng: 1,
            min_rng: 1,
            defense: 1,
            speed: 6,
            damage: 10,
            hit_points: 40,
            size: Size::OneByOne,
        },
        classes: vec![],
        races: vec![],
        artist: String::from("Somebody"),
        factions: vec![],
        rune_set: String::from("Base"),
        starting_abilities: vec![],
        ability_sets: [AbilitySet { abilities: vec![] }, AbilitySet { abilities: vec![] }],
    }
}

fn spell(id: u32, name: &str, description: &str) -> FeedRune<Spell> {
    FeedRune {
        core: Spell { raw: raw(id, name, description), flavor_text: String::new(), cooldown: 3 },
        artist: String::from("Somebody"),
        factions: vec![],
        rune_set: String::from("Base"),
    }
}

fn equip(id: u32, name: &str, description: &str) -> FeedRune<Equip> {
    FeedRune {
        core: Equip { raw: raw(id, name, description), flavor_text: String::new() },
        artist: String::from("Somebody Else"),
        factions: vec![],
        rune_set: String::from("Base"),
    }
}

fn relic(id: u32, name: &str, description: &str) -> FeedRune<Relic> {
    FeedRune {
        core: Relic {
            raw: raw(id, name, description),
            flavor_text: String::new(),
            defense: 0,
            hit_points: 20,
            size: Size::TwoByTwo,
        },
        artist: String::from("Somebody"),
        factions: vec![],
        rune_set: String::from("Expanded"),
    }
}

fn empty() -> Feed {
    Feed { champs: vec![], spells: vec![], equips: vec![], relics: vec![] }
}

fn built(feed: Feed) -> DB {
    let mut db = build(feed).unwrap();
    create_search_index(&mut db);
    db
}

#[test]
fn every_snapshot_holds_the_damage_types() {
    let db = build(empty()).unwrap();
    let names = [
        "Acid", "Disease", "Electricity", "Fire", "Frost", "Magical", "Physical", "Poison",
        "Psychic", "Sonic",
    ];
    assert_eq!(db.effects.len(), 10);
    for (id, name) in names.iter().enumerate() {
        let effect = db.effects.get(id as u32).unwrap();
        assert_eq!(effect.id, id as u32);
        assert_eq!(effect.name, *name);
        assert_eq!(effect.key.as_str(), name.to_lowercase());
        assert_eq!(effect.desc, format!("{} damage type.", name));
        assert_eq!(effect.kind, EffectKind::Damage);
        assert_eq!(db.effects.get_by_key(&name.to_lowercase()).unwrap().id, id as u32);
    }
    assert_eq!(db.champs.len(), 0);
    assert_eq!(db.search.len(), 0);
}

#[test]
fn a_champion_is_linked_to_what_it_names() {
    let mut feed = empty();
    let mut nine = champ(5, "Nine");
    nine.classes = vec![String::from("Ranger"), String::from("Archer")];
    nine.races = vec![String::from("Elf")];
    nine.factions = vec![Faction::KthirForest, Faction::SavageTundra, Faction::Underdepths];
    nine.artist = String::from("Ann");
    nine.rune_set = String::from("Ronin");
    nine.starting_abilities = vec![ability(30, "Attack: Physical", ""), ability(10, "Flight", "")];
    nine.ability_sets = [
        AbilitySet {
            abilities: vec![
                FeedAbility { core: ability(20, "Charge", ""), default: None },
                FeedAbility { core: ability(21, "Charge", ""), default: Some(true) },
                FeedAbility { core: ability(22, "Charge", ""), default: Some(false) },
            ],
        },
        AbilitySet {
            abilities: vec![FeedAbility { core: ability(10, "Flight", ""), default: Some(true) }],
        },
    ];
    feed.champs.push(nine);
    let mut other = champ(2, "Two");
    other.classes = vec![String::from("Archer")];
    other.starting_abilities = vec![ability(21, "Charge", "")];
    feed.champs.push(other);
    let db = build(feed).unwrap();

    // the champion with the smaller Id is taken in first
    assert_eq!(db.champs.at(0).unwrap().core.raw.name, "Two");
    assert_eq!(db.classes.get_by_key("Archer").unwrap().id, 0);
    assert_eq!(db.classes.get_by_key("Archer").unwrap().ids, vec![2, 5]);
    assert_eq!(db.classes.get_by_key("Ranger").unwrap().ids, vec![5]);
    assert_eq!(db.races.get_by_key("Elf").unwrap().ids, vec![5]);

    let nine = db.champs.get(5).unwrap();
    assert_eq!(nine.starting_abilities.as_slice(), &[30, 10]);
    assert_eq!(nine.ability_sets[0].as_slice(), &[20, 21, 22]);
    assert_eq!(nine.ability_sets[1].as_slice(), &[10]);
    assert_eq!(nine.defaults, [21, 10]);
    assert_eq!(nine.classes.as_slice(), &[1, 0]);
    assert_eq!(nine.races.as_slice(), &[0]);
    assert_eq!(nine.factions.as_slice(), &[Faction::KthirForest, Faction::SavageTundra]);
    assert_eq!(db.artists.get(nine.artist).unwrap().name, "Ann");
    assert_eq!(db.expansions.get(nine.expansion).unwrap().name, "Ronin");
    assert_eq!(db.expansions.get(nine.expansion).unwrap().tags.entities(), &[EntityId::Champion(5)]);
    assert_eq!(db.factions.get(Faction::KthirForest).tags.entities(), &[EntityId::Champion(5)]);
    assert_eq!(db.factions.get(Faction::Underdepths).tags.len(), 0);

    let two = db.champs.get(2).unwrap();
    assert_eq!(two.defaults, [u32::MAX, u32::MAX]);
    assert_eq!(two.starting_abilities.as_slice(), &[21]);

    let charge = db.ability_groups.get_by_key("Charge").unwrap();
    assert_eq!(charge.id, 0);
    assert_eq!(charge.ranks, vec![20, 21, 22]);
    assert_eq!(charge.tags.entities(), &[EntityId::Champion(2), EntityId::Champion(5)]);
    let flight = db.ability_groups.get_by_key("Flight").unwrap();
    assert_eq!(flight.ranks, vec![10]);
    assert_eq!(db.abilities.get(10).unwrap().group, flight.id);
    assert_eq!(db.abilities.get(21).unwrap().group, 0);
    assert_eq!(db.abilities.len(), 5);
}

#[test]
fn runes_are_taken_in_in_the_order_of_their_ids() {
    let mut feed = empty();
    for id in [9u32, 3, 7, 1] {
        let mut entry = spell(id, "Spell", "");
        entry.factions = vec![Faction::ForglarSwamp];
        feed.spells.push(entry);
        feed.equips.push(equip(id + 100, "Equip", ""));
        feed.relics.push(relic(id * 2, "Relic", ""));
    }
    let db = build(feed).unwrap();
    let spells: Vec<u32> = db.spells.iter().map(|rune| rune.core.raw.id).collect();
    assert_eq!(spells, vec![1, 3, 7, 9]);
    let equips: Vec<u32> = db.equips.iter().map(|rune| rune.core.raw.id).collect();
    assert_eq!(equips, vec![101, 103, 107, 109]);
    let relics: Vec<u32> = db.relics.iter().map(|rune| rune.core.raw.id).collect();
    assert_eq!(relics, vec![2, 6, 14, 18]);
    assert_eq!(
        db.factions.get(Faction::ForglarSwamp).tags.entities(),
        &[EntityId::Spell(1), EntityId::Spell(3), EntityId::Spell(7), EntityId::Spell(9)]
    );
    assert_eq!(db.artists.get_by_key("Somebody").unwrap().tags.len(), 8);
    assert_eq!(db.artists.get_by_key("Somebody Else").unwrap().tags.len(), 4);
    assert_eq!(db.expansions.get_by_key("Expanded").unwrap().id, 1);
    assert_eq!(db.spells.get(7).unwrap().factions.as_slice(), &[Faction::ForglarSwamp]);
    assert_eq!(db.spells.get(7).unwrap().expansion, 0);
}

#[test]
fn descriptions_are_rewritten_and_what_they_name_is_tagged() {
    let mut feed = empty();
    let mut nine = champ(5, "Nine");
    nine.starting_abilities = vec![
        ability(10, "Flight", "Flies. See <ability value=11>Charge</ability>."),
        ability(11, "Charge", "Deals Fire damage."),
    ];
    feed.champs.push(nine);
    feed.spells.push(spell(3, "Fireball", "Deals 10 Fire damage. Grants <ability value=10>Flight</ability>."));
    feed.relics.push(relic(4, "Stone", "Nothing to see."));
    let db = build(feed).unwrap();

    let flight = db.ability_groups.get_by_key("Flight").unwrap();
    let charge = db.ability_groups.get_by_key("Charge").unwrap();
    assert_eq!(
        db.abilities.get(10).unwrap().core.short_description,
        format!("Flies. See [Charge](/ability/{}).", charge.id)
    );
    assert_eq!(db.abilities.get(11).unwrap().core.short_description, "Deals [Fire](/effect/fire) damage.");
    assert_eq!(
        db.spells.get(3).unwrap().core.raw.description,
        format!("Deals 10 [Fire](/effect/fire) damage. Grants [Flight](/ability/{}).", flight.id)
    );
    assert_eq!(db.relics.get(4).unwrap().core.raw.description, "Nothing to see.");
    // a group is tagged by the champion that has it and by what names it
    assert_eq!(
        charge.tags.entities(),
        &[EntityId::Champion(5), EntityId::AbilityGroup(flight.id)]
    );
    assert_eq!(flight.tags.entities(), &[EntityId::Champion(5), EntityId::Spell(3)]);
    assert_eq!(
        db.effects.get_by_key("fire").unwrap().tags.entities(),
        &[EntityId::Spell(3), EntityId::AbilityGroup(charge.id)]
    );
}

#[test]
fn a_malformed_marker_does_not_stop_the_building() {
    let mut feed = empty();
    feed.champs.push(champ(5, "Nine"));
    feed.spells.push(spell(1, "Broken", "Grants <ability value=404>Nothing</ability> and <ability>\
        </ability> and <ability value=x>Y</mechanic>."));
    feed.spells.push(spell(2, "Whole", "Deals Frost damage."));
    let db = built(feed);

    assert_eq!(
        db.spells.get(1).unwrap().core.raw.description,
        "Grants [Nothing](*) and <ability></ability> and [Y](*)."
    );
    assert_eq!(db.spells.get(2).unwrap().core.raw.description, "Deals [Frost](/effect/frost) damage.");
    for group in db.ability_groups.iter() {
        assert!(!group.tags.entities().contains(&EntityId::Spell(1)));
    }
    for effect in db.effects.iter() {
        assert!(!effect.tags.entities().contains(&EntityId::Spell(1)));
    }
    assert_eq!(db.effects.get_by_key("frost").unwrap().tags.entities(), &[EntityId::Spell(2)]);
    // the snapshot is whole: everything is stored and can be found
    assert_eq!(db.champs.len(), 1);
    assert_eq!(db.spells.len(), 2);
    assert_eq!(db.search.find("broken"), vec![(EntityId::Spell(1), 55)]);
    assert_eq!(db.search.find("whole"), vec![(EntityId::Spell(2), 47)]);
}

#[test]
fn a_champion_is_found_by_the_start_of_its_name() {
    let mut feed = empty();
    feed.champs.push(champ(5, "Nine"));
    let db = built(feed);
    let found = db.search.find("nin");
    assert!(found.contains(&(EntityId::Champion(5), 30)));
    assert_eq!(found, vec![(EntityId::Champion(5), 30)]);
    assert_eq!(db.search.find("zzz"), vec![]);
}

#[test]
fn the_index_holds_the_names_of_all_kinds() {
    let mut feed = empty();
    let mut nine = champ(5, "Nine Lives");
    nine.starting_abilities = vec![ability(10, "Flight", "")];
    feed.champs.push(nine);
    feed.spells.push(spell(1, "Fireball", ""));
    feed.equips.push(equip(2, "Fire Axe", ""));
    feed.relics.push(relic(3, "Fire Pit", ""));
    let db = built(feed);
    // two words of the champion, one of the spell, two and two, one of the group,
    // and one for each of the ten damage types
    assert_eq!(db.search.len(), 2 + 1 + 2 + 2 + 1 + 10);
    // three exact matches, in an order on which nothing is promised, and a longer word
    let mut found = db.search.find("fire");
    assert_eq!(found.pop(), Some((EntityId::Spell(1), 35)));
    found.sort();
    assert_eq!(
        found,
        vec![(EntityId::Equip(2), 39), (EntityId::Relic(3), 39), (EntityId::Effect(3), 39)]
    );
    assert_eq!(db.search.find("flight"), vec![(EntityId::AbilityGroup(0), 55)]);
    assert_eq!(db.search.find("lives"), vec![(EntityId::Champion(5), 46)]);
}

#[test]
fn a_list_that_is_full_ends_the_building() {
    let full = |n: u32| -> Vec<AbilityCore> { (0..n).map(|id| ability(id, "A", "")).collect() };
    let mut feed = empty();
    let mut nine = champ(5, "Nine");
    nine.starting_abilities = full(8);
    feed.champs.push(nine);
    assert!(build(feed).is_ok());

    let mut feed = empty();
    let mut nine = champ(5, "Nine");
    nine.starting_abilities = full(9);
    feed.champs.push(nine);
    assert_eq!(build(feed).err(), Some(BuildError::CapacityViolation));

    let mut feed = empty();
    let mut nine = champ(5, "Nine");
    nine.ability_sets[1].abilities =
        full(5).into_iter().map(|core| FeedAbility { core, default: None }).collect();
    feed.champs.push(nine);
    assert_eq!(build(feed).err(), Some(BuildError::CapacityViolation));

    let mut feed = empty();
    let mut nine = champ(5, "Nine");
    nine.races = (0..7).map(|n| format!("Race {}", n)).collect();
    feed.champs.push(nine);
    assert_eq!(build(feed).err(), Some(BuildError::CapacityViolation));

    let mut feed = empty();
    let mut axe = equip(1, "Axe", "");
    axe.factions = vec![Faction::Underdepths, Faction::SunderedLands, Faction::ShatteredPeaks];
    feed.equips.push(axe);
    assert_eq!(build(feed).err(), Some(BuildError::CapacityViolation));

    // an entry with the same Id adds to what the first one brought
    let mut feed = empty();
    for _ in 0..2 {
        let mut nine = champ(5, "Nine");
        nine.classes = (0..4).map(|n| format!("Class {}", n)).collect();
        feed.champs.push(nine);
    }
    assert_eq!(build(feed).err(), Some(BuildError::CapacityViolation));
}

#[test]
fn entries_with_the_same_id_are_one_entity() {
    let mut feed = empty();
    let mut first = champ(5, "Nine");
    first.classes = vec![String::from("Ranger")];
    first.factions = vec![Faction::KthirForest];
    let mut second = champ(5, "Nine");
    second.classes = vec![String::from("Archer")];
    second.factions = vec![Faction::SavageTundra];
    feed.champs.push(first);
    feed.champs.push(second);
    let db = build(feed).unwrap();
    assert_eq!(db.champs.len(), 1);
    let nine = db.champs.get(5).unwrap();
    assert_eq!(nine.classes.len(), 2);
    assert_eq!(nine.factions.len(), 2);
    assert_eq!(db.factions.get(Faction::KthirForest).tags.entities(), &[EntityId::Champion(5)]);
    assert_eq!(db.factions.get(Faction::SavageTundra).tags.entities(), &[EntityId::Champion(5)]);
}
