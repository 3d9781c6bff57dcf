use arrayvec::ArrayString;
use poxbase::db::{SearchId, DB};
use poxbase::error::NotFound;
use poxbase::parser::{
    build, create_search_index, AbilitySet, Feed, FeedAbility, FeedChamp, FeedRune,
};
use poxbase::query::{
    ability_page, champion_page, effect_page, expansions, rune_page, suggestion, suggestions,
    typeahead,
};
use poxbase::types::{
    AbilityCore, ChampionCore, EntityId, Equip, Rarity, Relic, RuneRaw, Size, Spell,
};

fn raw_of(id: u32, name: &str, rarity: Rarity) -> RuneRaw {
    RuneRaw {
        id,
        name: String::from(name),
        description: String::new(),
        rarity,
        nora_cost: 50,
        for_sale: true,
        tradeable: true,
        allow_ranked: true,
        hash: ArrayString::from("0123456789abcdef0123456789abcdef01234567").unwrap(),
        deck_limit: 2,
    }
}

fn ability_of(id: u32, name: &str) -> AbilityCore {
    AbilityCore {
        id,
        ap_cost: 2,
        name: String::from(name),
        short_description: String::new(),
        activation_type: 1,
        level: 1,
        cooldown: 0,
        nora_cost: 3,
        icon_name: String::from("icon"),
    }
}

fn catalog() -> DB {
    let nine = FeedChamp {
        core: ChampionCore {
            raw: raw_of(5, "Nine Lives", Rarity::Legendary),
            max_rng: 1,
            min_rng: 1,
            defense: 1,
            speed: 6,
            damage: 10,
            hit_points: 40,
            size: Size::OneByOne,
        },
        classes: vec![String::from("Ranger"), String::from("Archer")],
        races: vec![String::from("Elf")],
        artist: String::from("Ann"),
        factions: vec![],
        rune_set: String::from("Ronin"),
        starting_abilities: vec![ability_of(30, "Attack"), ability_of(10, "Flight")],
        ability_sets: [
            AbilitySet {
                abilities: vec![
                    FeedAbility { core: ability_of(20, "Charge"), default: None },
                    FeedAbility { core: ability_of(21, "Charge"), default: Some(true) },
                ],
            },
            AbilitySet { abilities: vec![] },
        ],
    };
    let feed = Feed {
        champs: vec![nine],
        spells: vec![FeedRune {
            core: Spell { raw: raw_of(1, "Fireball", Rarity::Common), flavor_text: String::new(), cooldown: 3 },
            artist: String::from("Bob"),
            factions: vec![],
            rune_set: String::from("Base"),
        }],
        equips: vec![FeedRune {
            core: Equip { raw: raw_of(2, "Fire Axe", Rarity::Rare), flavor_text: String::new() },
            artist: String::from("Ann"),
            factions: vec![],
            rune_set: String::from("Base"),
        }],
        relics: vec![FeedRune {
            core: Relic {
                raw: raw_of(3, "Fire Pit", Rarity::Exotic),
                flavor_text: String::new(),
                defense: 0,
                hit_points: 20,
                size: Size::TwoByTwo,
            },
            artist: String::from("Cyd"),
            factions: vec![],
            rune_set: String::from("Ronin"),
        }],
    };
    let mut db = build(feed).unwrap();
    create_search_index(&mut db);
    db
}

fn named(sid: SearchId<'_>) -> String {
    format!("{:?}", sid)
}

#[test]
fn an_entity_is_suggested_with_its_name() {
    let db = catalog();
    let line = suggestion(&db, EntityId::Champion(5)).unwrap();
    assert_eq!(line.name, "Nine Lives");
    assert_eq!(named(line.sid), "Champion(5)");
    assert_eq!(line.rarity, Some(Rarity::Legendary));
    let line = suggestion(&db, EntityId::Spell(1)).unwrap();
    assert_eq!((line.name, named(line.sid), line.rarity), ("Fireball", String::from("Spell(1)"), Some(Rarity::Common)));
    let line = suggestion(&db, EntityId::Equip(2)).unwrap();
    assert_eq!((line.name, named(line.sid), line.rarity), ("Fire Axe", String::from("Equip(2)"), Some(Rarity::Rare)));
    let line = suggestion(&db, EntityId::Relic(3)).unwrap();
    assert_eq!((line.name, named(line.sid), line.rarity), ("Fire Pit", String::from("Relic(3)"), Some(Rarity::Exotic)));
    let line = suggestion(&db, EntityId::AbilityGroup(2)).unwrap();
    assert_eq!((line.name, named(line.sid), line.rarity), ("Charge", String::from("AbilityGroup(2)"), None));
    let line = suggestion(&db, EntityId::Effect(3)).unwrap();
    assert_eq!((line.name, named(line.sid), line.rarity), ("Fire", String::from("Damage(\"fire\")"), None));
    assert!(suggestion(&db, EntityId::Champion(4)).is_none());
    assert!(suggestion(&db, EntityId::Spell(5)).is_none());
    assert!(suggestion(&db, EntityId::AbilityGroup(3)).is_none());
    assert!(suggestion(&db, EntityId::Effect(10)).is_none());
}

#[test]
fn a_query_is_answered_with_the_best_ten() {
    let db = catalog();
    let names: Vec<&str> = typeahead(&db, "nine").iter().map(|line| line.name).collect();
    assert_eq!(names, vec!["Nine Lives"]);
    let mut names: Vec<&str> = typeahead(&db, "fire").iter().map(|line| line.name).collect();
    assert_eq!(names.pop(), Some("Fireball"));
    names.sort();
    assert_eq!(names, vec!["Fire", "Fire Axe", "Fire Pit"]);
    assert!(typeahead(&db, "zzz").is_empty());

    let ranked: Vec<(EntityId, i32)> = (0..20).map(|n| (EntityId::Effect(n % 12), 100 - n as i32)).collect();
    let lines = suggestions(&db, &ranked);
    // of the first ten, which name the effects 0 to 9, every one is held
    assert_eq!(lines.len(), 10);
    assert_eq!(lines[0].name, "Acid");
    assert_eq!(lines[9].name, "Sonic");
    let ranked = vec![(EntityId::Champion(4), 9), (EntityId::Champion(5), 8), (EntityId::Relic(9), 7)];
    let names: Vec<&str> = suggestions(&db, &ranked).iter().map(|line| line.name).collect();
    assert_eq!(names, vec!["Nine Lives"]);
}

#[test]
fn the_page_of_a_champion_holds_what_belongs_to_it() {
    let db = catalog();
    let page = champion_page(&db, 5).unwrap();
    assert_eq!(page.champion.core.raw.name, "Nine Lives");
    let abilities: Vec<u32> = page.abilities.iter().map(|ability| ability.core.id).collect();
    assert_eq!(abilities, vec![30, 10, 20, 21]);
    let classes: Vec<(u32, &str)> = page.classes.iter().map(|shim| (shim.id, shim.name)).collect();
    assert_eq!(classes, vec![(0, "Ranger"), (1, "Archer")]);
    let races: Vec<(u32, &str)> = page.races.iter().map(|shim| (shim.id, shim.name)).collect();
    assert_eq!(races, vec![(0, "Elf")]);
    assert_eq!((page.artist.id, page.artist.name), (0, "Ann"));
    assert_eq!(champion_page(&db, 4).err(), Some(NotFound));
}

#[test]
fn a_page_with_something_missing_is_not_found() {
    let mut db = catalog();
    db.champs.at_mut(0).unwrap().artist = 77;
    assert_eq!(champion_page(&db, 5).err(), Some(NotFound));
    db.champs.at_mut(0).unwrap().artist = 0;
    assert!(champion_page(&db, 5).is_ok());
    db.champs.at_mut(0).unwrap().starting_abilities.push(99);
    assert_eq!(champion_page(&db, 5).err(), Some(NotFound));
    db.champs.at_mut(0).unwrap().starting_abilities.pop();
    db.champs.at_mut(0).unwrap().races.push(5);
    assert_eq!(champion_page(&db, 5).err(), Some(NotFound));
    db.ability_groups.get_mut(2).unwrap().ranks.push(99);
    assert_eq!(ability_page(&db, 2).err(), Some(NotFound));
    db.spells.at_mut(0).unwrap().artist = u32::MAX;
    assert_eq!(rune_page(&db.spells, &db.artists, 1).err(), Some(NotFound));
}

#[test]
fn the_page_of_an_ability_holds_its_ranks() {
    let db = catalog();
    let page = ability_page(&db, 2).unwrap();
    assert_eq!(page.group.name, "Charge");
    let ranks: Vec<u32> = page.abilities.iter().map(|ability| ability.core.id).collect();
    assert_eq!(ranks, vec![20, 21]);
    assert_eq!(ability_page(&db, 3).err(), Some(NotFound));
}

#[test]
fn the_page_of_a_rune_holds_its_artist() {
    let db = catalog();
    let page = rune_page(&db.spells, &db.artists, 1).unwrap();
    assert_eq!((page.rune.core.raw.name.as_str(), page.artist.name), ("Fireball", "Bob"));
    let page = rune_page(&db.equips, &db.artists, 2).unwrap();
    assert_eq!((page.rune.core.raw.name.as_str(), page.artist.name), ("Fire Axe", "Ann"));
    let page = rune_page(&db.relics, &db.artists, 3).unwrap();
    assert_eq!((page.rune.core.raw.name.as_str(), page.artist.id), ("Fire Pit", 2));
    assert_eq!(rune_page(&db.relics, &db.artists, 1).err(), Some(NotFound));
    assert_eq!(NotFound.message(), "Not Found");
}

#[test]
fn an_effect_is_found_under_its_key() {
    let db = catalog();
    assert_eq!(effect_page(&db, "frost").unwrap().name, "Frost");
    assert_eq!(effect_page(&db, "Frost").err(), Some(NotFound));
    assert_eq!(effect_page(&db, "").err(), Some(NotFound));
}

#[test]
fn the_expansions_are_listed_in_the_order_of_their_ids() {
    let db = catalog();
    let listed: Vec<(u32, &str)> = expansions(&db).iter().map(|shim| (shim.id, shim.name)).collect();
    assert_eq!(listed, vec![(0, "Ronin"), (1, "Base")]);
}
