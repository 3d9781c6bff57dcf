use poxbase::db::{AutoIndexTable, Table};
use poxbase::parser::rewrite::{fix_desc, splice, Issue, Patch, TagId};
use poxbase::parser::snapshot::seed_damage_types;
use poxbase::types::{Ability, AbilityCore, Effect};

fn effects() -> AutoIndexTable<Effect> {
    let mut effects = AutoIndexTable::default();
    seed_damage_types(&mut effects).unwrap();
    effects
}

fn ability(id: u32, name: &str) -> AbilityCore {
    AbilityCore {
        id,
        ap_cost: 2,
        name: String::from(name),
        short_description: String::new(),
        activation_type: 1,
        level: 1,
        cooldown: 0,
        nora_cost: 3,
        icon_name: String::from("icon"),
    }
}

fn abilities() -> Table<Ability> {
    let mut abilities: Table<Ability> = Table::default();
    abilities.entry(ability(7, "Flight")).group = 3;
    abilities.entry(ability(1200, "Charge")).group = 41;
    abilities.entry(ability(8, "Lost"));
    abilities
}

fn fixed(desc: &str) -> Option<(String, Vec<TagId>)> {
    fix_desc(&effects(), &abilities(), desc).map(|made| (made.text, made.tags))
}

fn issues(desc: &str) -> Vec<Option<Issue>> {
    match fix_desc(&effects(), &abilities(), desc) {
        Some(made) => made.patches.iter().map(|patch| patch.issue).collect(),
        None => Vec::new(),
    }
}

#[test]
fn a_description_without_mentions_is_left_alone() {
    assert_eq!(fixed(""), None);
    assert_eq!(fixed("This unit has +2 DEF."), None);
    assert_eq!(fixed("Fire and damage, but no Fire  damage"), None);
    assert_eq!(fixed("<b>bold</b> <ability>x</ability> fire damage"), None);
}

#[test]
fn a_damage_type_becomes_a_link_to_its_effect() {
    assert_eq!(
        fixed("Deals 5 Fire damage."),
        Some((String::from("Deals 5 [Fire](/effect/fire) damage."), vec![TagId::Effect(3)]))
    );
    assert_eq!(
        fixed("Physical attack"),
        Some((String::from("[Physical](/effect/physical) attack"), vec![TagId::Effect(6)]))
    );
    assert_eq!(
        fixed("Immune to Poison\tdamage and Sonic\u{a0}attack"),
        Some((
            String::from("Immune to [Poison](/effect/poison)\tdamage and [Sonic](/effect/sonic)\u{a0}attack"),
            vec![TagId::Effect(7), TagId::Effect(9)]
        ))
    );
}

#[test]
fn a_damage_type_that_the_catalog_does_not_hold_becomes_a_placeholder() {
    let none: AutoIndexTable<Effect> = AutoIndexTable::default();
    let made = fix_desc(&none, &abilities(), "Fire damage").unwrap();
    assert_eq!(made.text, "[Fire](*) damage");
    assert_eq!(made.tags, vec![]);
    assert_eq!(made.patches.len(), 1);
    assert_eq!(made.patches[0].issue, Some(Issue::UnknownDamage));
}

#[test]
fn a_marker_of_an_ability_becomes_a_link_to_its_group() {
    assert_eq!(
        fixed("Gains <ability value=7>Flight</ability>."),
        Some((String::from("Gains [Flight](/ability/3)."), vec![TagId::AbilityGroup(3)]))
    );
    assert_eq!(
        fixed("<ability name=x value=1200 rank=2>Charge 2</ability>"),
        Some((String::from("[Charge 2](/ability/41)"), vec![TagId::AbilityGroup(41)]))
    );
    assert_eq!(
        fixed("<ability value=+7>F</ability>"),
        Some((String::from("[F](/ability/3)"), vec![TagId::AbilityGroup(3)]))
    );
    assert_eq!(issues("<ability value=7>Flight</ability>"), vec![None]);
}

#[test]
fn a_marker_that_leads_nowhere_becomes_a_placeholder() {
    // an ability that the catalog does not hold
    assert_eq!(fixed("<ability value=9>Nothing</ability>"), Some((String::from("[Nothing](*)"), vec![])));
    assert_eq!(issues("<ability value=9>Nothing</ability>"), vec![Some(Issue::UnknownAbility)]);
    // an ability without a group
    assert_eq!(fixed("<ability value=8>Lost</ability>"), Some((String::from("[Lost](*)"), vec![])));
    assert_eq!(issues("<ability value=8>Lost</ability>"), vec![Some(Issue::UnknownAbility)]);
    // no value
    assert_eq!(fixed("<ability id=7>Flight</ability>"), Some((String::from("[Flight](*)"), vec![])));
    assert_eq!(issues("<ability id=7>Flight</ability>"), vec![Some(Issue::MissingValue)]);
    // a value that is no number
    assert_eq!(fixed("<ability value=seven>Flight</ability>"), Some((String::from("[Flight](*)"), vec![])));
    assert_eq!(issues("<ability value=seven>Flight</ability>"), vec![Some(Issue::InvalidValue)]);
    assert_eq!(issues("<ability value=4294967296>Flight</ability>"), vec![Some(Issue::InvalidValue)]);
    // closed as another kind
    assert_eq!(fixed("<ability value=7>Flight</condition>"), Some((String::from("[Flight](*)"), vec![])));
    assert_eq!(issues("<ability value=7>Flight</condition>"), vec![Some(Issue::MismatchedClose)]);
}

#[test]
fn conditions_and_mechanics_become_placeholders() {
    assert_eq!(
        fixed("Is <condition value=stunned>Stunned</condition> by <mechanic value=fire>Fire</mechanic>."),
        Some((String::from("Is [Stunned](*) by [Fire](*)."), vec![]))
    );
    assert_eq!(
        issues("<condition value=stunned>Stunned</condition><mechanic value=7>M</mechanic>"),
        vec![None, None]
    );
}

#[test]
fn every_mention_of_a_description_is_rewritten() {
    let desc = "\u{201c}<ability value=7>Flight</ability>\u{201d} \u{2014} Frost damage, \
                <ability value=0>Gone</ability>, Acid attack, <ability value=1200>Charge</ability>\u{2026}";
    assert_eq!(
        fixed(desc),
        Some((
            String::from(
                "\u{201c}[Flight](/ability/3)\u{201d} \u{2014} [Frost](/effect/frost) damage, \
                 [Gone](*), [Acid](/effect/acid) attack, [Charge](/ability/41)\u{2026}"
            ),
            vec![
                TagId::AbilityGroup(3),
                TagId::Effect(4),
                TagId::Effect(0),
                TagId::AbilityGroup(41),
            ]
        ))
    );
}

#[test]
fn a_damage_type_inside_a_marker_belongs_to_the_marker() {
    assert_eq!(
        fixed("<ability value=7>Fire damage</ability>"),
        Some((String::from("[Fire damage](/ability/3)"), vec![TagId::AbilityGroup(3)]))
    );
}

#[test]
fn patches_are_spliced_into_the_text() {
    let patch = |start: usize, end: usize, link: &str| Patch {
        start,
        end,
        link: String::from(link),
        tag: None,
        issue: None,
    };
    assert_eq!(splice("abcdef", &vec![]), "abcdef");
    assert_eq!(splice("abcdef", &vec![patch(0, 0, "<"), patch(6, 6, ">")]), "<abcdef>");
    assert_eq!(splice("abcdef", &vec![patch(1, 3, "X"), patch(3, 5, "")]), "aXf");
    assert_eq!(splice("a\u{e9}b", &vec![patch(1, 3, "e")]), "aeb");
}
