use arrayvec::ArrayString;
use poxbase::db::SearchIndex;
use poxbase::types::EntityId;

fn word(text: &str) -> ArrayString<15> {
    ArrayString::from(text).unwrap()
}

#[test]
fn split_words() {
    let split = SearchIndex::split_words("Hello W'orld!");

    assert_eq!(&split, &[word("hello"), word("world")]);
}

#[test]
fn split_words_of_nothing() {
    assert!(SearchIndex::split_words("").is_empty());
    assert!(SearchIndex::split_words(" \t\r\n\x0c ").is_empty());
}

#[test]
fn split_words_drops_tokens_without_letters() {
    assert_eq!(SearchIndex::split_words("!!! a 42 b"), vec![word("a"), word("b")]);
}

#[test]
fn split_words_keeps_fifteen_letters() {
    let split = SearchIndex::split_words("Abcdefghijklmnopqrstuvwxyz1");
    assert_eq!(split, vec![word("abcdefghijklmno")]);
    let split = SearchIndex::split_words("a1b2c3d4e5f6g7h8i9j0k1l2m3n4o5p6");
    assert_eq!(split, vec![word("abcdefghijklmno")]);
}

#[test]
fn split_words_drops_what_is_not_ascii() {
    assert_eq!(SearchIndex::split_words("\u{dc}n\u{ef}c\u{f6}d\u{e9} R2-D2"), vec![word("ncd"), word("rd")]);
    assert_eq!(SearchIndex::split_words("\u{e9}\u{e9}"), Vec::<ArrayString<15>>::new());
}

#[test]
fn split_words_splits_at_every_ascii_whitespace() {
    assert_eq!(
        SearchIndex::split_words("a\tb\nc\rd\x0ce f"),
        vec![word("a"), word("b"), word("c"), word("d"), word("e"), word("f")]
    );
    // a vertical tab and a no-break space are no ASCII whitespace
    assert_eq!(SearchIndex::split_words("a\x0bb"), vec![word("ab")]);
    assert_eq!(SearchIndex::split_words("a\u{a0}b"), vec![word("ab")]);
}

#[test]
fn insert_adds_a_posting_for_every_word() {
    let mut index = SearchIndex::default();
    assert_eq!(index.len(), 0);
    index.insert("Serkan the Mad", EntityId::Champion(1));
    assert_eq!(index.len(), 3);
    index.insert("!!!", EntityId::Champion(2));
    assert_eq!(index.len(), 3);
    index.insert("Mad Serkan", EntityId::Spell(1));
    assert_eq!(index.len(), 5);
}

#[test]
fn the_size_of_the_index_grows_with_every_posting() {
    let mut index = SearchIndex::default();
    assert_eq!(index.size(), 0);
    index.insert("One", EntityId::Champion(1));
    let one = index.size();
    assert!(one >= 15 + 4 + 4);
    index.insert("Two Three", EntityId::Champion(2));
    assert_eq!(index.size(), 3 * one);
}

#[test]
fn find_scores_an_exact_word() {
    let mut index = SearchIndex::default();
    index.insert("Nine", EntityId::Champion(5));
    assert_eq!(index.find("nine"), vec![(EntityId::Champion(5), 8 * 4 + 7)]);
    assert_eq!(index.find("NINE!"), vec![(EntityId::Champion(5), 39)]);
}

#[test]
fn find_scores_a_prefix_lower() {
    let mut index = SearchIndex::default();
    index.insert("Nine", EntityId::Champion(5));
    // three bytes, the bonus, one byte more in the index
    assert_eq!(index.find("nin"), vec![(EntityId::Champion(5), 8 * 3 + 7 - 1)]);
    assert_eq!(index.find("n"), vec![(EntityId::Champion(5), 8 + 7 - 3)]);
}

#[test]
fn find_caps_the_penalty_for_length_at_four() {
    let mut index = SearchIndex::default();
    index.insert("Electricity", EntityId::Effect(2));
    assert_eq!(index.find("elect"), vec![(EntityId::Effect(2), 8 * 5 + 7 - 4)]);
    assert_eq!(index.find("e"), vec![(EntityId::Effect(2), 8 + 7 - 4)]);
    assert_eq!(index.find("electr"), vec![(EntityId::Effect(2), 8 * 6 + 7 - 4)]);
    assert_eq!(index.find("electrici"), vec![(EntityId::Effect(2), 8 * 9 + 7 - 2)]);
}

#[test]
fn find_takes_the_distance_of_the_places_off() {
    let mut index = SearchIndex::default();
    index.insert("Lord of Fire", EntityId::Spell(1));
    // "fire" is the third word of the name and the first of the query
    assert_eq!(index.find("fire"), vec![(EntityId::Spell(1), 8 * 4 + 7 - 2)]);
    assert_eq!(index.find("of"), vec![(EntityId::Spell(1), 8 * 2 + 7 - 1)]);
    assert_eq!(index.find("lord of fire"), vec![(EntityId::Spell(1), 39 + 23 + 39)]);
    // in the other order every word is one or two places off
    assert_eq!(index.find("fire of lord"), vec![(EntityId::Spell(1), 37 + 23 + 37)]);
}

#[test]
fn find_wants_every_word_of_the_query() {
    let mut index = SearchIndex::default();
    index.insert("Fire", EntityId::Spell(1));
    // 39 for "fire" is less than eight for each of seven bytes
    assert_eq!(index.find("fire zzz"), vec![]);
    assert_eq!(index.find("zzz"), vec![]);
    assert_eq!(index.find(""), vec![]);
    assert_eq!(index.find("?!"), vec![]);
}

#[test]
fn find_takes_the_best_posting_of_an_entity_for_each_word() {
    let mut index = SearchIndex::default();
    index.insert("Fire Firewall Fire", EntityId::Spell(3));
    // 39 for the first word, 34 for the second, 37 for the third: the best counts
    assert_eq!(index.find("fire"), vec![(EntityId::Spell(3), 39)]);
    // for the second word of the query "firewall" is the best: 8 * 8 + 7
    assert_eq!(index.find("fire firewall"), vec![(EntityId::Spell(3), 39 + 71)]);
}

#[test]
fn find_counts_the_best_posting_once_whatever_the_order() {
    let mut index = SearchIndex::default();
    index.insert("Fire Fire Fire", EntityId::Spell(3));
    index.insert("Fire Fire Fire Fire Fire", EntityId::Spell(4));
    let mut found = index.find("fire");
    found.sort();
    assert_eq!(found, vec![(EntityId::Spell(3), 39), (EntityId::Spell(4), 39)]);
    let mut found = index.find("zzz fire");
    found.sort();
    // the second word of the query is the second word of both names: 39 again, under the threshold of 56
    assert_eq!(found, vec![]);
    let mut found = index.find("f fire");
    found.sort();
    // 8 + 7 - 3 for "f" at the first place, 39 for "fire" at the second
    assert_eq!(found, vec![(EntityId::Spell(3), 51), (EntityId::Spell(4), 51)]);
}

#[test]
fn find_ranks_by_total() {
    let mut index = SearchIndex::default();
    index.insert("Firestorm", EntityId::Spell(2));
    index.insert("Fire", EntityId::Spell(1));
    index.insert("Firefly", EntityId::Champion(7));
    index.insert("Water", EntityId::Spell(9));
    assert_eq!(
        index.find("fire"),
        vec![
            (EntityId::Spell(1), 39),
            (EntityId::Champion(7), 36),
            (EntityId::Spell(2), 35),
        ]
    );
}

#[test]
fn find_holds_entities_of_all_kinds_apart() {
    let mut index = SearchIndex::default();
    index.insert("Acid", EntityId::Champion(1));
    index.insert("Acid", EntityId::Spell(1));
    index.insert("Acid", EntityId::Equip(1));
    index.insert("Acid", EntityId::Relic(1));
    index.insert("Acid", EntityId::AbilityGroup(1));
    index.insert("Acid", EntityId::Effect(1));
    let mut found = index.find("acid");
    found.sort();
    assert_eq!(
        found,
        vec![
            (EntityId::Champion(1), 39),
            (EntityId::Spell(1), 39),
            (EntityId::Equip(1), 39),
            (EntityId::Relic(1), 39),
            (EntityId::AbilityGroup(1), 39),
            (EntityId::Effect(1), 39),
        ]
    );
}

#[test]
fn find_reads_ten_words_of_a_query() {
    let mut index = SearchIndex::default();
    index.insert("a b c d e f g h i j k", EntityId::Champion(1));
    // ten words of one byte, each in its place: fifteen each
    assert_eq!(index.find("a b c d e f g h i j"), vec![(EntityId::Champion(1), 150)]);
    // the eleventh word is not read, so it is not missed either
    assert_eq!(index.find("a b c d e f g h i j zzz"), vec![(EntityId::Champion(1), 150)]);
}

#[test]
fn an_exact_name_comes_first() {
    let mut index = SearchIndex::default();
    index.insert("Nineteen", EntityId::Champion(4));
    index.insert("Nine", EntityId::Champion(5));
    index.insert("Ninety Nine", EntityId::Champion(6));
    index.insert("Canine", EntityId::Champion(7));
    let found = index.find("nine");
    assert_eq!(found[0], (EntityId::Champion(5), 39));
    assert!(found.iter().all(|entry| entry.1 <= 39));
    assert_eq!(found.len(), 3);
}

#[test]
fn a_longer_word_scores_lower_and_may_still_be_found() {
    let mut index = SearchIndex::default();
    index.insert("Fire", EntityId::Spell(1));
    index.insert("Firebreather", EntityId::Spell(2));
    let found = index.find("fire");
    assert_eq!(found, vec![(EntityId::Spell(1), 39), (EntityId::Spell(2), 35)]);
    // the longer word is past the tolerance of four, and still at the threshold of 32
    assert!(found[1].1 >= 32);
    // a query that is longer than the word of the index finds nothing
    assert_eq!(index.find("firebreathers"), vec![]);
    assert_eq!(index.find("fires"), vec![]);
}

#[test]
fn find_may_score_below_zero_and_does_not_report_it() {
    let mut index = SearchIndex::default();
    index.insert("b b b b b b b b b b b b b b b b b b b b a", EntityId::Champion(1));
    // "a" is twenty places off: 8 + 7 - 20 is below the threshold
    assert_eq!(index.find("a"), vec![]);
    assert_eq!(index.find("b"), vec![(EntityId::Champion(1), 15)]);
}

fn naive_words(text: &str) -> Vec<String> {
    text.split_ascii_whitespace()
        .map(|token| {
            token
                .bytes()
                .filter(|byte| byte.is_ascii_alphabetic())
                .map(|byte| byte.to_ascii_lowercase() as char)
                .take(15)
                .collect::<String>()
        })
        .filter(|word| !word.is_empty())
        .collect()
}

fn naive_find(names: &[(String, EntityId)], query: &str) -> Vec<(EntityId, i32)> {
    let asked: Vec<String> = naive_words(query).into_iter().take(10).collect();
    let threshold: i32 = asked.iter().map(|word| 8 * word.len() as i32).sum();
    let mut found: Vec<(EntityId, i32)> = Vec::new();
    for (name, eid) in names {
        if found.iter().any(|entry| entry.0 == *eid) {
            continue;
        }
        let mut total = 0;
        let mut hit = false;
        for (order, word) in asked.iter().enumerate() {
            let mut best: Option<i32> = None;
            for (other, owner) in names {
                if owner != eid {
                    continue;
                }
                for (pos, held) in naive_words(other).iter().enumerate() {
                    if held.starts_with(word.as_str()) {
                        let extra = (held.len() - word.len()).min(4) as i32;
                        let apart = (order as i32 - pos as i32).abs();
                        let score = 8 * word.len() as i32 + 7 - extra - apart;
                        best = Some(best.map_or(score, |b| b.max(score)));
                    }
                }
            }
            if let Some(score) = best {
                total += score;
                hit = true;
            }
        }
        let _ = name;
        if hit && total >= threshold {
            found.push((*eid, total));
        }
    }
    found.sort();
    found
}

#[test]
fn find_agrees_with_the_rules_spelled_out() {
    let syllables = ["fi", "re", "fire", "storm", "ice", "i", "lord", "of", "the", "a", "nine", "Nin", "x!", "wall"];
    let mut seed: u32 = 12345;
    let mut next = |n: usize| -> usize {
        seed = seed.wrapping_mul(1664525).wrapping_add(1013904223);
        ((seed >> 16) as usize) % n
    };
    for round in 0..40 {
        let mut index = SearchIndex::default();
        let mut names: Vec<(String, EntityId)> = Vec::new();
        let count = 1 + next(12);
        for n in 0..count {
            let mut name = String::new();
            for _ in 0..(1 + next(4)) {
                for _ in 0..(1 + next(3)) {
                    name.push_str(syllables[next(syllables.len())]);
                }
                name.push(' ');
            }
            let eid = match next(6) {
                0 => EntityId::Champion(n as u32 % 5),
                1 => EntityId::Spell(n as u32 % 5),
                2 => EntityId::Equip(n as u32),
                3 => EntityId::Relic(n as u32),
                4 => EntityId::AbilityGroup(n as u32),
                _ => EntityId::Effect(n as u32),
            };
            index.insert(&name, eid);
            names.push((name, eid));
        }
        for _ in 0..20 {
            let mut query = String::new();
            for _ in 0..(1 + next(3)) {
                query.push_str(syllables[next(syllables.len())]);
                if next(3) == 0 {
                    query.push_str(syllables[next(syllables.len())]);
                }
                query.push(' ');
            }
            let found = index.find(&query);
            for pair in found.windows(2) {
                assert!(pair[0].1 >= pair[1].1, "round {} query {:?}", round, query);
            }
            let mut sorted = found.clone();
            sorted.sort();
            assert_eq!(sorted, naive_find(&names, &query), "round {} query {:?}", round, query);
            assert_eq!(
                SearchIndex::split_words(&query).iter().map(|word| word.to_string()).collect::<Vec<_>>(),
                naive_words(&query)
            );
        }
    }
}
