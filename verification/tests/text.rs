use poxbase::text::{parse_id, push_decimal, same_text, slice};

#[test]
fn ids_are_read_as_decimal_numbers() {
    assert_eq!(parse_id(b"0"), Some(0));
    assert_eq!(parse_id(b"42"), Some(42));
    assert_eq!(parse_id(b"+42"), Some(42));
    assert_eq!(parse_id(b"007"), Some(7));
    assert_eq!(parse_id(b"4294967295"), Some(u32::MAX));
    assert_eq!(parse_id(b"4294967296"), None);
    assert_eq!(parse_id(b"99999999999999999999999"), None);
    assert_eq!(parse_id(b""), None);
    assert_eq!(parse_id(b"+"), None);
    assert_eq!(parse_id(b"-1"), None);
    assert_eq!(parse_id(b"12a"), None);
    assert_eq!(parse_id(b" 12"), None);
    assert_eq!(parse_id(b"1+2"), None);
    for text in ["0", "42", "+42", "007", "4294967295", "4294967296", "", "+", "-1", "12a", "++1"] {
        assert_eq!(parse_id(text.as_bytes()), text.parse::<u32>().ok());
    }
}

#[test]
fn numbers_are_written_in_decimal_digits() {
    for n in [0u32, 7, 10, 99, 100, 4096, 1_000_000, u32::MAX] {
        let mut text = String::from("#");
        push_decimal(&mut text, n);
        assert_eq!(text, format!("#{}", n));
    }
}

#[test]
fn a_piece_lies_between_starts_of_characters() {
    let text = "a\u{e9}b\u{1f600}c";
    assert_eq!(slice(text, 0, 1), Some("a"));
    assert_eq!(slice(text, 1, 3), Some("\u{e9}"));
    assert_eq!(slice(text, 1, 2), None);
    assert_eq!(slice(text, 2, 3), None);
    assert_eq!(slice(text, 3, 8), Some("b\u{1f600}"));
    assert_eq!(slice(text, 4, 6), None);
    assert_eq!(slice(text, 0, 9), Some(text));
    assert_eq!(slice(text, 9, 9), Some(""));
    assert_eq!(slice(text, 0, 10), None);
    assert_eq!(slice(text, 3, 1), None);
}

#[test]
fn texts_are_the_same_character_for_character() {
    assert!(same_text("", ""));
    assert!(same_text("ability", "ability"));
    assert!(!same_text("ability", "Ability"));
    assert!(!same_text("ability", "abilit"));
    assert!(!same_text("abilit\u{e9}", "abilite"));
}
