use sagacraft_rs::adventure::{Adventure, AdventureItem, AdventureRoom};
use sagacraft_rs::idmap::IdMap;
use sagacraft_rs::strmap::{StrMap, StrSet};
use sagacraft_rs::text::{
    ascii_lower, center, chars_of, concat2, concat3, contains, contains_ignore_ascii_case,
    eq_ignore_ascii_case, is_blank,
    is_whitespace, join, lex_compare, render_int, render_nat, repeat, split_words, str_equal,
    trim, Lex,
};

#[test]
fn string_maps_keep_their_keys_in_order() {
    let mut m = StrMap::new();
    assert!(m.is_empty());
    assert_eq!(m.insert("pear".to_string(), 1), None);
    assert_eq!(m.insert("apple".to_string(), 2), None);
    assert_eq!(m.insert("fig".to_string(), 3), None);
    assert_eq!(m.insert("pear".to_string(), 4), Some(1));
    assert_eq!(m.len(), 3);
    assert_eq!(m.key_list(), vec!["apple".to_string(), "fig".to_string(), "pear".to_string()]);
    assert_eq!(m.key_at(0), "apple");
    assert_eq!(*m.value_at(2), 4);
    assert_eq!(m.get("fig"), Some(&3));
    assert_eq!(m.get("plum"), None);
    assert!(m.contains_key("pear"));
    *m.get_mut("fig").unwrap() = 30;
    assert!(m.get_mut("plum").is_none());
    assert_eq!(m.get("fig"), Some(&30));
    assert_eq!(m.remove("apple"), Some(2));
    assert_eq!(m.remove("apple"), None);
    assert_eq!(m.key_list(), vec!["fig".to_string(), "pear".to_string()]);
    let copy = m.clone();
    assert_eq!(copy, m);

    let mut other = StrMap::new();
    other.insert("pear".to_string(), 4);
    other.insert("fig".to_string(), 30);
    assert_eq!(other, m);
}

#[test]
fn string_sets_hold_each_member_once() {
    let mut s = StrSet::new();
    assert!(s.insert("b".to_string()));
    assert!(s.insert("a".to_string()));
    assert!(!s.insert("b".to_string()));
    assert_eq!(s.len(), 2);
    assert_eq!(s.member_at(0), "a");
    assert!(s.contains("b"));
    assert!(!s.contains("c"));
    assert!(s.remove("a"));
    assert!(!s.remove("a"));
    assert_eq!(s.len(), 1);
    assert_eq!(s.clone(), s);
}

#[test]
fn number_maps_keep_their_keys_in_order() {
    let mut m = IdMap::new();
    assert!(m.is_empty());
    assert_eq!(m.insert(5, "five".to_string()), None);
    assert_eq!(m.insert(-2, "minus two".to_string()), None);
    assert_eq!(m.insert(3, "three".to_string()), None);
    assert_eq!(m.insert(5, "FIVE".to_string()), Some("five".to_string()));
    assert_eq!(m.len(), 3);
    assert_eq!((m.key_at(0), m.key_at(1), m.key_at(2)), (-2, 3, 5));
    assert_eq!(m.value_at(2), "FIVE");
    assert_eq!(m.get(3), Some(&"three".to_string()));
    assert_eq!(m.get(4), None);
    assert!(m.contains_key(-2));
    m.get_mut(3).unwrap().push('!');
    *m.value_at_mut(0) = "low".to_string();
    assert!(m.get_mut(4).is_none());
    assert_eq!(m.get(3), Some(&"three!".to_string()));
    assert_eq!(m.get(-2), Some(&"low".to_string()));
    assert_eq!(m.remove(3), Some("three!".to_string()));
    assert_eq!(m.remove(3), None);
    assert_eq!(m.len(), 2);
    assert_eq!(m.clone(), m);
}

#[test]
fn strings_are_ordered_by_code_point() {
    assert_eq!(lex_compare("a", "b"), Lex::Before);
    assert_eq!(lex_compare("b", "a"), Lex::After);
    assert_eq!(lex_compare("abc", "abc"), Lex::Same);
    assert_eq!(lex_compare("ab", "abc"), Lex::Before);
    assert_eq!(lex_compare("", "a"), Lex::Before);
    assert_eq!(lex_compare("Z", "a"), Lex::Before);
    assert_eq!(lex_compare("z", "é"), Lex::Before);
    let pairs = [("", ""), ("a", "B"), ("zebra", "zeal"), ("é", "e"), ("x", "xy")];
    for (a, b) in pairs {
        let expected = match a.cmp(b) {
            std::cmp::Ordering::Less => Lex::Before,
            std::cmp::Ordering::Equal => Lex::Same,
            std::cmp::Ordering::Greater => Lex::After,
        };
        assert_eq!(lex_compare(a, b), expected);
    }
    assert!(str_equal("same", "same"));
    assert!(!str_equal("same", "Same"));
}

#[test]
fn white_space_is_what_unicode_says() {
    for code in 0u32..0x3100 {
        if let Some(c) = char::from_u32(code) {
            assert_eq!(is_whitespace(c), c.is_whitespace(), "code point {:x}", code);
        }
    }
    assert_eq!(trim("  a b \t\n"), "a b");
    assert_eq!(trim("\u{a0}x\u{3000}"), "x");
    assert_eq!(trim("   "), "");
    assert_eq!(trim(""), "");
    assert!(is_blank(""));
    assert!(is_blank(" \t\r\n"));
    assert!(!is_blank(" . "));
}

#[test]
fn letter_case_in_ascii() {
    assert_eq!(ascii_lower('A'), 'a');
    assert_eq!(ascii_lower('Z'), 'z');
    assert_eq!(ascii_lower('a'), 'a');
    assert_eq!(ascii_lower('É'), 'É');
    assert_eq!(ascii_lower('['), '[');
    assert!(eq_ignore_ascii_case("Ancient Key", "aNCIENT kEY"));
    assert!(!eq_ignore_ascii_case("Ancient Key", "Ancient Keys"));
    assert!(!eq_ignore_ascii_case("É", "é"));
    for text in ["", "Hello", "MiXeD 123", "ÄÖ"] {
        for other in ["", "hello", "mixed 123", "äö"] {
            assert_eq!(eq_ignore_ascii_case(text, other), text.eq_ignore_ascii_case(other));
        }
    }
}

#[test]
fn texts_are_searched_split_and_joined() {
    assert!(contains("rusty sword", "sword"));
    assert!(contains("rusty sword", ""));
    assert!(contains("", ""));
    assert!(contains("aab", "ab"));
    assert!(!contains("rusty sword", "words"));
    assert!(!contains("ab", "abc"));
    assert!(contains_ignore_ascii_case("Ancient Key", "key"));
    assert!(contains_ignore_ascii_case("ancient key", "NT K"));
    assert!(contains_ignore_ascii_case("Ancient Key", ""));
    assert!(!contains_ignore_ascii_case("Ancient Key", "keys"));
    assert!(!contains_ignore_ascii_case("École", "école"));
    assert_eq!(split_words("  take  the   key "), vec!["take", "the", "key"]);
    assert_eq!(split_words(""), Vec::<String>::new());
    assert_eq!(split_words(" \t "), Vec::<String>::new());
    assert_eq!(split_words("one"), vec!["one"]);
    assert_eq!(join(&vec!["a".to_string(), "b".to_string(), "c".to_string()], ", "), "a, b, c");
    assert_eq!(join(&vec!["a".to_string()], ", "), "a");
    assert_eq!(join(&vec![], ", "), "");
    assert_eq!(concat2("ab", "cd"), "abcd");
    assert_eq!(concat3("a", "b", "c"), "abc");
    assert_eq!(chars_of("héllo"), vec!['h', 'é', 'l', 'l', 'o']);
}

#[test]
fn numbers_are_written_in_decimal() {
    assert_eq!(render_nat(0), "0");
    assert_eq!(render_nat(7), "7");
    assert_eq!(render_nat(1203), "1203");
    assert_eq!(render_nat(u64::MAX), u64::MAX.to_string());
    assert_eq!(render_int(0), "0");
    assert_eq!(render_int(-1), "-1");
    assert_eq!(render_int(45), "45");
    assert_eq!(render_int(i64::MIN), i64::MIN.to_string());
    assert_eq!(render_int(i64::MAX), i64::MAX.to_string());
}

#[test]
fn lines_are_centered_like_a_formatter_does() {
    assert_eq!(repeat("=", 3), "===");
    assert_eq!(repeat("-", 0), "");
    for text in ["", "a", "ab", "abc", "héllo", "a very long title"] {
        for width in [0usize, 1, 4, 5, 10] {
            let expected = format!("{:^width$}", text, width = width);
            assert_eq!(center(text, width), expected);
        }
    }
}

fn room(id: &str, exits: &[(&str, &str)]) -> AdventureRoom {
    let mut map = StrMap::new();
    for (direction, destination) in exits {
        map.insert(direction.to_string(), destination.to_string());
    }
    AdventureRoom {
        id: id.to_string(),
        title: id.to_uppercase(),
        description: String::new(),
        exits: map,
        items: vec![AdventureItem {
            id: "i".to_string(),
            name: format!("Thing of {}", id),
            description: "d".to_string(),
        }],
    }
}

#[test]
fn the_same_content_opens_the_same_world() {
    let first = Adventure {
        id: "a".to_string(),
        title: "A".to_string(),
        start_room: "hall".to_string(),
        rooms: vec![
            room("hall", &[("north", "yard"), ("east", "hall"), ("down", "yard")]),
            room("yard", &[("south", "hall")]),
        ],
        player_start_inventory: vec![],
    };
    let second = Adventure {
        id: "a".to_string(),
        title: "A".to_string(),
        start_room: "hall".to_string(),
        rooms: vec![
            room("hall", &[("down", "yard"), ("north", "yard"), ("east", "hall")]),
            room("yard", &[("south", "hall")]),
        ],
        player_start_inventory: vec![],
    };
    assert_eq!(first, second);
    assert!(first.validate().is_ok() && second.validate().is_ok());
    let one = first.into_game_state("Ann").unwrap();
    let other = second.into_game_state("Ann").unwrap();
    assert_eq!(one, other);
    assert_eq!(one.world.key_list(), vec!["hall".to_string(), "yard".to_string()]);
}
