use clanwars::dink::{loot_in_line, parse_loot_text, source_in_line, DinkDrop, ParseError};

fn chars(s: &str) -> Vec<char> {
    s.chars().collect()
}

/// The notification that reports `items` from `source` for `user`.
fn render(user: &str, source: &str, items: &[(&str, u32)]) -> String {
    let mut text = format!("{} has looted: \n\n", user);
    for (name, quantity) in items {
        text.push_str(&format!("{} x [{}](https://example.org/w/{}) ({})\n", quantity, name, name, quantity));
    }
    text.push_str(&format!("From: [{}](https://example.org/w/{})", source, source));
    text
}

#[test]
fn test_parse_loot_text() {
    let input = "Solo H has looted: \n\n1 x [Bones](https://oldschool.runescape.wiki/w/Special:Search?search=Bones) (62)\n15 x [Coins](https://oldschool.runescape.wiki/w/Special:Search?search=Coins) (15)\nFrom: [Man](https://oldschool.runescape.wiki/w/Special:Search?search=Man)";

    let dink_drop = parse_loot_text(input).unwrap();

    assert_eq!(dink_drop.user, "Solo H");
    assert_eq!(
        dink_drop.loots,
        vec![("Bones".to_string(), 1), ("Coins".to_string(), 15)]
    );
    assert_eq!(dink_drop.source, "Man");
}

#[test]
fn parse_without_marker_has_no_user() {
    assert_eq!(parse_loot_text("1 x [Bones](u) (1)").unwrap_err(), ParseError::NoUser);
    assert_eq!(parse_loot_text("").unwrap_err(), ParseError::NoUser);
}

#[test]
fn parse_rejects_a_user_of_sixteen_characters() {
    let long = "abcdefghijklmnop has looted: \n1 x [Bones](u) (1)\nFrom: [Man](u)";
    assert_eq!(parse_loot_text(long).unwrap_err(), ParseError::UsernameTooLong);
    let fits = "abcdefghijklmno has looted: \n1 x [Bones](u) (1)\nFrom: [Man](u)";
    assert_eq!(parse_loot_text(fits).unwrap().user, "abcdefghijklmno");
}

#[test]
fn parse_counts_characters_of_the_user_not_bytes() {
    let text = "\u{e9}\u{e9}\u{e9}\u{e9}\u{e9}\u{e9}\u{e9}\u{e9}\u{e9}\u{e9} has looted: \n1 x [Bones](u) (1)";
    assert_eq!(parse_loot_text(text).unwrap().user.chars().count(), 10);
}

#[test]
fn parse_without_items_fails() {
    let text = "Solo H has looted: \n\nFrom: [Man](u)";
    assert_eq!(parse_loot_text(text).unwrap_err(), ParseError::NoItems);
}

#[test]
fn digits_that_write_no_number_count_as_zero() {
    let text = "Solo H has looted: \n99999999999 x [Coins](u) (1)\n4294967296 x [Ash](u)\n4294967295 x [Rune](u)\n007 x [Gold](u)";
    let drop = parse_loot_text(text).unwrap();
    assert_eq!(
        drop.loots,
        vec![
            ("Coins".to_string(), 0),
            ("Ash".to_string(), 0),
            ("Rune".to_string(), 4294967295),
            ("Gold".to_string(), 7)
        ]
    );
}

#[test]
fn a_line_without_digits_before_the_marker_is_no_item() {
    let text = "Solo H has looted: \nmany x [Bones](u) (1)\n-3 x [Ash](u)\n+7 x [Rune](u)\n x [Gold](u)\n1 2 x [Tin](u)\n5 x [Coins](u)";
    let drop = parse_loot_text(text).unwrap();
    assert_eq!(drop.loots, vec![("Coins".to_string(), 5)]);
    let none = "Solo H has looted: \nmany x [Bones](u) (1)\nFrom: [Man](u)";
    assert_eq!(parse_loot_text(none).unwrap_err(), ParseError::NoItems);
    assert_eq!(loot_in_line(&chars("x [Bones](u)")), None);
    assert_eq!(loot_in_line(&chars(" x [Bones](u)")), None);
}

#[test]
fn parse_without_source_gives_the_empty_source() {
    let text = "Solo H has looted: \n2 x [Bones](u) (1)";
    let drop = parse_loot_text(text).unwrap();
    assert_eq!(drop.source, "");
    assert_eq!(drop.loots, vec![("Bones".to_string(), 2)]);
}

#[test]
fn the_user_is_all_that_stands_before_the_marker() {
    let text = "  Solo H  has looted: \n3 x [Bones](u) (1)\nFrom: [Man](u)";
    let drop = parse_loot_text(text).unwrap();
    assert_eq!(drop.user, "  Solo H ");
    let second = "A has looted: has looted: \n3 x [Bones](u)";
    assert_eq!(parse_loot_text(second).unwrap().user, "A");
    let empty = " has looted: \n3 x [Bones](u)";
    assert_eq!(parse_loot_text(empty).unwrap().user, "");
}

#[test]
fn white_space_counts_towards_the_length_of_the_user() {
    let padded = "   abcdefghijklm has looted: \n1 x [Bones](u) (1)";
    assert_eq!(parse_loot_text(padded).unwrap_err(), ParseError::UsernameTooLong);
    let fits = "  abcdefghijklm has looted: \n1 x [Bones](u) (1)";
    assert_eq!(parse_loot_text(fits).unwrap().user, "  abcdefghijklm");
}

#[test]
fn a_user_that_is_too_long_is_refused_before_the_items_are_counted() {
    let text = "abcdefghijklmnop has looted: \nnothing here";
    assert_eq!(parse_loot_text(text).unwrap_err(), ParseError::UsernameTooLong);
}

#[test]
fn lines_may_end_with_a_carriage_return() {
    let text = "Solo H has looted: \r\n\r\n3 x [Bones](u) (1)\r\nFrom: [Man](u)\r\n";
    let drop = parse_loot_text(text).unwrap();
    assert_eq!(drop.user, "Solo H");
    assert_eq!(drop.loots, vec![("Bones".to_string(), 3)]);
    assert_eq!(drop.source, "Man");
}

#[test]
fn a_line_is_read_from_its_first_character() {
    let text = "Solo H has looted: \n 3 x [Bones](u) (1)\n\tFrom: [Man](u)\n4 x [Coins](u)";
    let drop = parse_loot_text(text).unwrap();
    assert_eq!(drop.loots, vec![("Coins".to_string(), 4)]);
    assert_eq!(drop.source, "");
    assert_eq!(loot_in_line(&chars(" 3 x [Bones](u)")), None);
    assert_eq!(loot_in_line(&chars("3  x [Bones](u)")), None);
    assert_eq!(source_in_line(&chars(" From: [Man](u)")), None);
}

#[test]
fn parse_takes_the_last_source_line() {
    let text = "A has looted: \n1 x [Bones](u)\nFrom: [Man](u)\nFrom: [Goblin](u)";
    assert_eq!(parse_loot_text(text).unwrap().source, "Goblin");
}

#[test]
fn a_line_without_link_marker_is_no_item() {
    let text = "A has looted: \n4 x [Bones\n4 x [Bones] (u)\nFrom: [Man](u)";
    assert_eq!(parse_loot_text(text).unwrap_err(), ParseError::NoItems);
    let mixed = "A has looted: \n4 x [Bones\n2 x [Coins](u)\nFrom: [Man](u)";
    assert_eq!(parse_loot_text(mixed).unwrap().loots, vec![("Coins".to_string(), 2)]);
    assert_eq!(loot_in_line(&chars("4 x [Bones")), None);
    assert_eq!(loot_in_line(&chars("4 x [](u)")), Some((String::new(), 4)));
}

#[test]
fn a_source_without_link_marker_runs_to_the_end_of_the_line() {
    let text = "A has looted: \n4 x [Bones](u)\nFrom: [Man";
    assert_eq!(parse_loot_text(text).unwrap().source, "Man");
}

#[test]
fn parsing_twice_gives_the_same_drop() {
    let text = render("Solo H", "Man", &[("Bones", 1), ("Coins", 15)]);
    let first = parse_loot_text(&text).unwrap();
    let second = parse_loot_text(&text).unwrap();
    assert_eq!(first.user, second.user);
    assert_eq!(first.source, second.source);
    assert_eq!(first.loots, second.loots);
    let bad = "nothing here";
    assert_eq!(parse_loot_text(bad).unwrap_err(), parse_loot_text(bad).unwrap_err());
}

#[test]
fn rendering_and_parsing_gives_the_drop_back() {
    let cases: Vec<(&str, &str, Vec<(&str, u32)>)> = vec![
        ("Solo H", "Man", vec![("Bones", 1), ("Coins", 15)]),
        ("a", "Green dragon", vec![("Dragon bones", 1)]),
        ("abcdefghijklmno", "Tombs of Amascut: Expert Mode", vec![("x", 0), ("y", 4294967295)]),
        ("Zed", "", vec![("Rune [big] axe", 2), ("Coins", 7), ("Bones", 3)]),
        (" padded user ", "Man", vec![("1 x [odd", 1), (" spaced ", 2)]),
        ("", "Man", vec![("", 0)]),
    ];
    for (user, source, items) in cases {
        let drop = parse_loot_text(&render(user, source, &items)).unwrap();
        assert_eq!(drop.user, user);
        assert_eq!(drop.source, source);
        let expected: Vec<(String, u32)> =
            items.iter().map(|(n, q)| (n.to_string(), *q)).collect();
        assert_eq!(drop.loots, expected);
    }
}

#[test]
fn line_readers_read_one_line() {
    assert_eq!(
        loot_in_line(&chars("15 x [Coins](u) (15)")),
        Some(("Coins".to_string(), 15))
    );
    assert_eq!(loot_in_line(&chars("From: [Man](u)")), None);
    assert_eq!(source_in_line(&chars("From: [Man](u)")), Some("Man".to_string()));
    assert_eq!(source_in_line(&chars("from: [Man](u)")), None);
}

#[test]
fn new_keeps_its_arguments() {
    let d = DinkDrop::new("a".to_string(), "b".to_string(), vec![("c".to_string(), 2)]);
    assert_eq!(d.user, "a");
    assert_eq!(d.source, "b");
    assert_eq!(d.loots, vec![("c".to_string(), 2)]);
}
