use draco_open_api::document::get_in;
use draco_open_api::sequence::insert_keyed;
use draco_open_api::text::{chars_of, join_strings, same_text, split_chars, white_space};
use draco_open_api::{Entry, Node};

fn text(s: &str) -> Node {
    Node::Text(s.to_string())
}

fn entry(key: Node, value: Node) -> Entry {
    Entry { key, value }
}

fn strings(parts: &[&str]) -> Vec<String> {
    parts.iter().map(|s| s.to_string()).collect()
}

#[test]
fn characters_of_a_text() {
    assert_eq!(Vec::<char>::new(), chars_of(""));
    assert_eq!(vec!['a', 'é', '候', '\n'], chars_of("aé候\n"));
}

#[test]
fn texts_are_compared_by_their_characters() {
    assert!(same_text("", ""));
    assert!(same_text("date", "date"));
    assert!(!same_text("date", "Date"));
    assert!(!same_text("date", "date "));
    assert!(!same_text("", "x"));
}

#[test]
fn white_space_characters() {
    for c in [' ', '\t', '\n', '\r', '\u{0B}', '\u{0C}', '\u{85}', '\u{A0}', '\u{2003}'] {
        assert!(white_space(c));
    }
    for c in ['a', '0', '\u{8}', '\u{1F}', '\u{200B}', '\u{FEFF}', '_'] {
        assert!(!white_space(c));
    }
}

#[test]
fn pieces_between_separators() {
    let split = |s: &str| split_chars(&s.chars().collect(), '/');
    assert_eq!(strings(&[""]), split(""));
    assert_eq!(strings(&["a"]), split("a"));
    assert_eq!(strings(&["", ""]), split("/"));
    assert_eq!(strings(&["", "a", "", "b", ""]), split("/a//b/"));
    assert_eq!(strings(&["é", "候補"]), split("é/候補"));
}

#[test]
fn pieces_joined_with_a_separator() {
    assert_eq!("", join_strings(&strings(&[]), ", "));
    assert_eq!("a", join_strings(&strings(&["a"]), ", "));
    assert_eq!("a, b, c", join_strings(&strings(&["a", "b", "c"]), ", "));
    assert_eq!(",\n", join_strings(&strings(&["", ""]), ",\n"));
    assert_eq!("ab", join_strings(&strings(&["a", "b"]), ""));
}

#[test]
fn split_then_join_gives_the_text_back() {
    for s in ["", "/", "a/b", "//a//", "no separator"] {
        assert_eq!(s, join_strings(&split_chars(&s.chars().collect(), '/'), "/"));
    }
}

#[test]
fn keyed_insert_replaces_in_place_or_appends() {
    let mut pairs: Vec<(String, u8)> = Vec::new();
    insert_keyed(&mut pairs, "a".to_string(), 1);
    insert_keyed(&mut pairs, "b".to_string(), 2);
    insert_keyed(&mut pairs, "c".to_string(), 3);
    insert_keyed(&mut pairs, "b".to_string(), 4);
    insert_keyed(&mut pairs, "a".to_string(), 5);
    assert_eq!(
        vec![("a".to_string(), 5), ("b".to_string(), 4), ("c".to_string(), 3)],
        pairs
    );
}

#[test]
fn lookups_in_a_node() {
    let table = Node::Table(vec![
        entry(Node::Integer(200), text("number")),
        entry(text("200"), text("string")),
        entry(text("200"), text("later")),
        entry(text("list"), Node::List(vec![Node::Null, Node::Bad])),
        entry(text("null"), Node::Null),
    ]);
    assert_eq!(Some(&text("string")), table.get("200"));
    assert_eq!(Some(&Node::Null), table.get("null"));
    assert_eq!(None, table.get("201"));
    assert_eq!(None, table.get(""));
    assert_eq!(None, text("200").get("200"));
    assert_eq!(None, Node::List(vec![text("200")]).get("200"));

    assert_eq!(None, get_in(None, "200"));
    assert_eq!(Some(&text("string")), get_in(Some(&table), "200"));
    assert_eq!(None, get_in(table.get("list"), "200"));

    assert_eq!(Some("string"), table.get("200").unwrap().as_text());
    assert_eq!(None, table.as_text());
    assert_eq!(None, Node::Real("1.5".to_string()).as_text());
    assert_eq!(5, table.entries().unwrap().len());
    assert_eq!(None, text("x").entries());
    assert_eq!(
        Some(&vec![Node::Null, Node::Bad]),
        table.get("list").unwrap().items()
    );
    assert_eq!(None, table.items());
}
