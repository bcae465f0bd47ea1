//! The text of a store, read and written.

use vault::secrets::SecretMap;
use vault::store::Store;

fn map(pairs: &[(&str, &str)]) -> SecretMap {
    let mut m = SecretMap::new();
    for (name, value) in pairs {
        m.insert(name.to_string(), value.to_string());
    }
    m
}

fn pairs(m: &SecretMap) -> Vec<(String, String)> {
    (0..m.len()).map(|i| (m.secret(i).name.clone(), m.secret(i).value.clone())).collect()
}

fn owned(pairs: &[(&str, &str)]) -> Vec<(String, String)> {
    pairs.iter().map(|(a, b)| (a.to_string(), b.to_string())).collect()
}

const HEADER: &str = "# Vault secrets — edit this file, save to encrypt.\n\
                      # Format: KEY=value  (one per line, lines starting with # are ignored)\n\n";

#[test]
fn test_parse() {
    let content = "FOO=bar\n# comment\nBAZ=qux\n\nEMPTY=\n";
    let map = Store::parse(content);
    assert_eq!(map.get("FOO").unwrap(), "bar");
    assert_eq!(map.get("BAZ").unwrap(), "qux");
    assert_eq!(map.get("EMPTY").unwrap(), "");
    assert_eq!(map.len(), 3);
}

#[test]
fn test_count_dropped_lines() {
    let content = "FOO=bar\n# comment\n\noops no equals\n=no key\nBAZ=qux\n";
    assert_eq!(Store::count_dropped_lines(content), 2);
    assert_eq!(Store::count_dropped_lines("FOO=bar\n"), 0);
}

#[test]
fn parsing_trims_names_and_values() {
    let m = Store::parse("  FOO \t=  bar baz \u{3000}\r\n\tB=\u{a0}1\u{a0}");
    assert_eq!(pairs(&m), owned(&[("B", "1"), ("FOO", "bar baz")]));
}

#[test]
fn parsing_splits_at_the_first_equals_sign() {
    let m = Store::parse("URL=https://h/?a=b&c==d\n");
    assert_eq!(m.get("URL").unwrap(), "https://h/?a=b&c==d");
}

#[test]
fn the_later_of_two_lines_counts() {
    let m = Store::parse("A=1\nB=2\nA=3\n");
    assert_eq!(pairs(&m), owned(&[("A", "3"), ("B", "2")]));
}

#[test]
fn parsing_ends_lines_as_lines_end() {
    // A carriage return ends a line only before a line feed; a bare one in the
    // middle stays, one at the end is white space.
    let m = Store::parse("A=1\r\nB=x\ry\nC=z\r");
    assert_eq!(pairs(&m), owned(&[("A", "1"), ("B", "x\ry"), ("C", "z")]));
}

#[test]
fn comments_and_blank_lines_are_not_dropped_lines() {
    assert_eq!(Store::count_dropped_lines(""), 0);
    assert_eq!(Store::count_dropped_lines("\n \n\t# x\n   #y=1\n"), 0);
    assert_eq!(Store::count_dropped_lines("word\n = v\n\u{2003}=\nk=v"), 3);
    assert!(Store::parse("word\n = v\n#a=b").is_empty());
}

#[test]
fn a_store_without_secrets_has_a_hint() {
    let expected = format!(
        "{HEADER}# No secrets yet. Add lines like:\n# OPENAI_API_KEY=sk-...\n"
    );
    assert_eq!(Store::serialize(&SecretMap::new()), expected);
    assert!(Store::parse(&expected).is_empty());
    assert_eq!(Store::count_dropped_lines(&expected), 0);
}

#[test]
fn secrets_are_written_in_the_order_of_their_names() {
    let m = map(&[("b", "2"), ("a", "1"), ("B", "3"), ("é", "5"), ("ab", "4"), ("", "")]);
    assert_eq!(Store::serialize(&m), format!("{HEADER}=\nB=3\na=1\nab=4\nb=2\né=5\n"));
}

#[test]
fn reading_gives_back_what_was_written() {
    let secrets = [("A", ""), ("B", "x=y"), ("C d", "# no comment"), ("ü", "it's \"q\" \\ $x")];
    let m = map(&secrets);
    let text = Store::serialize(&m);
    assert_eq!(pairs(&Store::parse(&text)), owned(&secrets));
    assert_eq!(Store::count_dropped_lines(&text), 0);
    // And so again.
    assert_eq!(Store::serialize(&Store::parse(&text)), text);
}

#[test]
fn what_the_format_cannot_hold_is_not_read_back() {
    for (name, value) in [
        ("A", " padded "),
        ("A", "two\nlines"),
        ("A", "ends\r"),
        ("#A", "1"),
        ("A=B", "1"),
        ("", "1"),
        (" A", "1"),
    ] {
        let m = map(&[(name, value)]);
        let back = Store::parse(&Store::serialize(&m));
        assert_ne!(pairs(&back), owned(&[(name, value)]));
    }
}

#[test]
fn every_line_is_kept_or_counted() {
    let text = "A=1\nB\n=C\n# D\n\nE=2\nE=3\n";
    // Content lines: A, B, =C, E, E.
    assert_eq!(Store::count_dropped_lines(text), 2);
    assert_eq!(Store::parse(text).len(), 2);
}

#[test]
fn a_map_inserts_replaces_and_removes() {
    let mut m = SecretMap::new();
    assert!(m.is_empty());
    assert_eq!(m.len(), 0);
    assert_eq!(m.remove("a"), None);
    m.insert("m".to_string(), "1".to_string());
    m.insert("a".to_string(), "2".to_string());
    m.insert("z".to_string(), "3".to_string());
    m.insert("m".to_string(), "4".to_string());
    assert_eq!(pairs(&m), owned(&[("a", "2"), ("m", "4"), ("z", "3")]));
    assert!(m.contains_key("z"));
    assert!(!m.contains_key("zz"));
    assert_eq!(m.remove("m"), Some("4".to_string()));
    assert_eq!(m.remove("m"), None);
    assert_eq!(m.get("m"), None);
    assert_eq!(pairs(&m), owned(&[("a", "2"), ("z", "3")]));
}
