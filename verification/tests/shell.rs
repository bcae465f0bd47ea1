//! Names and values in a shell.

use vault::shell::{is_valid_env_key, shell_quote, sq};

#[test]
fn test_shell_quote() {
    let sq = char::from_u32(0x27).unwrap();
    let sqs = format!("{sq}{sq}");

    // safe strings pass through unquoted
    assert_eq!(shell_quote("simple"), "simple");
    assert_eq!(shell_quote("sk-abc123"), "sk-abc123");

    // strings with spaces get quoted
    let expected = format!("{sq}hello world{sq}");
    assert_eq!(shell_quote("hello world"), expected);

    // strings with single quotes get escaped
    let input = format!("it{sq}s");
    let expected = format!("{sq}it{sq}\\{sq}{sq}s{sq}");
    assert_eq!(shell_quote(&input), expected);

    // empty string
    assert_eq!(shell_quote(""), sqs);
}

#[test]
fn test_is_valid_env_key() {
    assert!(is_valid_env_key("FOO"));
    assert!(is_valid_env_key("_FOO"));
    assert!(is_valid_env_key("TF_VAR_hcloud_token"));
    assert!(!is_valid_env_key(""));
    assert!(!is_valid_env_key("1FOO"));
    assert!(!is_valid_env_key("FOO-BAR"));
    assert!(!is_valid_env_key("FOO BAR"));
    assert!(!is_valid_env_key("FOO$(x)"));
    assert!(!is_valid_env_key("FOO;rm"));
}

#[test]
fn test_sq() {
    // sq replaces ' with '\'' (close-quote, escaped-quote, reopen-quote)
    assert_eq!(sq("simple"), "simple");
    assert_eq!(sq("it's here"), "it'\\''s here");
    assert_eq!(sq("a'b'c"), "a'\\''b'\\''c");
}

#[test]
fn plain_characters_need_no_quotes() {
    assert_eq!(shell_quote("aZ09_-./:+@"), "aZ09_-./:+@");
    for c in [
        ' ', '\t', '\n', '!', '"', '#', '$', '%', '&', '(', ')', '*', ',', ';', '<', '=', '>',
        '?', '[', '\\', ']', '^', '`', '{', '|', '}', '~', 'é',
    ] {
        assert_eq!(shell_quote(&format!("a{c}")), format!("'a{c}'"));
    }
}

/// What a POSIX shell reads from a word that holds nothing but plain
/// characters, backslashes and single quotes.
fn shell_reads(word: &str) -> String {
    let mut out = String::new();
    let mut chars = word.chars();
    while let Some(c) = chars.next() {
        match c {
            '\'' => loop {
                match chars.next() {
                    Some('\'') => break,
                    Some(d) => out.push(d),
                    None => panic!("open quotation"),
                }
            },
            '\\' => out.push(chars.next().unwrap()),
            _ => {
                assert!(c.is_ascii_alphanumeric() || "_-./:+@".contains(c));
                out.push(c);
            }
        }
    }
    out
}

#[test]
fn a_shell_reads_back_what_was_quoted() {
    for s in [
        "", "x", "'", "''", "a'b", "$(x y)", "`x`", "a\nb", "\\", "\\'", "#", "ü 'q' \"z\"",
    ] {
        assert_eq!(shell_reads(&shell_quote(s)), s);
        assert_eq!(shell_reads(&format!("'{}'", sq(s))), s);
    }
}

#[test]
fn names_are_ascii() {
    assert!(!is_valid_env_key("É"));
    assert!(!is_valid_env_key("A\u{0301}"));
    assert!(!is_valid_env_key("A\n"));
    assert!(is_valid_env_key("_"));
    assert!(is_valid_env_key("a1_"));
}
