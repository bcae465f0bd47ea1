//! Where a vault lies, and its key file.

use vault::crypto::IdentityKey;
use vault::fault::ErrorKind;
use vault::path::join;
use vault::store::{find_key_line, key_file_of, load_identity, Store};

#[test]
fn a_vault_lies_in_one_directory() {
    let s = Store::at(b"/home/x/.local/share/vault".to_vec());
    assert_eq!(s.dir(), b"/home/x/.local/share/vault");
    assert_eq!(s.key_path(), b"/home/x/.local/share/vault/key.txt");
    assert_eq!(s.store_path(), b"/home/x/.local/share/vault/store.env.age");
    assert_eq!(s.remotes_config_path(), b"/home/x/.local/share/vault/remotes.toml");
}

#[test]
fn the_data_directory_comes_before_the_home_directory() {
    let s = Store::below(Some(b"/data".to_vec()), Some(b"/home/x".to_vec())).unwrap();
    assert_eq!(s.dir(), b"/data/vault");
    let s = Store::below(None, Some(b"/home/x/".to_vec())).unwrap();
    assert_eq!(s.dir(), b"/home/x/vault");
    let e = Store::below(None, None).unwrap_err();
    assert_eq!(e.kind(), ErrorKind::NoHomeDirectory);
    assert_eq!(e.message(0), "Cannot find home directory");
    assert_eq!(e.depth(), 1);
}

#[test]
fn the_vault_of_this_user_lies_where_its_data_lie() {
    match (dirs::data_local_dir().or_else(dirs::home_dir), Store::new()) {
        (Some(base), Ok(s)) => {
            let dir = base.join("vault").into_os_string().into_encoded_bytes();
            assert_eq!(s.dir(), dir);
            assert_eq!(s.key_path(), join(&dir, "key.txt"));
        }
        (None, Err(e)) => assert_eq!(e.kind(), ErrorKind::NoHomeDirectory),
        _ => panic!("no vault for a home, or a vault without one"),
    }
}

#[test]
fn names_are_joined_to_paths() {
    assert_eq!(join(b"", "a"), b"a");
    assert_eq!(join(b"/", "a"), b"/a");
    assert_eq!(join(b"x", "a"), b"x/a");
    assert_eq!(join(b"x/", "a"), b"x/a");
    assert_eq!(join(b"x", "/a"), b"/a");
    assert_eq!(join(b"x", ""), b"x/");
    assert_eq!(join(b"\xff", "\u{e9}"), b"\xff/\xc3\xa9");
}

#[test]
fn the_first_line_with_the_mark_is_the_key() {
    let text = "# AGE-SECRET-KEY-0\n AGE-SECRET-KEY-1\nAGE-SECRET-KEY-2\r\nAGE-SECRET-KEY-3\n";
    assert_eq!(find_key_line(text), Some("AGE-SECRET-KEY-2".to_string()));
    assert_eq!(find_key_line("AGE-SECRET-KEY"), None);
    assert_eq!(find_key_line(""), None);
}

#[test]
fn the_key_file_reads_back() {
    let key = IdentityKey::generate();
    let text = key_file_of(&key);
    assert_eq!(
        text,
        format!(
            "# Vault age identity key — keep this secret!\n# public key: {}\n{}\n",
            key.public_key(),
            key.text()
        )
    );
    let back = load_identity(b"/k", Ok(text)).unwrap();
    assert_eq!(back.text(), key.text());
}

#[test]
fn a_key_file_can_be_wrong() {
    let e = load_identity(b"/v/key.txt", Err("gone".to_string())).err().unwrap();
    assert_eq!(e.kind(), ErrorKind::KeyNotRead);
    assert_eq!(e.depth(), 2);
    assert_eq!(e.message(0), "Cannot read key at /v/key.txt");
    assert_eq!(e.message(1), "gone");

    let e = load_identity(b"/k", Ok("# nothing\n".to_string())).err().unwrap();
    assert_eq!(e.kind(), ErrorKind::NoKeyLine);
    assert_eq!(e.message(0), "Invalid key file — no AGE-SECRET-KEY line found");

    let e = load_identity(b"/k", Ok("AGE-SECRET-KEY-oops\n".to_string())).err().unwrap();
    assert_eq!(e.kind(), ErrorKind::InvalidIdentity);
    let words = IdentityKey::parse("AGE-SECRET-KEY-oops").err().unwrap();
    assert_eq!(e.message(0), format!("Invalid age identity: {words}"));
}

#[test]
fn paths_are_shown_as_text() {
    let e = load_identity(b"/\xff\xc3\xa9/key", Err(String::new())).err().unwrap();
    assert_eq!(e.message(0), "Cannot read key at /\u{fffd}é/key");
}
