//! Encryption.

use vault::crypto::{age_decrypt, age_encrypt, DecryptError, DecryptStep, IdentityKey, Lock};

fn passphrase(words: &str) -> Lock {
    Lock::Passphrase(words.to_string())
}

#[test]
fn test_scrypt_roundtrip() {
    let recipient = passphrase("test-pass");
    let ct = age_encrypt(&recipient, b"AGE-SECRET-KEY-TEST").unwrap();

    let identity = passphrase("test-pass");
    let pt = age_decrypt(&identity, &ct).unwrap();
    assert_eq!(pt, b"AGE-SECRET-KEY-TEST");

    let wrong = passphrase("wrong");
    assert!(age_decrypt(&wrong, &ct).is_err());
}

#[test]
fn an_identity_opens_what_was_encrypted_to_it() {
    let key = IdentityKey::generate();
    let text = key.text().to_string();
    let lock = Lock::Identity(key);
    for data in [&b""[..], &b"x"[..], &[0u8, 255, 10, 13][..]] {
        let file = age_encrypt(&lock, data).unwrap();
        assert!(file.starts_with(b"age-encryption.org/v1"));
        assert_ne!(file, data);
        assert_eq!(age_decrypt(&lock, &file).unwrap(), data);
        // The same identity, read back from its text.
        let again = Lock::Identity(IdentityKey::parse(&text).unwrap());
        assert_eq!(age_decrypt(&again, &file).unwrap(), data);
    }
}

#[test]
fn no_two_files_are_alike() {
    let lock = Lock::Identity(IdentityKey::generate());
    assert_ne!(age_encrypt(&lock, b"x").unwrap(), age_encrypt(&lock, b"x").unwrap());
}

#[test]
fn another_identity_does_not_open_it() {
    let file = age_encrypt(&Lock::Identity(IdentityKey::generate()), b"secret").unwrap();
    let e = age_decrypt(&Lock::Identity(IdentityKey::generate()), &file).unwrap_err();
    assert_eq!(e.step, DecryptStep::Key);
    assert_eq!(e.message(), format!("Decryption failed: {}", e.words));
}

#[test]
fn what_is_no_age_file_is_told_apart() {
    let lock = Lock::Identity(IdentityKey::generate());
    for junk in [&b""[..], &b"hello"[..], &[0u8; 300][..]] {
        let e = age_decrypt(&lock, junk).unwrap_err();
        assert_eq!(e.step, DecryptStep::Header);
        assert_eq!(e.message(), format!("Not a valid age file: {}", e.words));
        let f = age_decrypt(&passphrase("p"), junk).unwrap_err();
        assert_eq!(f.step, DecryptStep::Header);
    }
}

#[test]
fn a_file_cut_short_is_not_read() {
    let lock = Lock::Identity(IdentityKey::generate());
    let mut file = age_encrypt(&lock, b"a longer secret").unwrap();
    file.truncate(file.len() - 1);
    let e = age_decrypt(&lock, &file).unwrap_err();
    assert_eq!(e.step, DecryptStep::Payload);
    assert_eq!(e.message(), e.words);
}

#[test]
fn a_wrong_passphrase_does_not_open_it() {
    let file = age_encrypt(&passphrase("right"), b"secret").unwrap();
    let e = age_decrypt(&passphrase("wrong"), &file).unwrap_err();
    assert_eq!(e.step, DecryptStep::Key);
    assert_eq!(e.message(), format!("Decryption failed: {}", e.words));
}

#[test]
fn an_identity_does_not_open_what_a_passphrase_does() {
    let file = age_encrypt(&passphrase("right"), b"secret").unwrap();
    let e = age_decrypt(&Lock::Identity(IdentityKey::generate()), &file).unwrap_err();
    assert_eq!(e.step, DecryptStep::Key);
}

/// A file that asks for a work of some power of two.
fn asking(work: &str) -> Vec<u8> {
    let (salt, body) = ("A".repeat(22), "A".repeat(43));
    let head = format!("age-encryption.org/v1\n-> scrypt {salt} {work}\n{body}\n--- {body}\n");
    let mut file = head.into_bytes();
    file.extend([0; 32]);
    file
}

#[test]
fn a_file_that_asks_for_too_much_work_is_refused() {
    for work in ["255", "128"] {
        let e = age_decrypt(&passphrase("p"), &asking(work)).unwrap_err();
        assert_eq!(e.step, DecryptStep::Work);
        assert_eq!(
            e.words,
            "Excessive work parameter for passphrase.\n\
             Decryption would take more than 18446744073709551615 seconds."
        );
        assert_eq!(e.message(), format!("Decryption failed: {}", e.words));
    }
    // Little work is done; the file then turns out to hold nothing.
    let e = age_decrypt(&passphrase("p"), &asking("1")).unwrap_err();
    assert_eq!(e.step, DecryptStep::Key);
    // A work that cannot be read is another matter.
    let e = age_decrypt(&passphrase("p"), &asking("256")).unwrap_err();
    assert_eq!(e.step, DecryptStep::Key);
}

#[test]
fn too_much_work_is_told_in_seconds() {
    for (required, target, time) in [
        (22, 18, "around 16 seconds"),
        (18, 18, "around 1 seconds"),
        (82, 19, "around 9223372036854775808 seconds"),
        (83, 19, "more than 18446744073709551615 seconds"),
        (255, 0, "more than 18446744073709551615 seconds"),
        (0, 255, "less than a second"),
    ] {
        let e = DecryptError::too_much_work(required, target);
        assert_eq!(e.step, DecryptStep::Work);
        assert_eq!(
            e.words,
            format!("Excessive work parameter for passphrase.\nDecryption would take {time}.")
        );
    }
}

#[test]
fn identities_have_the_shape_of_identities() {
    let key = IdentityKey::generate();
    assert!(key.text().starts_with("AGE-SECRET-KEY-1"));
    assert!(key.text().chars().all(|c| c.is_ascii_uppercase() || c.is_ascii_digit() || c == '-'));
    assert!(key.public_key().starts_with("age1"));
    assert!(key.public_key().chars().all(|c| c.is_ascii_lowercase() || c.is_ascii_digit()));
    assert_ne!(key.text(), IdentityKey::generate().text());
}

#[test]
fn a_public_key_belongs_to_its_identity() {
    let key = IdentityKey::generate();
    let again = IdentityKey::parse(key.text()).unwrap();
    assert_eq!(again.text(), key.text());
    assert_eq!(again.public_key(), key.public_key());
    assert_ne!(IdentityKey::generate().public_key(), key.public_key());
}

#[test]
fn what_is_no_identity_is_refused() {
    for line in ["", "AGE-SECRET-KEY-", "AGE-SECRET-KEY-1", "age1qqq", "AGE-SECRET-KEY-TEST"] {
        let words = IdentityKey::parse(line).err().unwrap();
        assert!(!words.is_empty());
        assert_eq!(IdentityKey::parse(line).err().unwrap(), words);
    }
}
