//! Remotes and the texts of the calls to them.

use vault::fault::ErrorKind;
use vault::remote::{
    key_backup_path, parent_dir, ssh_arguments, ssh_opts, ssh_target, Remote, RemoteType,
    RemotesConfig,
};

fn nas() -> Remote {
    Remote {
        name: "nas".to_string(),
        remote_type: RemoteType::Ssh,
        host: "nas.local".to_string(),
        user: "backup".to_string(),
        port: None,
        path: "/volume1/vault/store.env.age".to_string(),
    }
}

#[test]
fn test_parent_dir() {
    assert_eq!(parent_dir("/home/maxi/backup/store.env.age"), "/home/maxi/backup");
    assert_eq!(parent_dir("/store.env.age"), "/");
    assert_eq!(parent_dir("store.env.age"), ".");
}

#[test]
fn test_remote_validation() {
    let base = Remote {
        name: "nas".to_string(),
        remote_type: RemoteType::Ssh,
        host: "nas.local".to_string(),
        user: "backup".to_string(),
        port: None,
        path: "/volume1/vault/store.env.age".to_string(),
    };
    assert!(base.validate().is_ok());

    let mut r = base.clone();
    r.host = "-oProxyCommand=evil".to_string();
    assert!(r.validate().is_err());

    let mut r = base.clone();
    r.user = "user name".to_string();
    assert!(r.validate().is_err());

    let mut r = base.clone();
    r.host = "evil@host".to_string();
    assert!(r.validate().is_err());

    let mut r = base.clone();
    r.name = String::new();
    assert!(r.validate().is_err());

    let mut r = base;
    r.path = String::new();
    assert!(r.validate().is_err());
}

fn complaint(change: impl Fn(&mut Remote)) -> (ErrorKind, String) {
    let mut r = nas();
    change(&mut r);
    let e = r.validate().unwrap_err();
    assert_eq!(e.depth(), 1);
    (e.kind(), e.message(0).to_string())
}

#[test]
fn each_problem_has_its_words() {
    assert_eq!(
        complaint(|r| r.name.clear()),
        (ErrorKind::FieldEmpty, "Remote name must not be empty".to_string())
    );
    assert_eq!(
        complaint(|r| r.host.clear()),
        (ErrorKind::FieldEmpty, "Remote host must not be empty".to_string())
    );
    assert_eq!(
        complaint(|r| r.user = "-l".to_string()),
        (ErrorKind::FieldWithDash, "Remote user must not start with '-'".to_string())
    );
    assert_eq!(
        complaint(|r| r.host = "a\u{7}b".to_string()),
        (ErrorKind::FieldWithSpace, "Remote host must not contain whitespace".to_string())
    );
    assert_eq!(
        complaint(|r| r.name = "a\u{3000}b".to_string()),
        (ErrorKind::FieldWithSpace, "Remote name must not contain whitespace".to_string())
    );
    assert_eq!(
        complaint(|r| r.user = "a@b".to_string()),
        (ErrorKind::FieldWithAt, "Remote host/user must not contain '@'".to_string())
    );
    assert_eq!(
        complaint(|r| r.path.clear()),
        (ErrorKind::PathEmpty, "Remote path must not be empty".to_string())
    );
}

#[test]
fn the_first_problem_is_told() {
    // The fields are taken in the order name, host, user, and then the path.
    assert_eq!(
        complaint(|r| {
            r.user.clear();
            r.host = "-x y".to_string();
            r.path.clear();
        }),
        (ErrorKind::FieldWithDash, "Remote host must not start with '-'".to_string())
    );
    // An `@` in the name is no problem, nor a space or a dash in the path.
    let mut r = nas();
    r.name = "a@b".to_string();
    r.path = "- x".to_string();
    assert!(r.validate().is_ok());
}

#[test]
fn parents_of_odd_paths() {
    assert_eq!(parent_dir(""), ".");
    assert_eq!(parent_dir("/"), "/");
    assert_eq!(parent_dir("a/"), "a");
    assert_eq!(parent_dir("a//b"), "a/");
    assert_eq!(parent_dir("ä/ö/ü"), "ä/ö");
}

#[test]
fn calls_are_put_together() {
    let mut r = nas();
    assert_eq!(key_backup_path("/p/store"), "/p/store.key.age");
    assert_eq!(ssh_target(&r), "backup@nas.local");
    assert_eq!(ssh_opts(&r), ["-o", "BatchMode=yes", "-o", "ConnectTimeout=10"]);
    r.port = Some(0);
    assert_eq!(ssh_opts(&r)[..2], ["-p", "0"]);
    r.port = Some(65535);
    assert_eq!(
        ssh_arguments(&r, "true".to_string()),
        [
            "-p",
            "65535",
            "-o",
            "BatchMode=yes",
            "-o",
            "ConnectTimeout=10",
            "--",
            "backup@nas.local",
            "true"
        ]
    );
}

#[test]
fn the_target_of_a_valid_remote_has_one_at_sign() {
    let r = nas();
    let target = ssh_target(&r);
    assert_eq!(target.matches('@').count(), 1);
    assert!(!target.starts_with('-'));
}

#[test]
fn types_have_names() {
    assert_eq!(RemoteType::Ssh.to_text(), "ssh");
    assert_eq!(RemoteType::Ftp.to_text(), "ftp");
    assert!(RemotesConfig::default().remote.is_empty());
}
