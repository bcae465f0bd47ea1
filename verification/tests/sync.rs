//! The work with remotes, driven in a world that is made up.

use std::collections::BTreeMap;

use vault::fault::{ErrorKind, VaultError};
use vault::plan::{Line, Outcome, Reply, Request, RunStep, Stream, WriteStep};
use vault::remote::{Remote, RemoteType, RemotesConfig};
use vault::task::{pull, pull_key, push, RemoteManager, Task};

type Ran = Result<(Option<i32>, Vec<u8>), (RunStep, String)>;

#[derive(Default)]
struct Desk {
    files: BTreeMap<Vec<u8>, Vec<u8>>,
    private: Vec<Vec<u8>>,
    forms: BTreeMap<String, Vec<Remote>>,
    /// What comes of the calls of ssh; well, where nothing is said.
    ran: Vec<Ran>,
    calls: Vec<(Vec<String>, Option<Vec<u8>>, bool)>,
    err: String,
    failing: Option<&'static str>,
}

fn words() -> String {
    "it broke".to_string()
}

impl Desk {
    fn answer(&mut self, request: Request) -> Reply {
        let fails = |what| self.failing == Some(what);
        match request {
            Request::Exists(p) => Reply::Told(self.files.contains_key(&p)),
            Request::ReadText(p) => Reply::Text(if fails("read") {
                Err(words())
            } else {
                Ok(String::from_utf8(self.files[&p].clone()).unwrap())
            }),
            Request::ReadData(p) => Reply::Data(if fails("read") {
                Err(words())
            } else {
                Ok(self.files[&p].clone())
            }),
            Request::WritePrivate(p, data) => Reply::Written(if fails("create") {
                Err((WriteStep::Create, words()))
            } else {
                self.files.insert(p.clone(), data);
                self.private.push(p);
                Ok(())
            }),
            Request::Ssh(args, input, take) => {
                self.calls.push((args, input, take));
                Reply::Ran(if self.ran.is_empty() {
                    Ok((Some(0), Vec::new()))
                } else {
                    self.ran.remove(0)
                })
            }
            Request::Say(lines) => {
                for Line { stream, text } in lines {
                    assert_eq!(stream, Stream::Notice);
                    self.err.push_str(&text);
                }
                Reply::Done(Ok(()))
            }
            Request::ParseRemotes(text) => Reply::Remotes(match self.forms.get(&text) {
                Some(all) => Ok(all.clone()),
                None => Err(words()),
            }),
            Request::FormatRemotes(all) => Reply::Text(if fails("format") {
                Err(words())
            } else {
                let text = format!("form {}", self.forms.len());
                self.forms.insert(text.clone(), all);
                Ok(text)
            }),
            Request::WriteText(p, text) => Reply::Done(if fails("write") {
                Err(words())
            } else {
                self.files.insert(p, text.into_bytes());
                Ok(())
            }),
            Request::MakePrivate(p) => Reply::Done(if fails("protect") {
                Err(words())
            } else {
                self.private.push(p);
                Ok(())
            }),
            _ => panic!("not asked by the work with remotes"),
        }
    }

    fn run(&mut self, task: Task) -> Result<Outcome, VaultError> {
        let mut task = task;
        while let Some(request) = task.request() {
            let told = task.request().unwrap();
            let reply = self.answer(request);
            assert!(reply.is_for(&told));
            task = task.resume(reply);
        }
        task.outcome()
    }
}

fn nas() -> Remote {
    Remote {
        name: "nas".to_string(),
        remote_type: RemoteType::Ssh,
        host: "nas.local".to_string(),
        user: "backup".to_string(),
        port: Some(22),
        path: "/vol/it's/store".to_string(),
    }
}

fn ftp() -> Remote {
    let mut r = nas();
    r.remote_type = RemoteType::Ftp;
    r
}

fn args(command: &str) -> Vec<String> {
    ["-p", "22", "-o", "BatchMode=yes", "-o", "ConnectTimeout=10", "--", "backup@nas.local", command]
        .iter()
        .map(|s| s.to_string())
        .collect()
}

fn failure(r: Result<Outcome, VaultError>) -> (ErrorKind, Vec<String>) {
    let e = r.err().unwrap();
    (e.kind(), (0..e.depth()).map(|i| e.message(i).to_string()).collect())
}

fn said(kind: ErrorKind, words: &[&str]) -> (ErrorKind, Vec<String>) {
    (kind, words.iter().map(|w| w.to_string()).collect())
}

fn with_store() -> Desk {
    let mut d = Desk::default();
    d.files.insert(b"/v/store".to_vec(), b"sealed".to_vec());
    d
}

const MAKE: &str = "mkdir -p -- '/vol/it'\\''s'";
const PUT: &str =
    "umask 077 && cat > '/vol/it'\\''s/store' && chmod 600 '/vol/it'\\''s/store'";
const PUT_KEY: &str = "umask 077 && cat > '/vol/it'\\''s/store.key.age' && chmod 600 \
                       '/vol/it'\\''s/store.key.age'";

#[test]
fn a_push_sends_the_store() {
    let mut d = with_store();
    let before = d.files.clone();
    assert!(matches!(d.run(push(&nas(), b"/v/store", None)), Ok(Outcome::Nothing)));
    assert_eq!(
        d.calls,
        [(args(MAKE), None, false), (args(PUT), Some(b"sealed".to_vec()), false)]
    );
    assert_eq!(
        d.err,
        "✓ Pushed encrypted store to 'nas' → backup@nas.local:/vol/it's/store\n"
    );
    assert_eq!(d.files, before);
}

#[test]
fn a_push_sends_the_key_backup_behind_it() {
    let mut d = with_store();
    assert!(d.run(push(&nas(), b"/v/store", Some(b"backup"))).is_ok());
    assert_eq!(
        d.calls,
        [
            (args(MAKE), None, false),
            (args(PUT), Some(b"sealed".to_vec()), false),
            (args(PUT_KEY), Some(b"backup".to_vec()), false),
        ]
    );
    assert_eq!(
        d.err,
        "✓ Pushed encrypted store to 'nas' → backup@nas.local:/vol/it's/store\n\
         ✓ Pushed passphrase-encrypted age key to 'nas' → \
         backup@nas.local:/vol/it's/store.key.age\n"
    );
}

#[test]
fn ftp_is_not_implemented() {
    let mut d = with_store();
    let no = said(
        ErrorKind::NotImplemented,
        &["FTP remotes are not yet implemented. Use type ssh for now."],
    );
    assert_eq!(failure(d.run(push(&ftp(), b"/v/store", None))), no);
    assert_eq!(failure(d.run(pull(&ftp(), b"/v/store"))), no);
    assert_eq!(failure(d.run(pull_key(&ftp()))), no);
    assert!(d.calls.is_empty());
}

#[test]
fn a_push_needs_a_store() {
    let mut d = Desk::default();
    assert_eq!(
        failure(d.run(push(&nas(), b"/v/store", None))),
        said(
            ErrorKind::StoreMissing,
            &["Encrypted store not found at /v/store. Run `vault init` first."]
        )
    );
    assert!(d.calls.is_empty());
    let mut d = with_store();
    d.failing = Some("read");
    assert_eq!(
        failure(d.run(push(&nas(), b"/v/store", None))),
        said(ErrorKind::StoreFileNotRead, &["Cannot read /v/store", "it broke"])
    );
}

#[test]
fn a_push_stops_where_the_directory_cannot_be_made() {
    let mut d = with_store();
    d.ran = vec![Err((RunStep::Start, words()))];
    assert_eq!(
        failure(d.run(push(&nas(), b"/v/store", None))),
        said(
            ErrorKind::RemoteDirectoryNotCreated,
            &[
                "Failed to create remote directory on 'nas'",
                "Failed to invoke ssh for nas",
                "it broke"
            ]
        )
    );
    d.ran = vec![Ok((Some(255), Vec::new()))];
    assert_eq!(
        failure(d.run(push(&nas(), b"/v/store", None))),
        said(
            ErrorKind::RemoteDirectoryNotCreated,
            &[
                "Failed to create remote directory on 'nas'",
                "ssh command failed on 'nas' (exit Some(255))"
            ]
        )
    );
    assert_eq!(d.calls.len(), 2);
    assert_eq!(d.err, "");
}

fn push_fails_with(ran: Ran) -> (ErrorKind, Vec<String>) {
    let mut d = with_store();
    d.ran = vec![Ok((Some(0), Vec::new())), ran];
    let f = failure(d.run(push(&nas(), b"/v/store", Some(b"backup"))));
    assert_eq!(d.calls.len(), 2);
    assert_eq!(d.err, "");
    f
}

#[test]
fn a_push_stops_where_the_store_does_not_arrive() {
    assert_eq!(
        push_fails_with(Err((RunStep::Start, words()))),
        said(ErrorKind::SshNotStarted, &["Failed to spawn ssh for nas", "it broke"])
    );
    assert_eq!(
        push_fails_with(Err((RunStep::Feed, words()))),
        said(ErrorKind::SshNotFed, &["Failed to pipe file to ssh for nas", "it broke"])
    );
    assert_eq!(
        push_fails_with(Err((RunStep::Await, words()))),
        said(ErrorKind::SshNotAwaited, &["Failed to wait on ssh for nas", "it broke"])
    );
    assert_eq!(
        push_fails_with(Ok((None, Vec::new()))),
        said(ErrorKind::SshFailed, &["ssh upload failed for 'nas' (exit None)"])
    );
    assert_eq!(
        push_fails_with(Ok((Some(-1), Vec::new()))),
        said(ErrorKind::SshFailed, &["ssh upload failed for 'nas' (exit Some(-1))"])
    );
}

#[test]
fn a_key_backup_that_does_not_arrive_is_told() {
    let mut d = with_store();
    d.ran = vec![Ok((Some(0), Vec::new())), Ok((Some(0), Vec::new())), Ok((Some(1), Vec::new()))];
    assert_eq!(
        failure(d.run(push(&nas(), b"/v/store", Some(b"backup")))),
        said(ErrorKind::SshFailed, &["ssh upload failed for 'nas' (exit Some(1))"])
    );
    assert_eq!(
        d.err,
        "✓ Pushed encrypted store to 'nas' → backup@nas.local:/vol/it's/store\n"
    );
}

#[test]
fn a_pull_writes_a_file_of_its_own() {
    let mut d = with_store();
    d.ran = vec![Ok((Some(0), b"theirs".to_vec()))];
    match d.run(pull(&nas(), b"/v/store")) {
        Ok(Outcome::Path(p)) => assert_eq!(p, b"/v/store.pull-tmp"),
        _ => panic!("no path"),
    }
    assert_eq!(d.calls, [(args("cat '/vol/it'\\''s/store'"), None, true)]);
    assert_eq!(d.files[&b"/v/store"[..]], b"sealed");
    assert_eq!(d.files[&b"/v/store.pull-tmp"[..]], b"theirs");
    assert_eq!(d.private, [b"/v/store.pull-tmp".to_vec()]);
    assert_eq!(d.err, "");
}

#[test]
fn a_pull_next_to_an_odd_path_writes_next_to_it() {
    let mut d = Desk::default();
    match d.run(pull(&nas(), b"/\xff")) {
        Ok(Outcome::Path(p)) => assert_eq!(p, b"/\xff.pull-tmp"),
        _ => panic!("no path"),
    }
}

#[test]
fn what_a_failed_call_printed_is_not_taken() {
    let mut d = with_store();
    let before = d.files.clone();
    for (ran, expected) in [
        (
            Ok((Some(1), b"half".to_vec())),
            said(ErrorKind::SshFailed, &["ssh download failed for 'nas' (exit Some(1))"]),
        ),
        (
            Ok((None, Vec::new())),
            said(ErrorKind::SshFailed, &["ssh download failed for 'nas' (exit None)"]),
        ),
        (
            Err((RunStep::Start, words())),
            said(ErrorKind::SshNotStarted, &["Failed to spawn ssh for nas", "it broke"]),
        ),
        (
            Err((RunStep::Read, words())),
            said(ErrorKind::SshNotRead, &["Failed to read remote file from nas", "it broke"]),
        ),
        (
            Err((RunStep::Await, words())),
            said(ErrorKind::SshNotAwaited, &["Failed to wait on ssh for nas", "it broke"]),
        ),
    ] {
        d.ran = vec![ran.clone(), ran];
        assert_eq!(failure(d.run(pull(&nas(), b"/v/store"))), expected);
        assert_eq!(failure(d.run(pull_key(&nas()))), expected);
        assert_eq!(d.files, before);
    }
}

#[test]
fn a_pull_fails_where_its_file_cannot_be_written() {
    let mut d = with_store();
    d.failing = Some("create");
    assert_eq!(
        failure(d.run(pull(&nas(), b"/v/store"))),
        said(ErrorKind::FileNotWritten, &["Cannot create /v/store.pull-tmp", "it broke"])
    );
}

#[test]
fn a_key_backup_is_handed_over() {
    let mut d = Desk::default();
    d.ran = vec![Ok((Some(0), b"key".to_vec()))];
    match d.run(pull_key(&nas())) {
        Ok(Outcome::Data(data)) => assert_eq!(data, b"key"),
        _ => panic!("no data"),
    }
    assert_eq!(d.calls, [(args("cat '/vol/it'\\''s/store.key.age'"), None, true)]);
    assert!(d.files.is_empty());
}

#[test]
fn what_was_pushed_is_what_is_pulled() {
    let mut d = with_store();
    assert!(d.run(push(&nas(), b"/v/store", Some(b"backup"))).is_ok());
    // The remote hands back what it was fed.
    let sent = d.calls[1].1.clone().unwrap();
    let key = d.calls[2].1.clone().unwrap();
    d.ran = vec![Ok((Some(0), sent)), Ok((Some(0), key))];
    assert!(d.run(pull(&nas(), b"/other/store")).is_ok());
    assert_eq!(d.files[&b"/other/store.pull-tmp"[..]], b"sealed");
    match d.run(pull_key(&nas())) {
        Ok(Outcome::Data(data)) => assert_eq!(data, b"backup"),
        _ => panic!("no data"),
    }
}

fn manager() -> RemoteManager {
    RemoteManager::new(b"/v/remotes.toml".to_vec())
}

fn names(r: Result<Outcome, VaultError>) -> Vec<String> {
    match r {
        Ok(Outcome::Remotes(all)) => all.into_iter().map(|r| r.name).collect(),
        _ => panic!("no remotes"),
    }
}

fn called(name: &str) -> Remote {
    let mut r = nas();
    r.name = name.to_string();
    r.path = format!("/p/{name}");
    r
}

#[test]
fn remotes_are_added_found_and_removed() {
    let mut d = Desk::default();
    assert!(names(d.run(manager().load())).is_empty());
    for name in ["a", "b", "c"] {
        assert!(matches!(d.run(manager().add(called(name))), Ok(Outcome::Nothing)));
    }
    assert_eq!(names(d.run(manager().load())), ["a", "b", "c"]);
    assert_eq!(names(d.run(RemotesConfig::load(b"/v/remotes.toml"))), ["a", "b", "c"]);
    assert!(d.private.contains(&b"/v/remotes.toml".to_vec()));
    match d.run(manager().find("b")) {
        Ok(Outcome::Remote(r)) => assert_eq!(r.path, "/p/b"),
        _ => panic!("no remote"),
    }
    assert!(matches!(d.run(manager().remove("b")), Ok(Outcome::Nothing)));
    assert_eq!(names(d.run(manager().load())), ["a", "c"]);
    assert_eq!(
        failure(d.run(manager().find("b"))),
        said(
            ErrorKind::RemoteUnknown,
            &["Remote 'b' not configured. Run: vault remote list"]
        )
    );
    assert_eq!(
        failure(d.run(manager().remove("b"))),
        said(ErrorKind::RemoteNotFound, &["Remote 'b' not found"])
    );
}

#[test]
fn a_name_is_taken_once() {
    let mut d = Desk::default();
    assert!(d.run(manager().add(called("a"))).is_ok());
    let before = d.files.clone();
    assert_eq!(
        failure(d.run(manager().add(called("a")))),
        said(
            ErrorKind::RemoteExists,
            &["Remote 'a' already exists. Remove it first: vault remote rm a"]
        )
    );
    assert_eq!(d.files, before);
}

#[test]
fn names_stay_apart() {
    let mut d = Desk::default();
    for (name, goes) in [("a", true), ("b", true), ("a", false), ("c", true), ("b", false)] {
        assert_eq!(d.run(manager().add(called(name))).is_ok(), goes);
    }
    assert_eq!(names(d.run(manager().load())), ["a", "b", "c"]);
    assert!(d.run(manager().remove("b")).is_ok());
    let before = d.files.clone();
    assert!(d.run(manager().remove("b")).is_err());
    assert_eq!(d.files, before);
    assert_eq!(names(d.run(manager().load())), ["a", "c"]);
    d.failing = Some("protect");
    assert!(d.run(manager().add(called("b"))).is_err());
    d.failing = None;
    assert_eq!(names(d.run(manager().load())), ["a", "c", "b"]);
}

#[test]
fn an_unsound_remote_is_not_added() {
    let mut d = Desk::default();
    let mut r = called("a");
    r.host = "-x".to_string();
    assert_eq!(
        failure(d.run(manager().add(r))),
        said(ErrorKind::FieldWithDash, &["Remote host must not start with '-'"])
    );
    assert!(d.files.is_empty());
}

#[test]
fn removing_takes_every_remote_of_the_name() {
    let mut d = Desk::default();
    let all = [called("a"), called("b"), called("a")];
    assert!(d.run(RemotesConfig::save(b"/v/remotes.toml", &all)).is_ok());
    assert!(d.run(manager().remove("a")).is_ok());
    assert_eq!(names(d.run(manager().load())), ["b"]);
}

#[test]
fn a_configuration_can_be_wrong() {
    let mut d = Desk::default();
    d.files.insert(b"/v/remotes.toml".to_vec(), b"junk".to_vec());
    assert_eq!(
        failure(d.run(manager().load())),
        said(ErrorKind::RemotesInvalid, &["Invalid remotes config: it broke"])
    );
    d.failing = Some("read");
    assert_eq!(
        failure(d.run(manager().find("a"))),
        said(
            ErrorKind::RemotesNotRead,
            &["Cannot read remotes config at /v/remotes.toml", "it broke"]
        )
    );
    d.files.clear();
    d.failing = Some("format");
    assert_eq!(
        failure(d.run(manager().add(called("a")))),
        said(
            ErrorKind::RemotesNotFormatted,
            &["Failed to serialize remotes config: it broke"]
        )
    );
    d.failing = Some("write");
    assert_eq!(
        failure(d.run(manager().add(called("a")))),
        said(
            ErrorKind::RemotesNotWritten,
            &["Cannot write remotes config to /v/remotes.toml", "it broke"]
        )
    );
    d.failing = Some("protect");
    assert_eq!(
        failure(d.run(manager().add(called("a")))),
        said(ErrorKind::RemotesNotProtected, &["it broke"])
    );
}
