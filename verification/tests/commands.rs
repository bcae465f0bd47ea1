//! The commands on a vault, driven in a world of files that is made up.

use std::collections::BTreeMap;

use vault::command::{Aim, Purpose};
use vault::crypto::{age_decrypt, age_encrypt, DecryptError, DecryptStep, IdentityKey, Lock};
use vault::fault::{ErrorKind, VaultError};
use vault::plan::{Line, Outcome, Reply, Request, RunStep, Stream, WriteStep};
use vault::store::{load_identity, Store};
use vault::task::Task;

struct Desk {
    files: BTreeMap<Vec<u8>, Vec<u8>>,
    dirs: Vec<Vec<u8>>,
    variables: BTreeMap<String, Vec<u8>>,
    typed: Result<String, String>,
    /// What the editor leaves in the file, and its exit code.
    edited: Option<Vec<u8>>,
    /// A file that the editor changes besides.
    spoiled: Option<Vec<u8>>,
    exit: Result<Option<i32>, String>,
    out: String,
    err: String,
    asked: Vec<String>,
    /// The request that fails.
    failing: Option<String>,
    step: WriteStep,
}

impl Desk {
    fn new() -> Desk {
        Desk {
            files: BTreeMap::new(),
            dirs: vec![b"/tmp".to_vec()],
            variables: BTreeMap::new(),
            typed: Err("no terminal".to_string()),
            edited: None,
            spoiled: None,
            exit: Ok(Some(0)),
            out: String::new(),
            err: String::new(),
            asked: Vec::new(),
            failing: None,
            step: WriteStep::Create,
        }
    }

    fn text(path: &[u8]) -> String {
        String::from_utf8_lossy(path).into_owned()
    }

    fn label(request: &Request) -> String {
        match request {
            Request::Exists(p) => format!("exists {}", Desk::text(p)),
            Request::IsDir(p) => format!("is dir {}", Desk::text(p)),
            Request::ReadText(p) => format!("read text {}", Desk::text(p)),
            Request::ReadData(p) => format!("read data {}", Desk::text(p)),
            Request::CreateDir(p) => format!("create dir {}", Desk::text(p)),
            Request::WritePrivate(p, _) => format!("write {}", Desk::text(p)),
            Request::Rename(p, q) => format!("rename {} {}", Desk::text(p), Desk::text(q)),
            Request::Remove(p) => format!("remove {}", Desk::text(p)),
            Request::ProcessId => "process".to_string(),
            Request::Password(prompt) => format!("password {prompt}"),
            Request::Variable(name) => format!("variable {name}"),
            Request::TextVariable(name) => format!("text variable {name}"),
            Request::TempDir => "temp dir".to_string(),
            Request::Shell(command) => format!("shell {command}"),
            Request::Say(_) => "say".to_string(),
            _ => panic!("not asked by a vault"),
        }
    }

    fn answer(&mut self, request: Request) -> Reply {
        let label = Desk::label(&request);
        let fails = self.failing.as_deref() == Some(label.as_str());
        self.asked.push(label);
        let words = || "it broke".to_string();
        match request {
            Request::Exists(p) => {
                Reply::Told(self.files.contains_key(&p) || self.dirs.contains(&p))
            }
            Request::IsDir(p) => Reply::Told(self.dirs.contains(&p)),
            Request::ReadText(p) => Reply::Text(match self.files.get(&p) {
                Some(data) if !fails => String::from_utf8(data.clone()).map_err(|_| words()),
                _ => Err(words()),
            }),
            Request::ReadData(p) => Reply::Data(match self.files.get(&p) {
                Some(data) if !fails => Ok(data.clone()),
                _ => Err(words()),
            }),
            Request::CreateDir(p) => Reply::Done(if fails {
                Err(words())
            } else {
                self.dirs.push(p);
                Ok(())
            }),
            Request::WritePrivate(p, data) => Reply::Written(if fails {
                if self.step == WriteStep::Write {
                    self.files.insert(p, data[..1].to_vec());
                }
                Err((self.step, words()))
            } else {
                self.files.insert(p, data);
                Ok(())
            }),
            Request::Rename(p, q) => Reply::Done(if fails {
                Err(words())
            } else {
                let data = self.files.remove(&p).unwrap();
                self.files.insert(q, data);
                Ok(())
            }),
            Request::Remove(p) => Reply::Done(match self.files.remove(&p) {
                Some(_) => Ok(()),
                None => Err(words()),
            }),
            Request::ProcessId => Reply::Number(4711),
            Request::Password(prompt) => {
                self.err.push_str(&prompt);
                Reply::Text(self.typed.clone())
            }
            Request::Variable(name) => Reply::Maybe(self.variables.get(&name).cloned()),
            Request::TextVariable(name) => Reply::Text(match self.variables.get(&name) {
                Some(v) => String::from_utf8(v.clone()).map_err(|_| words()),
                None => Err(words()),
            }),
            Request::TempDir => Reply::Path(b"/tmp".to_vec()),
            Request::Shell(_) => Reply::Ran(match &self.exit {
                Ok(code) => {
                    if let Some(text) = &self.edited {
                        let temp = self.plain_text().unwrap();
                        self.files.insert(temp, text.clone());
                    }
                    if let Some(path) = &self.spoiled {
                        self.files.insert(path.clone(), b"junk".to_vec());
                    }
                    Ok((*code, Vec::new()))
                }
                Err(words) => Err((RunStep::Start, words.clone())),
            }),
            Request::Say(lines) => {
                for Line { stream, text } in lines {
                    match stream {
                        Stream::Output => self.out.push_str(&text),
                        Stream::Notice => self.err.push_str(&text),
                    }
                }
                Reply::Done(Ok(()))
            }
            _ => panic!("not asked by a vault"),
        }
    }

    fn plain_text(&self) -> Option<Vec<u8>> {
        self.files.keys().find(|p| p.ends_with(b"vault-edit-4711.env")).cloned()
    }

    fn run(&mut self, task: Task) -> Result<Outcome, VaultError> {
        self.out.clear();
        self.err.clear();
        self.asked.clear();
        let mut task = task;
        loop {
            match task.request() {
                None => return task.outcome(),
                Some(request) => {
                    let told = task.request().unwrap();
                    let reply = self.answer(request);
                    assert!(reply.is_for(&told));
                    task = task.resume(reply);
                }
            }
        }
    }
}

fn place() -> Store {
    Store::at(b"/v".to_vec())
}

/// A desk with a vault that has some secrets.
fn desk(pairs: &[(&str, &str)]) -> Desk {
    let mut d = Desk::new();
    d.run(place().init()).unwrap();
    for (k, v) in pairs {
        d.run(place().add(k, Some(v.to_string()))).unwrap();
    }
    d
}

fn lock(d: &Desk) -> Lock {
    let text = String::from_utf8(d.files[&b"/v/key.txt"[..]].clone()).unwrap();
    Lock::Identity(load_identity(b"/v/key.txt", Ok(text)).ok().unwrap())
}

fn stored(d: &Desk) -> String {
    let file = &d.files[&b"/v/store.env.age"[..]];
    String::from_utf8(age_decrypt(&lock(d), file).unwrap()).unwrap()
}

fn put_store(d: &mut Desk, data: &[u8]) {
    let file = age_encrypt(&lock(d), data).unwrap();
    d.files.insert(b"/v/store.env.age".to_vec(), file);
}

fn nothing(r: Result<Outcome, VaultError>) {
    assert!(matches!(r, Ok(Outcome::Nothing)));
}

fn failure(r: Result<Outcome, VaultError>) -> (ErrorKind, Vec<String>) {
    let e = r.err().unwrap();
    (e.kind(), (0..e.depth()).map(|i| e.message(i).to_string()).collect())
}

fn said(kind: ErrorKind, words: &[&str]) -> (ErrorKind, Vec<String>) {
    (kind, words.iter().map(|w| w.to_string()).collect())
}

const HEADER: &str = "# Vault secrets — edit this file, save to encrypt.\n\
                      # Format: KEY=value  (one per line, lines starting with # are ignored)\n\n";
const HINT: &str = "# No secrets yet. Add lines like:\n# OPENAI_API_KEY=sk-...\n";

#[test]
fn init_makes_a_key_and_an_empty_store() {
    let mut d = Desk::new();
    nothing(d.run(place().init()));
    assert_eq!(
        d.asked,
        [
            "exists /v/key.txt",
            "exists /v",
            "create dir /v",
            "write /v/key.txt",
            "read text /v/key.txt",
            "process",
            "write /v/store.env.age.tmp-4711",
            "rename /v/store.env.age.tmp-4711 /v/store.env.age",
            "say",
        ]
    );
    assert_eq!(stored(&d), format!("{HEADER}{HINT}"));
    let key = match lock(&d) {
        Lock::Identity(key) => key,
        Lock::Passphrase(_) => panic!("no identity"),
    };
    assert_eq!(d.out, "");
    assert_eq!(
        d.err,
        format!(
            "✓ Vault initialized\n  Location:   /v\n  Public key: {}\n\n  Next steps:\n    \
             vault add OPENAI_API_KEY sk-...\n    vault edit              # open in $EDITOR\n    \
             eval \"$(vault env)\"    # inject into shell\n",
            key.public_key()
        )
    );
    assert_eq!(d.files.len(), 2);
}

#[test]
fn init_refuses_where_there_is_a_key() {
    let mut d = desk(&[("A", "1")]);
    let before = d.files.clone();
    assert_eq!(
        failure(d.run(place().init())),
        said(ErrorKind::AlreadyInitialized, &["Vault already initialized at /v"])
    );
    assert_eq!(d.files, before);
}

#[test]
fn init_fails_where_the_directory_cannot_be_made() {
    let mut d = Desk::new();
    d.failing = Some("create dir /v".to_string());
    assert_eq!(
        failure(d.run(place().init())),
        said(ErrorKind::DirectoryNotCreated, &["Cannot create directory /v", "it broke"])
    );
    assert!(d.files.is_empty());
}

#[test]
fn init_fails_where_the_key_cannot_be_written() {
    let mut d = Desk::new();
    d.failing = Some("write /v/key.txt".to_string());
    assert_eq!(
        failure(d.run(place().init())),
        said(ErrorKind::FileNotWritten, &["Cannot create /v/key.txt", "it broke"])
    );
    d.step = WriteStep::Write;
    assert_eq!(failure(d.run(place().init())), said(ErrorKind::FileNotWritten, &["it broke"]));
}

#[test]
fn every_command_but_env_needs_a_key() {
    let mut d = Desk::new();
    let s = place();
    for task in [
        s.edit(),
        s.add("A", Some("1".to_string())),
        s.add("1", None),
        s.get("A"),
        s.list(),
        s.remove("A"),
        s.cat(),
        s.ensure_init(),
    ] {
        assert_eq!(
            failure(d.run(task)),
            said(ErrorKind::NotInitialized, &["Vault not initialized. Run: vault init"])
        );
        assert_eq!(d.asked, ["exists /v/key.txt"]);
        assert_eq!((d.out.as_str(), d.err.as_str()), ("", ""));
    }
    nothing(d.run(s.env()));
    assert_eq!(d.asked, ["exists /v/store.env.age"]);
    assert!(d.files.is_empty());
}

#[test]
fn what_is_added_is_got() {
    let mut d = desk(&[]);
    nothing(d.run(place().add("TOKEN", Some("it's = # 1".to_string()))));
    assert_eq!(d.err, "✓ Added 'TOKEN'\n");
    assert_eq!(d.out, "");
    assert_eq!(
        d.asked,
        [
            "exists /v/key.txt",
            "exists /v/store.env.age",
            "read text /v/key.txt",
            "read data /v/store.env.age",
            "read text /v/key.txt",
            "process",
            "write /v/store.env.age.tmp-4711",
            "rename /v/store.env.age.tmp-4711 /v/store.env.age",
            "say",
        ]
    );
    nothing(d.run(place().get("TOKEN")));
    assert_eq!((d.out.as_str(), d.err.as_str()), ("it's = # 1\n", ""));
    nothing(d.run(place().add("TOKEN", Some("2".to_string()))));
    assert_eq!(d.err, "✓ Updated 'TOKEN'\n");
    nothing(d.run(place().get("TOKEN")));
    assert_eq!(d.out, "2\n");
    assert_eq!(stored(&d), format!("{HEADER}TOKEN=2\n"));
}

#[test]
fn adding_keeps_the_other_secrets() {
    let mut d = desk(&[("B", "2"), ("A", "1")]);
    nothing(d.run(place().add("C", Some("3".to_string()))));
    assert_eq!(stored(&d), format!("{HEADER}A=1\nB=2\nC=3\n"));
}

fn refused(name: &str) -> (ErrorKind, Vec<String>) {
    let words = format!(
        "Invalid value for '{name}' — it must be a single line without whitespace at its ends"
    );
    said(ErrorKind::InvalidValue, &[words.as_str()])
}

#[test]
fn a_value_that_the_format_cannot_hold_is_refused() {
    let mut d = desk(&[("A", "0")]);
    let before = d.files.clone();
    for value in [" 1", "1 ", "1\t", "\u{3000}1", "1\r", "1\nB=2", "\n", " "] {
        assert_eq!(failure(d.run(place().add("A", Some(value.to_string())))), refused("A"));
        assert_eq!(d.asked, ["exists /v/key.txt"]);
        assert_eq!(d.files, before);
    }
    nothing(d.run(place().get("A")));
    assert_eq!(d.out, "0\n");
    assert_eq!(failure(d.run(place().get("B"))).0, ErrorKind::UnknownName);
}

#[test]
fn a_value_that_the_format_can_hold_comes_back() {
    let mut d = desk(&[]);
    for value in ["", "a b", "=", "#", "'\"", "1\r2", "ä\t\u{3000}ö"] {
        nothing(d.run(place().add("A", Some(value.to_string()))));
        nothing(d.run(place().get("A")));
        assert_eq!(d.out, format!("{value}\n"));
    }
}

#[test]
fn a_typed_value_that_the_format_cannot_hold_is_refused() {
    let mut d = desk(&[]);
    let before = d.files.clone();
    d.typed = Ok("typed ".to_string());
    assert_eq!(failure(d.run(place().add("A", None))), refused("A"));
    assert_eq!(d.asked, ["exists /v/key.txt", "password Enter value for A: "]);
    assert_eq!(d.files, before);
}

#[test]
fn a_value_that_is_not_given_is_asked_for() {
    let mut d = desk(&[]);
    d.typed = Ok("typed".to_string());
    nothing(d.run(place().add("A", None)));
    assert_eq!(d.asked[1], "password Enter value for A: ");
    assert_eq!(d.err, "Enter value for A: ✓ Added 'A'\n");
    nothing(d.run(place().get("A")));
    assert_eq!(d.out, "typed\n");
    d.typed = Err("no terminal".to_string());
    let before = d.files.clone();
    assert_eq!(
        failure(d.run(place().add("A", None))),
        said(ErrorKind::NoPassword, &["no terminal"])
    );
    assert_eq!(d.files, before);
}

#[test]
fn a_bad_name_is_refused_before_anything_is_read() {
    let mut d = desk(&[]);
    assert_eq!(
        failure(d.run(place().add("A-B", None))),
        said(
            ErrorKind::InvalidName,
            &["Invalid key 'A-B' — use letters, digits and underscores, not starting with a digit"]
        )
    );
    assert_eq!(d.asked, ["exists /v/key.txt"]);
}

#[test]
fn what_is_removed_is_gone() {
    let mut d = desk(&[("A", "1"), ("B", "2")]);
    nothing(d.run(place().remove("A")));
    assert_eq!((d.out.as_str(), d.err.as_str()), ("", "✓ Removed 'A'\n"));
    assert_eq!(stored(&d), format!("{HEADER}B=2\n"));
    let gone = said(ErrorKind::UnknownName, &["Key 'A' not found"]);
    assert_eq!(failure(d.run(place().get("A"))), gone);
    let before = d.files.clone();
    assert_eq!(failure(d.run(place().remove("A"))), gone);
    assert_eq!(d.files, before);
    nothing(d.run(place().remove("B")));
    assert_eq!(stored(&d), format!("{HEADER}{HINT}"));
}

#[test]
fn names_are_listed_in_order_and_without_values() {
    let mut d = desk(&[("b", "secret"), ("a", "secret"), ("B", "secret")]);
    nothing(d.run(place().list()));
    assert_eq!((d.out.as_str(), d.err.as_str()), ("B\na\nb\n", ""));
    let mut other = desk(&[("b", "x"), ("a", "y"), ("B", "z")]);
    nothing(other.run(place().list()));
    assert_eq!(other.out, d.out);
    let mut d = desk(&[]);
    nothing(d.run(place().list()));
    assert_eq!(
        (d.out.as_str(), d.err.as_str()),
        ("", "No secrets stored. Use `vault add` or `vault edit`.\n")
    );
}

#[test]
fn env_prints_lines_for_a_shell() {
    let mut d = desk(&[("A", "plain"), ("B", "it's"), ("C", "")]);
    put_store(&mut d, b"A=plain\nB=it's\nC=\nbad-name=1\nD = $(x) \n");
    nothing(d.run(place().env()));
    assert_eq!(d.out, "export A=plain\nexport B='it'\\''s'\nexport C=''\nexport D='$(x)'\n");
    assert_eq!(d.err, "⚠ Skipping 'bad-name' — not a valid environment variable name\n");
    assert_eq!(
        d.asked,
        [
            "exists /v/store.env.age",
            "exists /v/store.env.age",
            "read text /v/key.txt",
            "read data /v/store.env.age",
            "say",
        ]
    );
}

#[test]
fn cat_prints_the_store_as_it_is() {
    let mut d = desk(&[]);
    put_store(&mut d, "odd text\r\n\n A=ü".as_bytes());
    nothing(d.run(place().cat()));
    assert_eq!((d.out.as_str(), d.err.as_str()), ("odd text\r\n\n A=ü", ""));
}

#[test]
fn a_store_that_is_not_there_holds_nothing() {
    let mut d = desk(&[("A", "1")]);
    d.files.remove(&b"/v/store.env.age"[..]);
    nothing(d.run(place().list()));
    assert_eq!(d.out, "");
    nothing(d.run(place().env()));
    assert_eq!((d.out.as_str(), d.err.as_str()), ("", ""));
    assert_eq!(failure(d.run(place().get("A"))).0, ErrorKind::UnknownName);
    assert_eq!(
        failure(d.run(place().cat())),
        said(ErrorKind::StoreNotRead, &["Cannot read store at /v/store.env.age", "it broke"])
    );
    nothing(d.run(place().add("B", Some("2".to_string()))));
    assert_eq!(stored(&d), format!("{HEADER}B=2\n"));
}

#[test]
fn a_store_can_be_unreadable() {
    let mut d = desk(&[("A", "1")]);
    d.failing = Some("read data /v/store.env.age".to_string());
    assert_eq!(
        failure(d.run(place().get("A"))),
        said(ErrorKind::StoreNotRead, &["Cannot read store at /v/store.env.age", "it broke"])
    );
    d.failing = Some("read text /v/key.txt".to_string());
    assert_eq!(
        failure(d.run(place().get("A"))),
        said(ErrorKind::KeyNotRead, &["Cannot read key at /v/key.txt", "it broke"])
    );
    d.failing = None;

    d.files.insert(b"/v/store.env.age".to_vec(), b"junk".to_vec());
    let (kind, words) = failure(d.run(place().get("A")));
    assert_eq!(kind, ErrorKind::StoreNotDecrypted);
    assert!(words[0].starts_with("Failed to decrypt store: Not a valid age file: "));

    let other = Lock::Identity(IdentityKey::generate());
    let file = age_encrypt(&other, b"A=1").unwrap();
    d.files.insert(b"/v/store.env.age".to_vec(), file);
    let (kind, words) = failure(d.run(place().list()));
    assert_eq!(kind, ErrorKind::StoreNotDecrypted);
    assert!(words[0].starts_with("Failed to decrypt store: Decryption failed: "));

    put_store(&mut d, b"A=\xff");
    let (kind, words) = failure(d.run(place().env()));
    assert_eq!(kind, ErrorKind::StoreNotText);
    assert_eq!(words[0], "Decrypted store is not valid UTF-8");
    let complaint = String::from_utf8(b"A=\xff".to_vec()).unwrap_err().to_string();
    assert_eq!(words[1..], [complaint]);

    d.files.insert(b"/v/key.txt".to_vec(), b"# no key\n".to_vec());
    assert_eq!(failure(d.run(place().cat())).0, ErrorKind::NoKeyLine);
    d.files.insert(b"/v/key.txt".to_vec(), b"AGE-SECRET-KEY-1\n".to_vec());
    assert_eq!(failure(d.run(place().cat())).0, ErrorKind::InvalidIdentity);
}

#[test]
fn a_failed_save_leaves_the_store_as_it_was() {
    let mut d = desk(&[("A", "1")]);
    let before = stored(&d);
    d.failing = Some("write /v/store.env.age.tmp-4711".to_string());
    assert_eq!(
        failure(d.run(place().add("B", Some("2".to_string())))),
        said(ErrorKind::FileNotWritten, &["Cannot create /v/store.env.age.tmp-4711", "it broke"])
    );
    assert_eq!(stored(&d), before);
    d.step = WriteStep::Write;
    assert_eq!(
        failure(d.run(place().remove("A"))),
        said(ErrorKind::FileNotWritten, &["it broke"])
    );
    assert_eq!(stored(&d), before);
    d.failing = Some("rename /v/store.env.age.tmp-4711 /v/store.env.age".to_string());
    assert_eq!(
        failure(d.run(place().add("B", Some("2".to_string())))),
        said(ErrorKind::StoreNotReplaced, &["Cannot write store to /v/store.env.age", "it broke"])
    );
    assert_eq!(stored(&d), before);
    assert_eq!(d.err, "");
}

#[test]
fn an_edited_text_is_saved() {
    let mut d = desk(&[("A", "1")]);
    d.variables.insert("EDITOR".to_string(), b"nvim -p".to_vec());
    d.edited = Some("# mine\nB = 2\nword\nA=3\n".as_bytes().to_vec());
    nothing(d.run(place().edit()));
    assert_eq!(
        d.err,
        "⚠ 1 line(s) without KEY=VALUE were ignored and not saved.\n✓ Store updated (2 secrets)\n"
    );
    assert_eq!(stored(&d), format!("{HEADER}A=3\nB=2\n"));
    assert_eq!(d.plain_text(), None);
    assert_eq!(
        d.asked,
        [
            "exists /v/key.txt",
            "exists /v/store.env.age",
            "read text /v/key.txt",
            "read data /v/store.env.age",
            "variable XDG_RUNTIME_DIR",
            "temp dir",
            "process",
            "write /tmp/vault-edit-4711.env",
            "text variable EDITOR",
            "shell nvim -p '/tmp/vault-edit-4711.env'",
            "read text /tmp/vault-edit-4711.env",
            "say",
            "read text /v/key.txt",
            "process",
            "write /v/store.env.age.tmp-4711",
            "rename /v/store.env.age.tmp-4711 /v/store.env.age",
            "say",
            "remove /tmp/vault-edit-4711.env",
        ]
    );
}

#[test]
fn the_plain_text_goes_to_the_runtime_directory() {
    let mut d = desk(&[]);
    d.variables.insert("XDG_RUNTIME_DIR".to_string(), b"/run/me".to_vec());
    d.dirs.push(b"/run/me".to_vec());
    d.variables.insert("VISUAL".to_string(), b"ed".to_vec());
    d.edited = Some(b"A=1".to_vec());
    nothing(d.run(place().edit()));
    assert!(d.asked.contains(&"write /run/me/vault-edit-4711.env".to_string()));
    assert!(d.asked.contains(&"shell ed '/run/me/vault-edit-4711.env'".to_string()));
    assert_eq!(d.err, "✓ Store updated (1 secrets)\n");

    // A variable that names no directory does not count.
    d.variables.insert("XDG_RUNTIME_DIR".to_string(), b"/gone".to_vec());
    d.variables.remove("VISUAL");
    nothing(d.run(place().edit()));
    assert!(d.asked.contains(&"is dir /gone".to_string()));
    assert!(d.asked.contains(&"shell vi '/tmp/vault-edit-4711.env'".to_string()));
}

#[test]
fn a_quote_in_the_path_does_not_end_it_for_the_shell() {
    let mut d = desk(&[]);
    d.variables.insert("XDG_RUNTIME_DIR".to_string(), b"/run/it's; me".to_vec());
    d.dirs.push(b"/run/it's; me".to_vec());
    d.edited = Some(b"A=1".to_vec());
    nothing(d.run(place().edit()));
    let command = "shell vi '/run/it'\\''s; me/vault-edit-4711.env'";
    assert!(d.asked.contains(&command.to_string()));
    assert_eq!(d.plain_text(), None);
}

#[test]
fn an_unchanged_text_is_not_saved() {
    let mut d = desk(&[("A", "1")]);
    let before = d.files.clone();
    nothing(d.run(place().edit()));
    assert_eq!(d.err, "No changes — store not updated.\n");
    assert_eq!(d.files, before);
    // White space at the ends does not count.
    d.edited = Some(format!("\n {HEADER}A=1\n\n\t").into_bytes());
    nothing(d.run(place().edit()));
    assert_eq!(d.err, "No changes — store not updated.\n");
    assert_eq!(d.files, before);
}

#[test]
fn no_plain_text_is_left_behind() {
    let mut d = desk(&[("A", "1")]);
    let before = d.files.clone();

    d.exit = Ok(Some(1));
    let failed = said(ErrorKind::EditorFailed, &["Editor exited with non-zero status"]);
    assert_eq!(failure(d.run(place().edit())), failed);
    assert_eq!(d.files, before);

    d.exit = Ok(None);
    assert_eq!(failure(d.run(place().edit())), failed);
    assert_eq!(d.files, before);

    d.exit = Err("no shell".to_string());
    assert_eq!(
        failure(d.run(place().edit())),
        said(ErrorKind::EditorNotStarted, &["Failed to launch editor: vi", "no shell"])
    );
    assert_eq!(d.files, before);

    d.exit = Ok(Some(0));
    d.edited = Some(b"\xff".to_vec());
    assert_eq!(failure(d.run(place().edit())), said(ErrorKind::EditNotRead, &["it broke"]));
    assert_eq!(d.files, before);

    d.edited = Some(b"A=2".to_vec());
    d.failing = Some("rename /v/store.env.age.tmp-4711 /v/store.env.age".to_string());
    assert_eq!(failure(d.run(place().edit())).0, ErrorKind::StoreNotReplaced);
    assert_eq!(d.plain_text(), None);

    d.failing = Some("write /tmp/vault-edit-4711.env".to_string());
    assert_eq!(
        failure(d.run(place().edit())),
        said(ErrorKind::FileNotWritten, &["Cannot create /tmp/vault-edit-4711.env", "it broke"])
    );
    assert_eq!(d.plain_text(), None);

    d.step = WriteStep::Write;
    assert_eq!(failure(d.run(place().edit())), said(ErrorKind::FileNotWritten, &["it broke"]));
    assert_eq!(d.plain_text(), None);
}

#[test]
fn no_plain_text_is_left_behind_by_an_editor_that_spoils_the_vault() {
    for path in ["/v/key.txt", "/v/store.env.age", "/v/store.env.age.tmp-4711"] {
        let mut d = desk(&[("A", "1")]);
        d.edited = Some(b"A=2".to_vec());
        d.spoiled = Some(path.as_bytes().to_vec());
        let r = d.run(place().edit());
        assert_eq!(r.is_ok(), path != "/v/key.txt");
        assert_eq!(d.plain_text(), None);
    }
}

#[test]
fn a_file_is_checked_with_the_identity() {
    let mut d = desk(&[]);
    let file = age_encrypt(&lock(&d), b"anything").unwrap();
    d.files.insert(b"/p".to_vec(), file);
    nothing(d.run(place().verify_encrypted_file(b"/p")));
    assert_eq!(d.asked, ["read text /v/key.txt", "read data /p"]);
    // What is in the file does not matter.
    let file = age_encrypt(&lock(&d), b"\xff\xfe").unwrap();
    d.files.insert(b"/p".to_vec(), file);
    nothing(d.run(place().verify_encrypted_file(b"/p")));
    let other = Lock::Identity(IdentityKey::generate());
    d.files.insert(b"/p".to_vec(), age_encrypt(&other, b"anything").unwrap());
    assert_eq!(
        failure(d.run(place().verify_encrypted_file(b"/p"))).0,
        ErrorKind::StoreNotDecrypted
    );
    d.files.insert(b"/p".to_vec(), b"junk".to_vec());
    assert_eq!(
        failure(d.run(place().verify_encrypted_file(b"/p"))).0,
        ErrorKind::StoreNotDecrypted
    );
    assert_eq!(
        failure(d.run(place().verify_encrypted_file(b"/q"))),
        said(ErrorKind::StoreNotRead, &["Cannot read store at /q", "it broke"])
    );
    d.files.insert(b"/v/key.txt".to_vec(), b"# no key\n".to_vec());
    assert_eq!(
        failure(d.run(place().verify_encrypted_file(b"/p"))).0,
        ErrorKind::NoKeyLine
    );
}

#[test]
fn a_file_that_was_checked_can_take_the_place_of_the_store() {
    let mut d = desk(&[("A", "1")]);
    let file = age_encrypt(&lock(&d), b"B=2\n").unwrap();
    d.files.insert(b"/v/store.env.age.pull-tmp".to_vec(), file.clone());
    nothing(d.run(place().verify_encrypted_file(b"/v/store.env.age.pull-tmp")));
    d.files.insert(b"/v/store.env.age".to_vec(), file);
    nothing(d.run(place().list()));
    assert_eq!(d.out, "B\n");
}

#[test]
fn a_key_comes_back_from_its_backup() {
    let mut d = desk(&[("A", "1")]);
    let backup = match d.run(place().export_key_encrypted("pass".to_string())) {
        Ok(Outcome::Data(file)) => file,
        _ => panic!("no backup"),
    };
    assert_eq!(d.asked, ["read data /v/key.txt"]);
    let key = d.files[&b"/v/key.txt"[..]].clone();

    // Not over a key that is there.
    assert_eq!(
        failure(d.run(place().import_key_encrypted(&backup, "pass".to_string()))),
        said(
            ErrorKind::KeyExists,
            &["A key already exists at /v/key.txt — move it away first, then retry."]
        )
    );
    assert_eq!(d.files[&b"/v/key.txt"[..]], key);

    let store = d.files[&b"/v/store.env.age"[..]].clone();
    let mut e = Desk::new();
    nothing(e.run(place().import_key_encrypted(&backup, "pass".to_string())));
    assert_eq!(e.asked, ["exists /v/key.txt", "exists /v", "create dir /v", "write /v/key.txt"]);
    assert_eq!(e.files[&b"/v/key.txt"[..]], key);
    e.files.insert(b"/v/store.env.age".to_vec(), store);
    nothing(e.run(place().get("A")));
    assert_eq!(e.out, "1\n");
}

#[test]
fn a_bad_backup_is_not_installed() {
    let mut d = Desk::new();
    let (kind, words) = failure(d.run(place().import_key_encrypted(b"junk", "p".to_string())));
    assert_eq!(kind, ErrorKind::BackupNotDecrypted);
    assert!(words[0].starts_with(
        "Failed to decrypt key backup (wrong passphrase?): Not a valid age file: "
    ));
    let p = Lock::Passphrase("p".to_string());
    let file = age_encrypt(&p, b"\xff").unwrap();
    let (kind, words) = failure(d.run(place().import_key_encrypted(&file, "p".to_string())));
    assert_eq!(kind, ErrorKind::BackupNotText);
    assert_eq!(words[0], "Decrypted key is not valid UTF-8");
    assert!(d.files.is_empty());
}

#[test]
fn a_backup_that_asks_for_too_much_work_is_refused() {
    let (salt, body) = ("A".repeat(22), "A".repeat(43));
    let head = format!("age-encryption.org/v1\n-> scrypt {salt} 255\n{body}\n--- {body}\n");
    let mut file = head.into_bytes();
    file.extend([0; 32]);
    let mut d = Desk::new();
    assert_eq!(
        failure(d.run(place().import_key_encrypted(&file, "p".to_string()))),
        said(
            ErrorKind::BackupNotDecrypted,
            &["Failed to decrypt key backup (wrong passphrase?): Decryption failed: \
               Excessive work parameter for passphrase.\n\
               Decryption would take more than 18446744073709551615 seconds."]
        )
    );
    assert_eq!(d.asked, ["exists /v/key.txt"]);
    assert!(d.files.is_empty());
}

#[test]
fn what_came_of_decrypting_a_backup_decides() {
    let mut d = Desk::new();
    let text = b"# a key\nAGE-SECRET-KEY-1\n".to_vec();
    nothing(d.run(place().import_decrypted(Ok(text.clone()))));
    assert_eq!(d.asked, ["exists /v", "create dir /v", "write /v/key.txt"]);
    assert_eq!(d.files[&b"/v/key.txt"[..]], text);
    let before = d.files.clone();
    for (out, kind) in [
        (Ok(b"no key".to_vec()), ErrorKind::BackupWithoutKey),
        (Ok(b"\xff".to_vec()), ErrorKind::BackupNotText),
        (Err(DecryptError::too_much_work(22, 18)), ErrorKind::BackupNotDecrypted),
    ] {
        assert_eq!(failure(d.run(place().import_decrypted(out))).0, kind);
        assert!(d.asked.is_empty());
        assert_eq!(d.files, before);
    }
}

#[test]
fn what_came_of_decrypting_a_store_decides() {
    let broken = || Err(DecryptError { step: DecryptStep::Payload, words: "cut".to_string() });
    let mut d = Desk::new();
    nothing(d.run(place().read_decrypted(Purpose::Cat, Ok(b"# x\nA=1\n".to_vec()))));
    assert_eq!(d.out, "# x\nA=1\n");
    let get = || Purpose::Load(Aim::Get("A".to_string()));
    nothing(d.run(place().read_decrypted(get(), Ok(b"A = 1".to_vec()))));
    assert_eq!(d.out, "1\n");
    nothing(d.run(place().read_decrypted(Purpose::Verify, Ok(b"\xff".to_vec()))));
    let r = d.run(place().read_decrypted(get(), Ok(b"\xff".to_vec())));
    assert_eq!(failure(r).0, ErrorKind::StoreNotText);
    for purpose in [Purpose::Cat, Purpose::Verify, get()] {
        assert_eq!(
            failure(d.run(place().read_decrypted(purpose, broken()))),
            said(ErrorKind::StoreNotDecrypted, &["Failed to decrypt store: cut"])
        );
    }
}

#[test]
fn a_backup_without_a_key_is_not_installed() {
    let mut d = Desk::new();
    let p = Lock::Passphrase("p".to_string());
    let file = age_encrypt(&p, b"# AGE-SECRET-KEY-\n").unwrap();
    assert_eq!(
        failure(d.run(place().import_key_encrypted(&file, "p".to_string()))),
        said(
            ErrorKind::BackupWithoutKey,
            &["Decrypted backup contains no AGE-SECRET-KEY line — refusing to install"]
        )
    );
    assert!(d.files.is_empty());
}

#[test]
fn a_key_that_cannot_be_read_is_not_exported() {
    let mut d = Desk::new();
    assert_eq!(
        failure(d.run(place().export_key_encrypted("p".to_string()))),
        said(ErrorKind::KeyNotRead, &["Cannot read key at /v/key.txt", "it broke"])
    );
}

#[test]
fn the_directory_is_made_once() {
    let mut d = Desk::new();
    nothing(d.run(place().ensure_dir()));
    assert_eq!(d.asked, ["exists /v", "create dir /v"]);
    nothing(d.run(place().ensure_dir()));
    assert_eq!(d.asked, ["exists /v"]);
}

#[test]
fn an_answer_is_for_its_request() {
    let task = place().ensure_init();
    let request = task.request().unwrap();
    assert!(Reply::Told(true).is_for(&request));
    assert!(!Reply::Number(1).is_for(&request));
    assert!(!Reply::Text(Ok(String::new())).is_for(&request));
    nothing(task.resume(Reply::Told(true)).outcome());
}
