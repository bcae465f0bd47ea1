//! The commands on a vault, step by step.

use vstd::prelude::*;

use crate::command::{
    add_value, ask_value, begin, create_dir, dir_ready, edit_begin, edit_compare, edit_editor,
    edit_fetch, edit_in, edit_look, edit_run, edit_save, edit_temp, edit_visual, edit_warn,
    edit_write, env_line, env_lines, export_read, file_opened, import_opened, init_notes,
    initialized, key_looked_up, list_lines, load, loaded, make_dir, notice, open_file, output,
    read_file, save, save_rename, save_sealed, save_write, say, temp_store, text_read, unknown_name,
    write_key, Aim, Command, Purpose, Work,
};
use crate::crypto::{
    age_decrypt, age_encrypt, is_key_pair, opened_view, sealed_view, DecryptError, IdentityKey,
    Lock,
};
use crate::fault::{ErrorKind, VaultError};
use crate::format::{can_hold, dropped_in};
use crate::path::{bytes_of, copy_of, join, show, text_of_utf8};
use crate::plan::{
    ending, failed, fits, lemma_opened, lemma_sealed, maybe_bytes, settles, spoken, Answer, Ask,
    Line, Outcome, Plan, Product, Reply, Request, Stream, WriteStep,
};
use crate::reply::{
    bytes, data_in, data_view, done_in, maybe_in, number_in, one_line, one_notice, path_in, ran_in,
    same_lines, text_in, told, write_error, written_in,
};
use crate::secrets::{lemma_listing, listing, SecretMap};
use crate::shell::{in_single_quotes, is_valid_env_key, quoted, shell_quote};
use crate::store::{find_key_line, key_file, key_file_of, load_identity, text_view, Store};
use crate::text::{chars_of, decimal, decimal_of, lines, same_text, string_of, trim, trim_chars};

verus! {

/// A command.
pub enum Job {
    Init,
    Edit,
    Add(String, Option<String>),
    Get(String),
    List,
    Remove(String),
    Env,
    Cat,
    Verify(Vec<u8>),
    Export(String),
    Import(Vec<u8>, String),
    EnsureInit,
    EnsureDir,
}

/// A text that may be there, as a value of the model.
pub open spec fn maybe_text(text: Option<String>) -> Option<Seq<char>> {
    match text {
        Some(t) => Some(t@),
        None => None,
    }
}

impl View for Job {
    type V = Command;

    open spec fn view(&self) -> Command {
        match self {
            Job::Init => Command::Init,
            Job::Edit => Command::Edit,
            Job::Add(name, value) => Command::Add(name@, maybe_text(*value)),
            Job::Get(name) => Command::Get(name@),
            Job::List => Command::List,
            Job::Remove(name) => Command::Remove(name@),
            Job::Env => Command::Env,
            Job::Cat => Command::Cat,
            Job::Verify(path) => Command::Verify(path@),
            Job::Export(passphrase) => Command::Export(passphrase@),
            Job::Import(file, passphrase) => Command::Import(file@, passphrase@),
            Job::EnsureInit => Command::EnsureInit,
            Job::EnsureDir => Command::EnsureDir,
        }
    }
}

pub(crate) enum Errand {
    Init,
    Install(String),
    Nothing,
}

impl View for Errand {
    type V = Work;

    closed spec fn view(&self) -> Work {
        match self {
            Errand::Init => Work::Init,
            Errand::Install(text) => Work::Install(text@),
            Errand::Nothing => Work::Nothing,
        }
    }
}

type Ending = Result<Outcome, VaultError>;

/// Where a command stands.
pub(crate) enum State {
    Begin(Store, Job),
    Value(Store, String),
    Load(Store, Aim),
    OpenKey(Store, Purpose, Vec<u8>),
    OpenData(Store, Purpose, Vec<u8>, IdentityKey),
    SaveKey(Store, String, Vec<Line>, Option<Vec<u8>>),
    SaveProcess(Store, Vec<u8>, Vec<Line>, Option<Vec<u8>>),
    SaveWrite(Store, Vec<u8>, Vec<u8>, Vec<Line>, Option<Vec<u8>>),
    SaveRename(Store, Vec<u8>, Vec<Line>, Option<Vec<u8>>),
    Say(Vec<Line>, Option<Vec<u8>>),
    Clean(Vec<u8>, Ending),
    Ended(Ending),
    DirLook(Store, Errand),
    DirMake(Store, Errand),
    KeyWrite(Store, String, Option<IdentityKey>),
    EditBegin(Store, String),
    EditLook(Store, String, Vec<u8>),
    EditTemp(Store, String),
    EditProcess(Store, String, Vec<u8>),
    EditWrite(Store, String, Vec<u8>),
    EditEditor(Store, String, Vec<u8>),
    EditVisual(Store, String, Vec<u8>),
    EditRun(Store, String, Vec<u8>, String),
    EditFetch(Store, String, Vec<u8>),
    EditWarn(Store, String, Vec<u8>),
}

spec fn maybe_identity(identity: Option<IdentityKey>) -> Option<Seq<char>> {
    match identity {
        Some(id) => Some(id@),
        None => None,
    }
}

impl State {
    /// The course that is still ahead.
    pub(crate) closed spec fn plan(&self) -> Plan {
        match self {
            State::Begin(s, job) => begin(s@, job@),
            State::Value(s, name) => ask_value(s@, name@),
            State::Load(s, aim) => load(s@, aim@),
            State::OpenKey(s, purpose, path) => open_file(s@, purpose@, path@),
            State::OpenData(s, purpose, path, id) => read_file(s@, purpose@, path@, id@),
            State::SaveKey(s, text, notes, guard) => save(
                s@,
                text@,
                spoken(notes@),
                maybe_bytes(*guard),
            ),
            State::SaveProcess(s, file, notes, guard) => save_sealed(
                s@,
                spoken(notes@),
                maybe_bytes(*guard),
                Ok(file@),
            ),
            State::SaveWrite(s, file, temp, notes, guard) => save_write(
                s@,
                file@,
                temp@,
                spoken(notes@),
                maybe_bytes(*guard),
            ),
            State::SaveRename(s, temp, notes, guard) => save_rename(
                s@,
                temp@,
                spoken(notes@),
                maybe_bytes(*guard),
            ),
            State::Say(notes, guard) => say(spoken(notes@), maybe_bytes(*guard)),
            State::Clean(path, result) => crate::command::finish(Some(path@), ending(*result)),
            State::Ended(result) => Plan::End(ending(*result)),
            State::DirLook(s, errand) => make_dir(s@, errand@),
            State::DirMake(s, errand) => create_dir(s@, errand@),
            State::KeyWrite(s, text, identity) => write_key(s@, text@, maybe_identity(*identity)),
            State::EditBegin(s, content) => edit_begin(s@, content@),
            State::EditLook(s, content, dir) => edit_look(s@, content@, dir@),
            State::EditTemp(s, content) => edit_temp(s@, content@),
            State::EditProcess(s, content, dir) => edit_in(s@, content@, dir@),
            State::EditWrite(s, content, temp) => edit_write(s@, content@, temp@),
            State::EditEditor(s, content, temp) => edit_editor(s@, content@, temp@),
            State::EditVisual(s, content, temp) => edit_visual(s@, content@, temp@),
            State::EditRun(s, content, temp, editor) => edit_run(s@, content@, temp@, editor@),
            State::EditFetch(s, content, temp) => edit_fetch(s@, content@, temp@),
            State::EditWarn(s, edited, temp) => edit_warn(s@, edited@, temp@),
        }
    }
}

// The steps.

fn fail(e: VaultError) -> (r: State)
    ensures
        settles(failed(e@), r.plan()),
{
    State::Ended(Err(e))
}

fn nothing() -> (r: State)
    ensures
        settles(Plan::End(Ok(Product::Nothing)), r.plan()),
{
    State::Ended(Ok(Outcome::Nothing))
}

fn finish(guard: Option<Vec<u8>>, result: Ending) -> (r: State)
    ensures
        settles(crate::command::finish(maybe_bytes(guard), ending(result)), r.plan()),
{
    match guard {
        Some(path) => State::Clean(path, result),
        None => State::Ended(result),
    }
}

fn unknown(name: &str) -> (r: State)
    ensures
        settles(failed(unknown_name(name@)), r.plan()),
{
    let message = "Key '".to_owned().concat(name).concat("' not found");
    fail(VaultError::new(ErrorKind::UnknownName, message))
}

fn after_begin(s: Store, job: Job, reply: Reply) -> (r: State)
    requires
        begin(s@, job@) matches Plan::Ask(q, _) && fits(q, reply@),
    ensures
        settles((begin(s@, job@)->Ask_1)(reply@), r.plan()),
{
    match job {
        Job::Env => {
            if told(reply) {
                State::Load(s, Aim::Env)
            } else {
                nothing()
            }
        },
        Job::Verify(path) => after_open_key(s, Purpose::Verify, path, reply),
        Job::Export(passphrase) => after_export(s, passphrase, data_in(reply)),
        Job::EnsureDir => after_dir_look(s, Errand::Nothing, reply),
        job => after_key_look(s, job, told(reply)),
    }
}

fn after_key_look(s: Store, job: Job, there: bool) -> (r: State)
    ensures
        settles(key_looked_up(s@, job@, there), r.plan()),
{
    match job {
        Job::Init => {
            if there {
                let message = "Vault already initialized at ".to_owned().concat(
                    show(s.dir()).as_str(),
                );
                fail(VaultError::new(ErrorKind::AlreadyInitialized, message))
            } else {
                State::DirLook(s, Errand::Init)
            }
        },
        Job::Import(file, passphrase) => {
            if there {
                let message = "A key already exists at ".to_owned().concat(
                    show(s.key_path()).as_str(),
                ).concat(" — move it away first, then retry.");
                fail(VaultError::new(ErrorKind::KeyExists, message))
            } else {
                let lock = Lock::Passphrase(passphrase);
                let out = age_decrypt(&lock, file.as_slice());
                let r = after_import(s, out);
                proof {
                    lemma_opened(key_looked_up(s@, job@, there), opened_view(out), r.plan());
                }
                r
            }
        },
        job => {
            if there {
                after_init_check(s, job)
            } else {
                fail(
                    VaultError::new(
                        ErrorKind::NotInitialized,
                        "Vault not initialized. Run: vault init".to_owned(),
                    ),
                )
            }
        },
    }
}

fn after_init_check(s: Store, job: Job) -> (r: State)
    ensures
        settles(initialized(s@, job@), r.plan()),
{
    match job {
        Job::Edit => State::Load(s, Aim::Edit),
        Job::Get(name) => State::Load(s, Aim::Get(name)),
        Job::List => State::Load(s, Aim::List),
        Job::Remove(name) => State::Load(s, Aim::Remove(name)),
        Job::Cat => {
            let path = bytes(s.store_path());
            State::OpenKey(s, Purpose::Cat, path)
        },
        Job::Add(name, value) => {
            if !is_valid_env_key(name.as_str()) {
                let message = "Invalid key '".to_owned().concat(name.as_str()).concat(
                    "' — use letters, digits and underscores, not starting with a digit",
                );
                fail(VaultError::new(ErrorKind::InvalidName, message))
            } else {
                match value {
                    Some(v) => with_value(s, name, v),
                    None => State::Value(s, name),
                }
            }
        },
        _ => nothing(),
    }
}

fn after_value(s: Store, name: String, read: Result<String, String>) -> (r: State)
    ensures
        settles((ask_value(s@, name@)->Ask_1)(Answer::Text(text_view(read))), r.plan()),
{
    match read {
        Ok(value) => with_value(s, name, value),
        Err(e) => fail(VaultError::new(ErrorKind::NoPassword, e)),
    }
}

fn with_value(s: Store, name: String, value: String) -> (r: State)
    ensures
        settles(add_value(s@, name@, value@), r.plan()),
{
    if can_hold(value.as_str()) {
        State::Load(s, Aim::Add(name, value))
    } else {
        let message = "Invalid value for '".to_owned().concat(name.as_str()).concat(
            "' — it must be a single line without whitespace at its ends",
        );
        fail(VaultError::new(ErrorKind::InvalidValue, message))
    }
}

fn after_load(s: Store, aim: Aim, there: bool) -> (r: State)
    ensures
        settles((load(s@, aim@)->Ask_1)(Answer::Told(there)), r.plan()),
{
    if there {
        let path = bytes(s.store_path());
        State::OpenKey(s, Purpose::Load(aim), path)
    } else {
        with_secrets(s, aim, SecretMap::new())
    }
}

fn after_open_key(s: Store, purpose: Purpose, path: Vec<u8>, reply: Reply) -> (r: State)
    requires
        reply@ is Text,
    ensures
        settles((open_file(s@, purpose@, path@)->Ask_1)(reply@), r.plan()),
{
    match load_identity(s.key_path(), text_in(reply)) {
        Ok(identity) => State::OpenData(s, purpose, path, identity),
        Err(e) => fail(e),
    }
}

fn after_open_data(
    s: Store,
    purpose: Purpose,
    path: Vec<u8>,
    identity: IdentityKey,
    reply: Reply,
) -> (r: State)
    requires
        reply@ is Data,
    ensures
        settles((read_file(s@, purpose@, path@, identity@)->Ask_1)(reply@), r.plan()),
{
    match data_in(reply) {
        Ok(file) => {
            let lock = Lock::Identity(identity);
            let out = age_decrypt(&lock, file.as_slice());
            let r = after_decrypt(s, purpose, out);
            proof {
                let plan = (read_file(s@, purpose@, path@, identity@)->Ask_1)(reply@);
                lemma_opened(plan, opened_view(out), r.plan());
            }
            r
        },
        Err(e) => {
            let message = "Cannot read store at ".to_owned().concat(
                show(path.as_slice()).as_str(),
            );
            fail(VaultError::caused(ErrorKind::StoreNotRead, message, e))
        },
    }
}

pub(crate) fn after_decrypt(
    s: Store,
    purpose: Purpose,
    out: Result<Vec<u8>, DecryptError>,
) -> (r: State)
    ensures
        settles(file_opened(s@, purpose@, opened_view(out)), r.plan()),
{
    match out {
        Ok(data) => match purpose {
            Purpose::Verify => nothing(),
            purpose => match text_of_utf8(data) {
                Ok(text) => with_text(s, purpose, text),
                Err(words) => fail(
                    VaultError::caused(
                        ErrorKind::StoreNotText,
                        "Decrypted store is not valid UTF-8".to_owned(),
                        words,
                    ),
                ),
            },
        },
        Err(e) => fail(
            VaultError::new(
                ErrorKind::StoreNotDecrypted,
                "Failed to decrypt store: ".to_owned().concat(e.message().as_str()),
            ),
        ),
    }
}

fn with_text(s: Store, purpose: Purpose, text: String) -> (r: State)
    ensures
        settles(text_read(s@, purpose@, text@), r.plan()),
{
    match purpose {
        Purpose::Cat => State::Say(one_line(Stream::Output, text), None),
        Purpose::Verify => nothing(),
        Purpose::Load(aim) => {
            let map = Store::parse(text.as_str());
            with_secrets(s, aim, map)
        },
    }
}

fn with_secrets(s: Store, aim: Aim, map: SecretMap) -> (r: State)
    requires
        map.wf(),
    ensures
        settles(loaded(s@, aim@, map@), r.plan()),
{
    let mut map = map;
    match aim {
        Aim::Edit => State::EditBegin(s, Store::serialize(&map)),
        Aim::Add(name, value) => {
            let existed = map.contains_key(name.as_str());
            let start = if existed {
                "✓ Updated '"
            } else {
                "✓ Added '"
            };
            let notes = one_notice(start.to_owned().concat(name.as_str()).concat("'"));
            map.insert(name, value);
            State::SaveKey(s, Store::serialize(&map), notes, None)
        },
        Aim::Get(name) => match map.get(name.as_str()) {
            Some(value) => State::Say(
                one_line(Stream::Output, value.clone().concat("\n")),
                None,
            ),
            None => unknown(name.as_str()),
        },
        Aim::List => State::Say(list_of(&map), None),
        Aim::Remove(name) => match map.remove(name.as_str()) {
            Some(_) => {
                let note = "✓ Removed '".to_owned().concat(name.as_str()).concat("'");
                let notes = one_notice(note);
                State::SaveKey(s, Store::serialize(&map), notes, None)
            },
            None => unknown(name.as_str()),
        },
        Aim::Env => State::Say(env_of(&map), None),
    }
}

fn list_of(map: &SecretMap) -> (r: Vec<Line>)
    requires
        map.wf(),
    ensures
        spoken(r@) == list_lines(listing(map@)),
{
    let ghost pairs = map.pairs();
    proof {
        lemma_listing(pairs);
    }
    if map.is_empty() {
        return one_notice("No secrets stored. Use `vault add` or `vault edit`.".to_owned());
    }
    let mut r: Vec<Line> = Vec::new();
    let n: usize = map.len();
    for i in 0..n
        invariant
            map.wf(),
            pairs == map.pairs(),
            n == pairs.len(),
            r@.len() == i,
            forall|j: int| 0 <= j < i ==> (#[trigger] r@[j])@ == output(pairs[j].0),
    {
        let text = map.secret(i).name.clone().concat("\n");
        r.push(Line { stream: Stream::Output, text });
    }
    assert(spoken(r@) =~= list_lines(pairs));
    r
}

fn env_of(map: &SecretMap) -> (r: Vec<Line>)
    requires
        map.wf(),
    ensures
        spoken(r@) == env_lines(listing(map@)),
{
    let ghost pairs = map.pairs();
    proof {
        lemma_listing(pairs);
    }
    let mut r: Vec<Line> = Vec::new();
    let n: usize = map.len();
    for i in 0..n
        invariant
            map.wf(),
            pairs == map.pairs(),
            n == pairs.len(),
            r@.len() == i,
            forall|j: int| 0 <= j < i ==> (#[trigger] r@[j])@ == env_line(pairs[j]),
    {
        let secret = map.secret(i);
        if is_valid_env_key(secret.name.as_str()) {
            let text = "export ".to_owned().concat(secret.name.as_str()).concat("=").concat(
                shell_quote(secret.value.as_str()).as_str(),
            ).concat("\n");
            proof {
                let pair = pairs[i as int];
                assert(text@ =~= output("export "@ + pair.0 + "="@ + quoted(pair.1)).1);
            }
            r.push(Line { stream: Stream::Output, text });
        } else {
            let text = "⚠ Skipping '".to_owned().concat(secret.name.as_str()).concat(
                "' — not a valid environment variable name",
            ).concat("\n");
            r.push(Line { stream: Stream::Notice, text });
        }
    }
    assert(spoken(r@) =~= env_lines(pairs));
    r
}

fn after_save_key(
    s: Store,
    text: String,
    notes: Vec<Line>,
    guard: Option<Vec<u8>>,
    reply: Reply,
) -> (r: State)
    requires
        reply@ is Text,
    ensures
        settles(
            (save(s@, text@, spoken(notes@), maybe_bytes(guard))->Ask_1)(reply@),
            r.plan(),
        ),
{
    match load_identity(s.key_path(), text_in(reply)) {
        Ok(identity) => {
            let lock = Lock::Identity(identity);
            let out = age_encrypt(&lock, text.as_str().as_bytes());
            let r = after_encrypt(s, notes, guard, out);
            proof {
                let plan = save(s@, text@, spoken(notes@), maybe_bytes(guard));
                lemma_sealed((plan->Ask_1)(reply@), sealed_view(out), r.plan());
            }
            r
        },
        Err(e) => finish(guard, Err(e)),
    }
}

fn after_encrypt(
    s: Store,
    notes: Vec<Line>,
    guard: Option<Vec<u8>>,
    out: Result<Vec<u8>, String>,
) -> (r: State)
    ensures
        settles(
            save_sealed(s@, spoken(notes@), maybe_bytes(guard), sealed_view(out)),
            r.plan(),
        ),
{
    match out {
        Ok(file) => State::SaveProcess(s, file, notes, guard),
        Err(words) => finish(guard, Err(VaultError::new(ErrorKind::NotEncrypted, words))),
    }
}

fn after_save_process(
    s: Store,
    file: Vec<u8>,
    notes: Vec<Line>,
    guard: Option<Vec<u8>>,
    process: u32,
) -> (r: State)
    ensures
        settles(
            save_write(
                s@,
                file@,
                temp_store(s@, process),
                spoken(notes@),
                maybe_bytes(guard),
            ),
            r.plan(),
        ),
{
    let name = "store.env.age.tmp-".to_owned().concat(decimal_of(process as u64).as_str());
    let temp = join(s.dir(), name.as_str());
    State::SaveWrite(s, file, temp, notes, guard)
}

fn after_save_write(
    s: Store,
    file: Vec<u8>,
    temp: Vec<u8>,
    notes: Vec<Line>,
    guard: Option<Vec<u8>>,
    reply: Reply,
) -> (r: State)
    requires
        reply@ is Written,
    ensures
        settles(
            (save_write(s@, file@, temp@, spoken(notes@), maybe_bytes(guard))->Ask_1)(reply@),
            r.plan(),
        ),
{
    match written_in(reply) {
        Ok(_) => State::SaveRename(s, temp, notes, guard),
        Err(e) => finish(guard, Err(write_error(temp.as_slice(), e))),
    }
}

fn after_save_rename(
    s: Store,
    temp: Vec<u8>,
    notes: Vec<Line>,
    guard: Option<Vec<u8>>,
    reply: Reply,
) -> (r: State)
    requires
        reply@ is Done,
    ensures
        settles(
            (save_rename(s@, temp@, spoken(notes@), maybe_bytes(guard))->Ask_1)(reply@),
            r.plan(),
        ),
{
    match done_in(reply) {
        Ok(_) => State::Say(notes, guard),
        Err(e) => {
            let message = "Cannot write store to ".to_owned().concat(
                show(s.store_path()).as_str(),
            );
            finish(guard, Err(VaultError::caused(ErrorKind::StoreNotReplaced, message, e)))
        },
    }
}

fn after_dir_look(s: Store, errand: Errand, reply: Reply) -> (r: State)
    requires
        reply@ is Told,
    ensures
        settles((make_dir(s@, errand@)->Ask_1)(reply@), r.plan()),
{
    if told(reply) {
        with_dir(s, errand)
    } else {
        State::DirMake(s, errand)
    }
}

fn after_dir_make(s: Store, errand: Errand, reply: Reply) -> (r: State)
    requires
        reply@ is Done,
    ensures
        settles((create_dir(s@, errand@)->Ask_1)(reply@), r.plan()),
{
    match done_in(reply) {
        Ok(_) => with_dir(s, errand),
        Err(e) => {
            let message = "Cannot create directory ".to_owned().concat(show(s.dir()).as_str());
            fail(VaultError::caused(ErrorKind::DirectoryNotCreated, message, e))
        },
    }
}

fn with_dir(s: Store, errand: Errand) -> (r: State)
    ensures
        settles(dir_ready(s@, errand@), r.plan()),
{
    match errand {
        Errand::Init => {
            let identity = IdentityKey::generate();
            let text = key_file_of(&identity);
            let ghost id = identity@;
            let r = State::KeyWrite(s, text, Some(identity));
            assert(is_key_pair(id));
            assert(settles(write_key(s@, key_file(id), Some(id)), r.plan()));
            r
        },
        Errand::Install(text) => State::KeyWrite(s, text, None),
        Errand::Nothing => nothing(),
    }
}

fn after_key_write(s: Store, text: String, identity: Option<IdentityKey>, reply: Reply) -> (r:
    State)
    requires
        reply@ is Written,
    ensures
        settles((write_key(s@, text@, maybe_identity(identity))->Ask_1)(reply@), r.plan()),
{
    match written_in(reply) {
        Ok(_) => match identity {
            Some(id) => {
                let notes = notes_of_init(&s, &id);
                State::SaveKey(s, Store::serialize(&SecretMap::new()), notes, None)
            },
            None => nothing(),
        },
        Err(e) => fail(write_error(s.key_path(), e)),
    }
}

fn push_notice(lines: &mut Vec<Line>, text: String)
    ensures
        spoken(final(lines)@) == spoken(old(lines)@).push(notice(text@)),
{
    lines.push(Line { stream: Stream::Notice, text: text.concat("\n") });
    assert(spoken(lines@) =~= spoken(old(lines)@).push(notice(text@)));
}

fn notes_of_init(s: &Store, identity: &IdentityKey) -> (r: Vec<Line>)
    ensures
        spoken(r@) == init_notes(s@, identity@),
{
    let mut r: Vec<Line> = Vec::new();
    push_notice(&mut r, "✓ Vault initialized".to_owned());
    push_notice(&mut r, "  Location:   ".to_owned().concat(show(s.dir()).as_str()));
    push_notice(&mut r, "  Public key: ".to_owned().concat(identity.public_key().as_str()));
    push_notice(&mut r, "".to_owned());
    push_notice(&mut r, "  Next steps:".to_owned());
    push_notice(&mut r, "    vault add OPENAI_API_KEY sk-...".to_owned());
    push_notice(&mut r, "    vault edit              # open in $EDITOR".to_owned());
    push_notice(&mut r, "    eval \"$(vault env)\"    # inject into shell".to_owned());
    assert(spoken(r@) =~= init_notes(s@, identity@));
    r
}

fn after_export(s: Store, passphrase: String, read: Result<Vec<u8>, String>) -> (r: State)
    ensures
        settles(export_read(s@, passphrase@, data_view(read)), r.plan()),
{
    match read {
        Ok(data) => {
            let lock = Lock::Passphrase(passphrase);
            let out = age_encrypt(&lock, data.as_slice());
            let r = match out {
                Ok(file) => State::Ended(Ok(Outcome::Data(file))),
                Err(words) => fail(VaultError::new(ErrorKind::NotEncrypted, words)),
            };
            proof {
                let plan = export_read(s@, passphrase@, data_view(read));
                lemma_sealed(plan, sealed_view(out), r.plan());
            }
            r
        },
        Err(e) => {
            let message = "Cannot read key at ".to_owned().concat(show(s.key_path()).as_str());
            fail(VaultError::caused(ErrorKind::KeyNotRead, message, e))
        },
    }
}

pub(crate) fn after_import(s: Store, out: Result<Vec<u8>, DecryptError>) -> (r: State)
    ensures
        settles(import_opened(s@, opened_view(out)), r.plan()),
{
    match out {
        Ok(data) => match text_of_utf8(data) {
            Ok(text) => match find_key_line(text.as_str()) {
                Some(_) => State::DirLook(s, Errand::Install(text)),
                None => {
                    let message =
                        "Decrypted backup contains no AGE-SECRET-KEY line — refusing to install";
                    fail(VaultError::new(ErrorKind::BackupWithoutKey, message.to_owned()))
                },
            },
            Err(words) => fail(
                VaultError::caused(
                    ErrorKind::BackupNotText,
                    "Decrypted key is not valid UTF-8".to_owned(),
                    words,
                ),
            ),
        },
        Err(e) => fail(
            VaultError::new(
                ErrorKind::BackupNotDecrypted,
                "Failed to decrypt key backup (wrong passphrase?): ".to_owned().concat(
                    e.message().as_str(),
                ),
            ),
        ),
    }
}

fn after_edit_begin(s: Store, content: String, reply: Reply) -> (r: State)
    requires
        reply@ is Maybe,
    ensures
        settles((edit_begin(s@, content@)->Ask_1)(reply@), r.plan()),
{
    match maybe_in(reply) {
        Some(dir) => State::EditLook(s, content, dir),
        None => State::EditTemp(s, content),
    }
}

fn after_edit_look(s: Store, content: String, dir: Vec<u8>, there: bool) -> (r: State)
    ensures
        settles((edit_look(s@, content@, dir@)->Ask_1)(Answer::Told(there)), r.plan()),
{
    if there {
        State::EditProcess(s, content, dir)
    } else {
        State::EditTemp(s, content)
    }
}

fn after_edit_process(s: Store, content: String, dir: Vec<u8>, process: u32) -> (r: State)
    ensures
        settles((edit_in(s@, content@, dir@)->Ask_1)(Answer::Number(process)), r.plan()),
{
    let name = "vault-edit-".to_owned().concat(decimal_of(process as u64).as_str()).concat(".env");
    let temp = join(dir.as_slice(), name.as_str());
    State::EditWrite(s, content, temp)
}

fn after_edit_write(s: Store, content: String, temp: Vec<u8>, reply: Reply) -> (r: State)
    requires
        reply@ is Written,
    ensures
        settles((edit_write(s@, content@, temp@)->Ask_1)(reply@), r.plan()),
{
    match written_in(reply) {
        Ok(_) => State::EditEditor(s, content, temp),
        Err(e) => {
            let step = e.0;
            let error = write_error(temp.as_slice(), e);
            match step {
                WriteStep::Create => fail(error),
                WriteStep::Write => finish(Some(temp), Err(error)),
            }
        },
    }
}

fn after_edit_editor(s: Store, content: String, temp: Vec<u8>, reply: Reply) -> (r: State)
    requires
        reply@ is Text,
    ensures
        settles((edit_editor(s@, content@, temp@)->Ask_1)(reply@), r.plan()),
{
    match text_in(reply) {
        Ok(editor) => State::EditRun(s, content, temp, editor),
        Err(_) => State::EditVisual(s, content, temp),
    }
}

fn after_edit_visual(s: Store, content: String, temp: Vec<u8>, reply: Reply) -> (r: State)
    requires
        reply@ is Text,
    ensures
        settles((edit_visual(s@, content@, temp@)->Ask_1)(reply@), r.plan()),
{
    match text_in(reply) {
        Ok(editor) => State::EditRun(s, content, temp, editor),
        Err(_) => State::EditRun(s, content, temp, "vi".to_owned()),
    }
}

fn after_edit_run(
    s: Store,
    content: String,
    temp: Vec<u8>,
    editor: String,
    reply: Reply,
) -> (r: State)
    requires
        reply@ is Ran,
    ensures
        settles((edit_run(s@, content@, temp@, editor@)->Ask_1)(reply@), r.plan()),
{
    match ran_in(reply) {
        Ok((Some(0), _)) => State::EditFetch(s, content, temp),
        Ok(_) => finish(
            Some(temp),
            Err(
                VaultError::new(
                    ErrorKind::EditorFailed,
                    "Editor exited with non-zero status".to_owned(),
                ),
            ),
        ),
        Err((_, words)) => finish(
            Some(temp),
            Err(
                VaultError::caused(
                    ErrorKind::EditorNotStarted,
                    "Failed to launch editor: ".to_owned().concat(editor.as_str()),
                    words,
                ),
            ),
        ),
    }
}

fn after_edit_fetch(s: Store, content: String, temp: Vec<u8>, reply: Reply) -> (r: State)
    requires
        reply@ is Text,
    ensures
        settles((edit_fetch(s@, content@, temp@)->Ask_1)(reply@), r.plan()),
{
    match text_in(reply) {
        Ok(edited) => with_edited(s, content, temp, edited),
        Err(e) => finish(Some(temp), Err(VaultError::new(ErrorKind::EditNotRead, e))),
    }
}

fn same_trimmed(a: &str, b: &str) -> (r: bool)
    ensures
        r == (trim(a@) == trim(b@)),
{
    let x = chars_of(a);
    let y = chars_of(b);
    same_text(
        string_of(trim_chars(x.as_slice())).as_str(),
        string_of(trim_chars(y.as_slice())).as_str(),
    )
}

fn with_edited(s: Store, content: String, temp: Vec<u8>, edited: String) -> (r: State)
    ensures
        settles(edit_compare(s@, content@, temp@, edited@), r.plan()),
{
    if same_trimmed(edited.as_str(), content.as_str()) {
        State::Say(one_notice("No changes — store not updated.".to_owned()), Some(temp))
    } else if Store::count_dropped_lines(edited.as_str()) > 0 {
        State::EditWarn(s, edited, temp)
    } else {
        with_new_secrets(s, edited, temp)
    }
}

fn warning(edited: &str) -> (r: Vec<Line>)
    ensures
        spoken(r@) == seq![
            notice(
                "⚠ "@ + decimal(dropped_in(lines(edited@)))
                    + " line(s) without KEY=VALUE were ignored and not saved."@,
            ),
        ],
{
    let dropped: usize = Store::count_dropped_lines(edited);
    one_notice(
        "⚠ ".to_owned().concat(decimal_of(dropped as u64).as_str()).concat(
            " line(s) without KEY=VALUE were ignored and not saved.",
        ),
    )
}

fn with_new_secrets(s: Store, edited: String, temp: Vec<u8>) -> (r: State)
    ensures
        settles(edit_save(s@, edited@, temp@), r.plan()),
{
    let map = Store::parse(edited.as_str());
    let count: usize = map.len();
    let notes = one_notice(
        "✓ Store updated (".to_owned().concat(decimal_of(count as u64).as_str()).concat(
            " secrets)",
        ),
    );
    State::SaveKey(s, Store::serialize(&map), notes, Some(temp))
}

impl State {
    /// A command begins.
    pub(crate) fn begin(s: Store, job: Job) -> (r: State)
        ensures
            r.plan() == begin(s@, job@),
    {
        State::Begin(s, job)
    }

    /// How it ended.
    pub(crate) fn outcome(self) -> (r: Result<Outcome, VaultError>)
        requires
            self.plan() is End,
        ensures
            self.plan() == Plan::End(ending(r)),
    {
        match self {
            State::Ended(result) => result,
            _ => Ok(Outcome::Nothing),
        }
    }

    /// What is asked for now; nothing, at the end.
    pub(crate) fn request(&self) -> (r: Option<Request>)
        ensures
            match r {
                Some(q) => self.plan() is Ask && q@ == self.plan()->Ask_0,
                None => self.plan() is End,
            },
    {
        match self {
            State::Begin(s, job) => Some(
                match job {
                    Job::Env => Request::Exists(bytes(s.store_path())),
                    Job::Verify(_) => Request::ReadText(bytes(s.key_path())),
                    Job::Export(_) => Request::ReadData(bytes(s.key_path())),
                    Job::EnsureDir => Request::Exists(bytes(s.dir())),
                    _ => Request::Exists(bytes(s.key_path())),
                },
            ),
            State::Value(_, name) => Some(
                Request::Password(
                    "Enter value for ".to_owned().concat(name.as_str()).concat(": "),
                ),
            ),
            State::Load(s, _) => Some(Request::Exists(bytes(s.store_path()))),
            State::OpenKey(s, _, _) => Some(Request::ReadText(bytes(s.key_path()))),
            State::OpenData(_, _, path, _) => Some(Request::ReadData(copy_of(path))),
            State::SaveKey(s, _, _, _) => Some(Request::ReadText(bytes(s.key_path()))),
            State::SaveProcess(_, _, _, _) => Some(Request::ProcessId),
            State::SaveWrite(_, file, temp, _, _) => Some(
                Request::WritePrivate(copy_of(temp), copy_of(file)),
            ),
            State::SaveRename(s, temp, _, _) => Some(
                Request::Rename(copy_of(temp), bytes(s.store_path())),
            ),
            State::Say(notes, _) => Some(Request::Say(same_lines(notes))),
            State::Clean(path, _) => Some(Request::Remove(copy_of(path))),
            State::Ended(_) => None,
            State::DirLook(s, _) => Some(Request::Exists(bytes(s.dir()))),
            State::DirMake(s, _) => Some(Request::CreateDir(bytes(s.dir()))),
            State::KeyWrite(s, text, _) => Some(
                Request::WritePrivate(bytes(s.key_path()), bytes_of(text.as_str())),
            ),
            State::EditBegin(_, _) => Some(Request::Variable("XDG_RUNTIME_DIR".to_owned())),
            State::EditLook(_, _, dir) => Some(Request::IsDir(copy_of(dir))),
            State::EditTemp(_, _) => Some(Request::TempDir),
            State::EditProcess(_, _, _) => Some(Request::ProcessId),
            State::EditWrite(_, content, temp) => Some(
                Request::WritePrivate(copy_of(temp), bytes_of(content.as_str())),
            ),
            State::EditEditor(_, _, _) => Some(Request::TextVariable("EDITOR".to_owned())),
            State::EditVisual(_, _, _) => Some(Request::TextVariable("VISUAL".to_owned())),
            State::EditRun(_, _, temp, editor) => Some(
                Request::Shell(
                    editor.clone().concat(" ").concat(
                        in_single_quotes(show(temp.as_slice()).as_str()).as_str(),
                    ),
                ),
            ),
            State::EditFetch(_, _, temp) => Some(Request::ReadText(copy_of(temp))),
            State::EditWarn(_, edited, _) => Some(Request::Say(warning(edited.as_str()))),
        }
    }

    /// Goes on with an answer.
    pub(crate) fn resume(self, reply: Reply) -> (r: State)
        requires
            self.plan() matches Plan::Ask(q, _) && fits(q, reply@),
        ensures
            settles((self.plan()->Ask_1)(reply@), r.plan()),
    {
        match self {
            State::Begin(s, job) => after_begin(s, job, reply),
            State::Value(s, name) => after_value(s, name, text_in(reply)),
            State::Load(s, aim) => after_load(s, aim, told(reply)),
            State::OpenKey(s, purpose, path) => after_open_key(s, purpose, path, reply),
            State::OpenData(s, purpose, path, identity) => after_open_data(
                s,
                purpose,
                path,
                identity,
                reply,
            ),
            State::SaveKey(s, text, notes, guard) => after_save_key(s, text, notes, guard, reply),
            State::SaveProcess(s, file, notes, guard) => after_save_process(
                s,
                file,
                notes,
                guard,
                number_in(reply),
            ),
            State::SaveWrite(s, file, temp, notes, guard) => after_save_write(
                s,
                file,
                temp,
                notes,
                guard,
                reply,
            ),
            State::SaveRename(s, temp, notes, guard) => after_save_rename(
                s,
                temp,
                notes,
                guard,
                reply,
            ),
            State::Say(_, guard) => finish(guard, Ok(Outcome::Nothing)),
            State::Clean(_, result) => State::Ended(result),
            State::Ended(result) => State::Ended(result),
            State::DirLook(s, errand) => after_dir_look(s, errand, reply),
            State::DirMake(s, errand) => after_dir_make(s, errand, reply),
            State::KeyWrite(s, text, identity) => after_key_write(s, text, identity, reply),
            State::EditBegin(s, content) => after_edit_begin(s, content, reply),
            State::EditLook(s, content, dir) => after_edit_look(s, content, dir, told(reply)),
            State::EditTemp(s, content) => State::EditProcess(s, content, path_in(reply)),
            State::EditProcess(s, content, dir) => after_edit_process(
                s,
                content,
                dir,
                number_in(reply),
            ),
            State::EditWrite(s, content, temp) => after_edit_write(s, content, temp, reply),
            State::EditEditor(s, content, temp) => after_edit_editor(s, content, temp, reply),
            State::EditVisual(s, content, temp) => after_edit_visual(s, content, temp, reply),
            State::EditRun(s, content, temp, editor) => after_edit_run(
                s,
                content,
                temp,
                editor,
                reply,
            ),
            State::EditFetch(s, content, temp) => after_edit_fetch(s, content, temp, reply),
            State::EditWarn(s, edited, temp) => with_new_secrets(s, edited, temp),
        }
    }
}

} // verus!
