//! Commands that the caller drives.
//!
//! A command is a `Task`. It says what it asks for, goes on from what comes of
//! it, and so on until it has ended.

use vstd::prelude::*;

use crate::command::{begin, file_opened, import_opened, Command, Purpose};
use crate::crypto::{opened_view, DecryptError};
use crate::fault::VaultError;
use crate::path::copy_of;
use crate::plan::{ending, fits, settles, Ask, Outcome, Plan, Reply, Request};
use crate::remote::{same_remotes, sites, Remote, RemotesConfig};
use crate::reply::bytes;
use crate::steps::{after_decrypt, after_import, maybe_text, Job, State};
use crate::store::Store;
use crate::sync::{
    add_remote, load_remotes, pull_course, pull_key_course, pull_temp, push_course, save_remotes,
    Intent,
};
use crate::sync_steps::Stage;

verus! {

enum Course {
    Vault(State),
    Sync(Stage),
}

/// A command under way. Its model is the course that is still ahead of it.
pub struct Task {
    course: Course,
}

impl View for Task {
    type V = Plan;

    closed spec fn view(&self) -> Plan {
        match self.course {
            Course::Vault(state) => state.plan(),
            Course::Sync(stage) => stage.plan(),
        }
    }
}

impl Reply {
    /// Whether it is of the kind that a request calls for.
    pub fn is_for(&self, request: &Request) -> (r: bool)
        ensures
            r == fits(request@, self@),
    {
        match request {
            Request::Exists(_) | Request::IsDir(_) => matches!(self, Reply::Told(_)),
            Request::ReadText(_)
            | Request::Password(_)
            | Request::TextVariable(_)
            | Request::FormatRemotes(_) => matches!(self, Reply::Text(_)),
            Request::ReadData(_) => matches!(self, Reply::Data(_)),
            Request::CreateDir(_)
            | Request::Rename(_, _)
            | Request::Remove(_)
            | Request::Say(_)
            | Request::WriteText(_, _)
            | Request::MakePrivate(_) => matches!(self, Reply::Done(_)),
            Request::WritePrivate(_, _) => matches!(self, Reply::Written(_)),
            Request::ProcessId => matches!(self, Reply::Number(_)),
            Request::Variable(_) => matches!(self, Reply::Maybe(_)),
            Request::TempDir => matches!(self, Reply::Path(_)),
            Request::Shell(_) | Request::Ssh(_, _, _) => matches!(self, Reply::Ran(_)),
            Request::ParseRemotes(_) => matches!(self, Reply::Remotes(_)),
        }
    }
}

impl Task {
    /// What the command asks for now; nothing, once it has ended.
    pub fn request(&self) -> (r: Option<Request>)
        ensures
            match r {
                Some(q) => self@ is Ask && q@ == self@->Ask_0,
                None => self@ is End,
            },
    {
        match &self.course {
            Course::Vault(state) => state.request(),
            Course::Sync(stage) => stage.request(),
        }
    }

    /// Goes on from what came of the request, up to the next one or the end.
    pub fn resume(self, reply: Reply) -> (r: Task)
        requires
            self@ matches Plan::Ask(q, _) && fits(q, reply@),
        ensures
            settles((self@->Ask_1)(reply@), r@),
    {
        let course = match self.course {
            Course::Vault(state) => Course::Vault(state.resume(reply)),
            Course::Sync(stage) => Course::Sync(stage.resume(reply)),
        };
        Task { course }
    }

    /// What the command came to.
    pub fn outcome(self) -> (r: Result<Outcome, VaultError>)
        requires
            self@ is End,
        ensures
            self@ == Plan::End(ending(r)),
    {
        match self.course {
            Course::Vault(state) => state.outcome(),
            Course::Sync(stage) => stage.outcome(),
        }
    }
}

impl Store {
    fn start(&self, job: Job) -> (r: Task)
        ensures
            r@ == begin(self@, job@),
    {
        Task { course: Course::Vault(State::begin(self.same(), job)) }
    }

    /// Makes sure that the directory of the vault is there, the owner's alone.
    pub fn ensure_dir(&self) -> (r: Task)
        ensures
            r@ == begin(self@, Command::EnsureDir),
    {
        self.start(Job::EnsureDir)
    }

    /// Checks that a file is an age file that the local identity decrypts.
    pub fn verify_encrypted_file(&self, path: &[u8]) -> (r: Task)
        ensures
            r@ == begin(self@, Command::Verify(path@)),
    {
        self.start(Job::Verify(bytes(path)))
    }

    /// Encrypts the key file to a passphrase, for a backup.
    pub fn export_key_encrypted(&self, passphrase: String) -> (r: Task)
        ensures
            r@ == begin(self@, Command::Export(passphrase@)),
    {
        self.start(Job::Export(passphrase))
    }

    /// Installs a key from a backup that was encrypted to a passphrase. A key
    /// that is there is not overwritten.
    pub fn import_key_encrypted(&self, ciphertext: &[u8], passphrase: String) -> (r: Task)
        ensures
            r@ == begin(self@, Command::Import(ciphertext@, passphrase@)),
    {
        self.start(Job::Import(bytes(ciphertext), passphrase))
    }

    /// Goes on with what came of decrypting a file with the identity: checks
    /// it, prints it, or does something with the secrets in it. A name and a
    /// value that are to be added are taken as they are.
    pub fn read_decrypted(&self, purpose: Purpose, out: Result<Vec<u8>, DecryptError>) -> (r: Task)
        ensures
            r@ == file_opened(self@, purpose@, opened_view(out)),
    {
        Task { course: Course::Vault(after_decrypt(self.same(), purpose, out)) }
    }

    /// Goes on with what came of decrypting a key backup where there is no key:
    /// installs it, if it is text with an identity in it.
    pub fn import_decrypted(&self, out: Result<Vec<u8>, DecryptError>) -> (r: Task)
        ensures
            r@ == import_opened(self@, opened_view(out)),
    {
        Task { course: Course::Vault(after_import(self.same(), out)) }
    }

    /// Checks that there is a key.
    pub fn ensure_init(&self) -> (r: Task)
        ensures
            r@ == begin(self@, Command::EnsureInit),
    {
        self.start(Job::EnsureInit)
    }

    /// Generates a key and creates an empty store.
    pub fn init(&self) -> (r: Task)
        ensures
            r@ == begin(self@, Command::Init),
    {
        self.start(Job::Init)
    }

    /// Has the secrets edited, and saves what comes of it.
    pub fn edit(&self) -> (r: Task)
        ensures
            r@ == begin(self@, Command::Edit),
    {
        self.start(Job::Edit)
    }

    /// Gives a name a value; without a value, asks for it. A value that is not
    /// a single line, or has white space at an end, is refused.
    pub fn add(&self, key: &str, value: Option<String>) -> (r: Task)
        ensures
            r@ == begin(self@, Command::Add(key@, maybe_text(value))),
    {
        self.start(Job::Add(key.to_owned(), value))
    }

    /// Prints the value of a name.
    pub fn get(&self, key: &str) -> (r: Task)
        ensures
            r@ == begin(self@, Command::Get(key@)),
    {
        self.start(Job::Get(key.to_owned()))
    }

    /// Prints the names.
    pub fn list(&self) -> (r: Task)
        ensures
            r@ == begin(self@, Command::List),
    {
        self.start(Job::List)
    }

    /// Takes a name out.
    pub fn remove(&self, key: &str) -> (r: Task)
        ensures
            r@ == begin(self@, Command::Remove(key@)),
    {
        self.start(Job::Remove(key.to_owned()))
    }

    /// Prints the secrets for a shell to evaluate.
    pub fn env(&self) -> (r: Task)
        ensures
            r@ == begin(self@, Command::Env),
    {
        self.start(Job::Env)
    }

    /// Prints the text of the store.
    pub fn cat(&self) -> (r: Task)
        ensures
            r@ == begin(self@, Command::Cat),
    {
        self.start(Job::Cat)
    }
}

fn sync(stage: Stage) -> (r: Task)
    ensures
        r@ == stage.plan(),
{
    Task { course: Course::Sync(stage) }
}

impl RemotesConfig {
    /// Loads the configured remotes.
    pub fn load(config_path: &[u8]) -> (r: Task)
        ensures
            r@ == load_remotes(config_path@, Intent::Show),
    {
        sync(Stage::show_remotes(bytes(config_path)))
    }

    /// Writes a configuration, for the owner alone.
    pub fn save(config_path: &[u8], remotes: &[Remote]) -> (r: Task)
        ensures
            r@ == save_remotes(config_path@, sites(remotes@)),
    {
        sync(Stage::save_remotes(bytes(config_path), same_remotes(remotes)))
    }
}

/// The remotes that a configuration file holds.
pub struct RemoteManager {
    config_path: Vec<u8>,
}

impl View for RemoteManager {
    type V = Seq<u8>;

    closed spec fn view(&self) -> Seq<u8> {
        self.config_path@
    }
}

impl RemoteManager {
    /// The remotes that the file at a path holds.
    pub fn new(config_path: Vec<u8>) -> (r: RemoteManager)
        ensures
            r@ == config_path@,
    {
        RemoteManager { config_path }
    }

    /// Loads the configured remotes.
    pub fn load(&self) -> (r: Task)
        ensures
            r@ == load_remotes(self@, Intent::Show),
    {
        RemotesConfig::load(self.config_path.as_slice())
    }

    /// Looks a configured remote up.
    pub fn find(&self, name: &str) -> (r: Task)
        ensures
            r@ == load_remotes(self@, Intent::Find(name@)),
    {
        sync(Stage::find_remote(copy_of(&self.config_path), name.to_owned()))
    }

    /// Configures a remote.
    pub fn add(&self, remote: Remote) -> (r: Task)
        ensures
            r@ == add_remote(self@, remote@),
    {
        sync(Stage::add_remote(copy_of(&self.config_path), remote))
    }

    /// Takes a remote out of the configuration.
    pub fn remove(&self, name: &str) -> (r: Task)
        ensures
            r@ == load_remotes(self@, Intent::Remove(name@)),
    {
        sync(Stage::remove_remote(copy_of(&self.config_path), name.to_owned()))
    }
}

/// A slice that may be there, as a value of the model.
pub open spec fn maybe_slice(bytes: Option<&[u8]>) -> Option<Seq<u8>> {
    match bytes {
        Some(b) => Some(b@),
        None => None,
    }
}

/// Pushes the encrypted store to a remote, and the passphrase-encrypted key if
/// it is given.
pub fn push(remote: &Remote, store_path: &[u8], key_ciphertext: Option<&[u8]>) -> (r: Task)
    ensures
        r@ == push_course(remote@, store_path@, maybe_slice(key_ciphertext)),
{
    let key = match key_ciphertext {
        Some(b) => Some(bytes(b)),
        None => None,
    };
    sync(Stage::push(remote.clone(), bytes(store_path), key))
}

/// Fetches the store of a remote into a file of its own next to the local
/// store, and comes to the path of that file. The local store is not touched.
pub fn pull(remote: &Remote, store_path: &[u8]) -> (r: Task)
    ensures
        r@ == pull_course(remote@, store_path@),
        pull_temp(store_path@) != store_path@,
{
    sync(Stage::pull(remote.clone(), store_path))
}

/// Fetches the passphrase-encrypted key backup of a remote.
pub fn pull_key(remote: &Remote) -> (r: Task)
    ensures
        r@ == pull_key_course(remote@),
{
    sync(Stage::pull_key(remote.clone()))
}

} // verus!
