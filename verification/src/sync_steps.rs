//! The work with remotes, step by step.

use vstd::prelude::*;

use crate::fault::{caused, fault, ErrorKind, VaultError};
use crate::path::{bytes_of, copy_of, lemma_encoded_end, show};
use crate::plan::{
    ending, failed, fits, maybe_bytes, settles, Answer, Outcome, Plan, Product, Reply, Request,
    RunStep,
};
use crate::remote::{
    exit_text, exit_text_of, find_place, get_command_for, key_backup_path, leave_out,
    make_command_for, parent_dir, put_command_for, same_remotes, sites, ssh_arguments, ssh_target,
    Remote, RemoteType,
};
use crate::reply::{
    bytes, data_in, done_in, one_notice, ran_in, ran_view, remotes_in, text_in, told, write_error,
    written_in,
};
use crate::store::text_view;
use crate::sync::{
    add_remote, fetch, get_fault, load_remotes, not_implemented, parse_remotes, protect,
    pull_course, pull_key_course, pull_temp, pull_write, push_course, push_dir, push_key,
    push_key_told, push_look, push_read, push_store, push_told, put_fault, read_remotes,
    remotes_loaded, run_fault, save_remotes, write_remotes, Intent, Use,
};

verus! {

/// What the configured remotes are loaded for.
pub(crate) enum Wish {
    Show,
    Find(String),
    Add(Remote),
    Remove(String),
}

impl View for Wish {
    type V = Intent;

    closed spec fn view(&self) -> Intent {
        match self {
            Wish::Show => Intent::Show,
            Wish::Find(name) => Intent::Find(name@),
            Wish::Add(remote) => Intent::Add(remote@),
            Wish::Remove(name) => Intent::Remove(name@),
        }
    }
}

/// What a remote file is fetched for.
pub(crate) enum Fate {
    Keep(Vec<u8>),
    Hand,
}

impl View for Fate {
    type V = Use;

    closed spec fn view(&self) -> Use {
        match self {
            Fate::Keep(temp) => Use::Keep(temp@),
            Fate::Hand => Use::Hand,
        }
    }
}

/// Where the work stands.
pub(crate) enum Stage {
    Look(Vec<u8>, Wish),
    Read(Vec<u8>, Wish),
    Parse(Vec<u8>, Wish, String),
    Format(Vec<u8>, Vec<Remote>),
    Write(Vec<u8>, String),
    Protect(Vec<u8>),
    PushLook(Remote, Vec<u8>, Option<Vec<u8>>),
    PushDir(Remote, Vec<u8>, Option<Vec<u8>>),
    PushRead(Remote, Vec<u8>, Option<Vec<u8>>),
    PushStore(Remote, Vec<u8>, Option<Vec<u8>>),
    PushTold(Remote, Option<Vec<u8>>),
    PushKey(Remote, Vec<u8>),
    PushKeyTold(Remote),
    Fetch(Remote, String, Fate),
    PullWrite(Vec<u8>, Vec<u8>),
    Ended(Result<Outcome, VaultError>),
}

fn fail(e: VaultError) -> (r: Stage)
    ensures
        settles(failed(e@), r.plan()),
{
    Stage::Ended(Err(e))
}

fn nothing() -> (r: Stage)
    ensures
        settles(Plan::End(Ok(Product::Nothing)), r.plan()),
{
    Stage::Ended(Ok(Outcome::Nothing))
}

fn after_read(path: Vec<u8>, wish: Wish, read: Result<String, String>) -> (r: Stage)
    ensures
        settles(
            (read_remotes(path@, wish@)->Ask_1)(Answer::Text(text_view(read))),
            r.plan(),
        ),
{
    match read {
        Ok(text) => Stage::Parse(path, wish, text),
        Err(e) => {
            let message = "Cannot read remotes config at ".to_owned().concat(
                show(path.as_slice()).as_str(),
            );
            fail(VaultError::caused(ErrorKind::RemotesNotRead, message, e))
        },
    }
}

fn after_parse(path: Vec<u8>, wish: Wish, text: String, reply: Reply) -> (r: Stage)
    requires
        reply@ is Remotes,
    ensures
        settles((parse_remotes(path@, wish@, text@)->Ask_1)(reply@), r.plan()),
{
    match remotes_in(reply) {
        Ok(all) => with_remotes(path, wish, all),
        Err(e) => fail(
            VaultError::new(
                ErrorKind::RemotesInvalid,
                "Invalid remotes config: ".to_owned().concat(e.as_str()),
            ),
        ),
    }
}

fn with_remotes(path: Vec<u8>, wish: Wish, all: Vec<Remote>) -> (r: Stage)
    ensures
        settles(remotes_loaded(path@, wish@, sites(all@)), r.plan()),
{
    match wish {
        Wish::Show => Stage::Ended(Ok(Outcome::Remotes(all))),
        Wish::Find(name) => match find_place(&all, name.as_str()) {
            Some(i) => Stage::Ended(Ok(Outcome::Remote(all[i].clone()))),
            None => fail(
                VaultError::new(
                    ErrorKind::RemoteUnknown,
                    "Remote '".to_owned().concat(name.as_str()).concat(
                        "' not configured. Run: vault remote list",
                    ),
                ),
            ),
        },
        Wish::Add(remote) => match find_place(&all, remote.name.as_str()) {
            Some(_) => fail(
                VaultError::new(
                    ErrorKind::RemoteExists,
                    "Remote '".to_owned().concat(remote.name.as_str()).concat(
                        "' already exists. Remove it first: vault remote rm ",
                    ).concat(remote.name.as_str()),
                ),
            ),
            None => {
                let ghost before = all@;
                let ghost site = remote@;
                let mut all = all;
                all.push(remote);
                assert(sites(all@) =~= sites(before).push(site));
                Stage::Format(path, all)
            },
        },
        Wish::Remove(name) => {
            let count: usize = all.len();
            let rest = leave_out(all, name.as_str());
            if rest.len() == count {
                fail(
                    VaultError::new(
                        ErrorKind::RemoteNotFound,
                        "Remote '".to_owned().concat(name.as_str()).concat("' not found"),
                    ),
                )
            } else {
                Stage::Format(path, rest)
            }
        },
    }
}

fn after_format(path: Vec<u8>, all: Vec<Remote>, reply: Reply) -> (r: Stage)
    requires
        reply@ is Text,
    ensures
        settles((save_remotes(path@, sites(all@))->Ask_1)(reply@), r.plan()),
{
    match text_in(reply) {
        Ok(text) => Stage::Write(path, text),
        Err(e) => fail(
            VaultError::new(
                ErrorKind::RemotesNotFormatted,
                "Failed to serialize remotes config: ".to_owned().concat(e.as_str()),
            ),
        ),
    }
}

fn after_write(path: Vec<u8>, text: String, reply: Reply) -> (r: Stage)
    requires
        reply@ is Done,
    ensures
        settles((write_remotes(path@, text@)->Ask_1)(reply@), r.plan()),
{
    match done_in(reply) {
        Ok(_) => Stage::Protect(path),
        Err(e) => {
            let message = "Cannot write remotes config to ".to_owned().concat(
                show(path.as_slice()).as_str(),
            );
            fail(VaultError::caused(ErrorKind::RemotesNotWritten, message, e))
        },
    }
}

fn after_protect(path: Vec<u8>, reply: Reply) -> (r: Stage)
    requires
        reply@ is Done,
    ensures
        settles((protect(path@)->Ask_1)(reply@), r.plan()),
{
    match done_in(reply) {
        Ok(_) => nothing(),
        Err(e) => fail(VaultError::new(ErrorKind::RemotesNotProtected, e)),
    }
}

fn after_push_look(remote: Remote, store: Vec<u8>, key: Option<Vec<u8>>, there: bool) -> (r: Stage)
    ensures
        settles(
            (push_look(remote@, store@, maybe_bytes(key))->Ask_1)(Answer::Told(there)),
            r.plan(),
        ),
{
    if there {
        Stage::PushDir(remote, store, key)
    } else {
        let message = "Encrypted store not found at ".to_owned().concat(
            show(store.as_slice()).as_str(),
        ).concat(". Run `vault init` first.");
        fail(VaultError::new(ErrorKind::StoreMissing, message))
    }
}

type SshResult = Result<(Option<i32>, Vec<u8>), (RunStep, String)>;

fn failed_exit(start: &str, remote: &Remote, code: Option<i32>) -> (r: VaultError)
    ensures
        r@ == fault(
            ErrorKind::SshFailed,
            start@ + remote.name@ + "' (exit "@ + exit_text(code) + ")"@,
        ),
{
    VaultError::new(
        ErrorKind::SshFailed,
        start.to_owned().concat(remote.name.as_str()).concat("' (exit ").concat(
            exit_text_of(code).as_str(),
        ).concat(")"),
    )
}

fn ssh_error(kind: ErrorKind, start: &str, remote: &Remote, words: String) -> (r: VaultError)
    ensures
        r@ == caused(kind, start@ + remote.name@, words@),
{
    VaultError::caused(kind, start.to_owned().concat(remote.name.as_str()), words)
}

/// What came of a command on a remote.
fn check_run(remote: &Remote, ran: SshResult) -> (r: Result<(), VaultError>)
    ensures
        match r {
            Ok(_) => run_fault(remote@, ran_view(ran)) is None,
            Err(e) => run_fault(remote@, ran_view(ran)) == Some(e@),
        },
{
    match ran {
        Ok((Some(0), _)) => Ok(()),
        Ok((code, _)) => Err(failed_exit("ssh command failed on '", remote, code)),
        Err((_, words)) => Err(
            ssh_error(ErrorKind::SshNotStarted, "Failed to invoke ssh for ", remote, words),
        ),
    }
}

/// What came of writing to a remote.
fn check_put(remote: &Remote, ran: SshResult) -> (r: Result<(), VaultError>)
    ensures
        match r {
            Ok(_) => put_fault(remote@, ran_view(ran)) is None,
            Err(e) => put_fault(remote@, ran_view(ran)) == Some(e@),
        },
{
    match ran {
        Ok((Some(0), _)) => Ok(()),
        Ok((code, _)) => Err(failed_exit("ssh upload failed for '", remote, code)),
        Err((RunStep::Start, words)) => Err(
            ssh_error(ErrorKind::SshNotStarted, "Failed to spawn ssh for ", remote, words),
        ),
        Err((RunStep::Feed, words)) => Err(
            ssh_error(ErrorKind::SshNotFed, "Failed to pipe file to ssh for ", remote, words),
        ),
        Err((_, words)) => Err(
            ssh_error(ErrorKind::SshNotAwaited, "Failed to wait on ssh for ", remote, words),
        ),
    }
}

/// What came of reading from a remote.
fn check_get(remote: &Remote, ran: SshResult) -> (r: Result<Vec<u8>, VaultError>)
    ensures
        match r {
            Ok(data) => get_fault(remote@, ran_view(ran)) is None && data@ == (ran_view(
                ran,
            )->Ok_0).1,
            Err(e) => get_fault(remote@, ran_view(ran)) == Some(e@),
        },
{
    match ran {
        Ok((Some(0), data)) => Ok(data),
        Ok((code, _)) => Err(failed_exit("ssh download failed for '", remote, code)),
        Err((RunStep::Start, words)) => Err(
            ssh_error(ErrorKind::SshNotStarted, "Failed to spawn ssh for ", remote, words),
        ),
        Err((RunStep::Read, words)) => Err(
            ssh_error(ErrorKind::SshNotRead, "Failed to read remote file from ", remote, words),
        ),
        Err((_, words)) => Err(
            ssh_error(ErrorKind::SshNotAwaited, "Failed to wait on ssh for ", remote, words),
        ),
    }
}

fn after_push_dir(remote: Remote, store: Vec<u8>, key: Option<Vec<u8>>, reply: Reply) -> (r: Stage)
    requires
        reply@ is Ran,
    ensures
        settles((push_dir(remote@, store@, maybe_bytes(key))->Ask_1)(reply@), r.plan()),
{
    match check_run(&remote, ran_in(reply)) {
        Ok(_) => Stage::PushRead(remote, store, key),
        Err(e) => {
            let message = "Failed to create remote directory on '".to_owned().concat(
                remote.name.as_str(),
            ).concat("'");
            fail(e.within(ErrorKind::RemoteDirectoryNotCreated, message))
        },
    }
}

fn after_push_read(remote: Remote, store: Vec<u8>, key: Option<Vec<u8>>, reply: Reply) -> (r: Stage)
    requires
        reply@ is Data,
    ensures
        settles((push_read(remote@, store@, maybe_bytes(key))->Ask_1)(reply@), r.plan()),
{
    match data_in(reply) {
        Ok(data) => Stage::PushStore(remote, data, key),
        Err(e) => {
            let message = "Cannot read ".to_owned().concat(show(store.as_slice()).as_str());
            fail(VaultError::caused(ErrorKind::StoreFileNotRead, message, e))
        },
    }
}

fn after_push_store(remote: Remote, data: Vec<u8>, key: Option<Vec<u8>>, reply: Reply) -> (r: Stage)
    requires
        reply@ is Ran,
    ensures
        settles((push_store(remote@, data@, maybe_bytes(key))->Ask_1)(reply@), r.plan()),
{
    match check_put(&remote, ran_in(reply)) {
        Ok(_) => Stage::PushTold(remote, key),
        Err(e) => fail(e),
    }
}

fn after_push_told(remote: Remote, key: Option<Vec<u8>>, reply: Reply) -> (r: Stage)
    ensures
        settles((push_told(remote@, maybe_bytes(key))->Ask_1)(reply@), r.plan()),
{
    match key {
        Some(file) => Stage::PushKey(remote, file),
        None => nothing(),
    }
}

fn after_push_key(remote: Remote, file: Vec<u8>, reply: Reply) -> (r: Stage)
    requires
        reply@ is Ran,
    ensures
        settles((push_key(remote@, file@)->Ask_1)(reply@), r.plan()),
{
    match check_put(&remote, ran_in(reply)) {
        Ok(_) => Stage::PushKeyTold(remote),
        Err(e) => fail(e),
    }
}

fn after_fetch(remote: Remote, path: String, fate: Fate, reply: Reply) -> (r: Stage)
    requires
        reply@ is Ran,
    ensures
        settles((fetch(remote@, path@, fate@)->Ask_1)(reply@), r.plan()),
{
    match check_get(&remote, ran_in(reply)) {
        Ok(data) => match fate {
            Fate::Keep(temp) => Stage::PullWrite(temp, data),
            Fate::Hand => Stage::Ended(Ok(Outcome::Data(data))),
        },
        Err(e) => fail(e),
    }
}

fn after_pull_write(temp: Vec<u8>, data: Vec<u8>, reply: Reply) -> (r: Stage)
    requires
        reply@ is Written,
    ensures
        settles((pull_write(temp@, data@)->Ask_1)(reply@), r.plan()),
{
    match written_in(reply) {
        Ok(_) => Stage::Ended(Ok(Outcome::Path(temp))),
        Err(e) => fail(write_error(temp.as_slice(), e)),
    }
}

fn no_ftp() -> (r: Stage)
    ensures
        r.plan() == failed(not_implemented()),
{
    Stage::Ended(
        Err(
            VaultError::new(
                ErrorKind::NotImplemented,
                "FTP remotes are not yet implemented. Use type ssh for now.".to_owned(),
            ),
        ),
    )
}

impl Stage {
    /// The course that is still ahead.
    pub(crate) closed spec fn plan(&self) -> Plan {
        match self {
            Stage::Look(path, wish) => load_remotes(path@, wish@),
            Stage::Read(path, wish) => read_remotes(path@, wish@),
            Stage::Parse(path, wish, text) => parse_remotes(path@, wish@, text@),
            Stage::Format(path, all) => save_remotes(path@, sites(all@)),
            Stage::Write(path, text) => write_remotes(path@, text@),
            Stage::Protect(path) => protect(path@),
            Stage::PushLook(remote, store, key) => push_look(remote@, store@, maybe_bytes(*key)),
            Stage::PushDir(remote, store, key) => push_dir(remote@, store@, maybe_bytes(*key)),
            Stage::PushRead(remote, store, key) => push_read(remote@, store@, maybe_bytes(*key)),
            Stage::PushStore(remote, data, key) => push_store(remote@, data@, maybe_bytes(*key)),
            Stage::PushTold(remote, key) => push_told(remote@, maybe_bytes(*key)),
            Stage::PushKey(remote, file) => push_key(remote@, file@),
            Stage::PushKeyTold(remote) => push_key_told(remote@),
            Stage::Fetch(remote, path, fate) => fetch(remote@, path@, fate@),
            Stage::PullWrite(temp, data) => pull_write(temp@, data@),
            Stage::Ended(result) => Plan::End(ending(*result)),
        }
    }

    /// The configured remotes are shown.
    pub(crate) fn show_remotes(path: Vec<u8>) -> (r: Stage)
        ensures
            r.plan() == load_remotes(path@, Intent::Show),
    {
        Stage::Look(path, Wish::Show)
    }

    /// A configured remote is looked up.
    pub(crate) fn find_remote(path: Vec<u8>, name: String) -> (r: Stage)
        ensures
            r.plan() == load_remotes(path@, Intent::Find(name@)),
    {
        Stage::Look(path, Wish::Find(name))
    }

    /// A remote is configured.
    pub(crate) fn add_remote(path: Vec<u8>, remote: Remote) -> (r: Stage)
        ensures
            r.plan() == add_remote(path@, remote@),
    {
        match remote.validate() {
            Ok(_) => Stage::Look(path, Wish::Add(remote)),
            Err(e) => Stage::Ended(Err(e)),
        }
    }

    /// A remote is taken out of the configuration.
    pub(crate) fn remove_remote(path: Vec<u8>, name: String) -> (r: Stage)
        ensures
            r.plan() == load_remotes(path@, Intent::Remove(name@)),
    {
        Stage::Look(path, Wish::Remove(name))
    }

    /// A configuration is written.
    pub(crate) fn save_remotes(path: Vec<u8>, all: Vec<Remote>) -> (r: Stage)
        ensures
            r.plan() == save_remotes(path@, sites(all@)),
    {
        Stage::Format(path, all)
    }

    /// The store is pushed.
    pub(crate) fn push(remote: Remote, store: Vec<u8>, key: Option<Vec<u8>>) -> (r: Stage)
        ensures
            r.plan() == push_course(remote@, store@, maybe_bytes(key)),
    {
        match remote.remote_type {
            RemoteType::Ssh => Stage::PushLook(remote, store, key),
            RemoteType::Ftp => no_ftp(),
        }
    }

    /// The store of a remote is fetched.
    pub(crate) fn pull(remote: Remote, store: &[u8]) -> (r: Stage)
        ensures
            r.plan() == pull_course(remote@, store@),
            pull_temp(store@) != store@,
    {
        let mut temp = bytes(store);
        let mut tail = bytes_of(".pull-tmp");
        temp.append(&mut tail);
        proof {
            reveal_strlit(".pull-tmp");
            lemma_encoded_end(".pull-tmp"@);
        }
        match remote.remote_type {
            RemoteType::Ssh => {
                let path = remote.path.clone();
                Stage::Fetch(remote, path, Fate::Keep(temp))
            },
            RemoteType::Ftp => no_ftp(),
        }
    }

    /// The key backup of a remote is fetched.
    pub(crate) fn pull_key(remote: Remote) -> (r: Stage)
        ensures
            r.plan() == pull_key_course(remote@),
    {
        match remote.remote_type {
            RemoteType::Ssh => {
                let path = key_backup_path(remote.path.as_str());
                Stage::Fetch(remote, path, Fate::Hand)
            },
            RemoteType::Ftp => no_ftp(),
        }
    }

    /// What is asked for now; nothing, at the end.
    pub(crate) fn request(&self) -> (r: Option<Request>)
        ensures
            match r {
                Some(q) => self.plan() is Ask && q@ == self.plan()->Ask_0,
                None => self.plan() is End,
            },
    {
        match self {
            Stage::Look(path, _) => Some(Request::Exists(copy_of(path))),
            Stage::Read(path, _) => Some(Request::ReadText(copy_of(path))),
            Stage::Parse(_, _, text) => Some(Request::ParseRemotes(text.clone())),
            Stage::Format(_, all) => Some(Request::FormatRemotes(same_remotes(all.as_slice()))),
            Stage::Write(path, text) => Some(Request::WriteText(copy_of(path), text.clone())),
            Stage::Protect(path) => Some(Request::MakePrivate(copy_of(path))),
            Stage::PushLook(_, store, _) => Some(Request::Exists(copy_of(store))),
            Stage::PushDir(remote, _, _) => {
                let command = make_command_for(parent_dir(remote.path.as_str()).as_str());
                Some(Request::Ssh(ssh_arguments(remote, command), None, false))
            },
            Stage::PushRead(_, store, _) => Some(Request::ReadData(copy_of(store))),
            Stage::PushStore(remote, data, _) => {
                let command = put_command_for(remote.path.as_str());
                Some(Request::Ssh(ssh_arguments(remote, command), Some(copy_of(data)), false))
            },
            Stage::PushTold(remote, _) => Some(
                Request::Say(
                    one_notice(
                        "✓ Pushed encrypted store to '".to_owned().concat(
                            remote.name.as_str(),
                        ).concat("' → ").concat(ssh_target(remote).as_str()).concat(":").concat(
                            remote.path.as_str(),
                        ),
                    ),
                ),
            ),
            Stage::PushKey(remote, file) => {
                let path = key_backup_path(remote.path.as_str());
                let command = put_command_for(path.as_str());
                Some(Request::Ssh(ssh_arguments(remote, command), Some(copy_of(file)), false))
            },
            Stage::PushKeyTold(remote) => Some(
                Request::Say(
                    one_notice(
                        "✓ Pushed passphrase-encrypted age key to '".to_owned().concat(
                            remote.name.as_str(),
                        ).concat("' → ").concat(ssh_target(remote).as_str()).concat(":").concat(
                            key_backup_path(remote.path.as_str()).as_str(),
                        ),
                    ),
                ),
            ),
            Stage::Fetch(remote, path, _) => {
                let command = get_command_for(path.as_str());
                Some(Request::Ssh(ssh_arguments(remote, command), None, true))
            },
            Stage::PullWrite(temp, data) => Some(
                Request::WritePrivate(copy_of(temp), copy_of(data)),
            ),
            Stage::Ended(_) => None,
        }
    }

    /// Goes on with an answer.
    pub(crate) fn resume(self, reply: Reply) -> (r: Stage)
        requires
            self.plan() matches Plan::Ask(q, _) && fits(q, reply@),
        ensures
            settles((self.plan()->Ask_1)(reply@), r.plan()),
    {
        match self {
            Stage::Look(path, wish) => if told(reply) {
                Stage::Read(path, wish)
            } else {
                let none: Vec<Remote> = Vec::new();
                assert(sites(none@) =~= Seq::empty());
                with_remotes(path, wish, none)
            },
            Stage::Read(path, wish) => after_read(path, wish, text_in(reply)),
            Stage::Parse(path, wish, text) => after_parse(path, wish, text, reply),
            Stage::Format(path, all) => after_format(path, all, reply),
            Stage::Write(path, text) => after_write(path, text, reply),
            Stage::Protect(path) => after_protect(path, reply),
            Stage::PushLook(remote, store, key) => after_push_look(
                remote,
                store,
                key,
                told(reply),
            ),
            Stage::PushDir(remote, store, key) => after_push_dir(remote, store, key, reply),
            Stage::PushRead(remote, store, key) => after_push_read(remote, store, key, reply),
            Stage::PushStore(remote, data, key) => after_push_store(remote, data, key, reply),
            Stage::PushTold(remote, key) => after_push_told(remote, key, reply),
            Stage::PushKey(remote, file) => after_push_key(remote, file, reply),
            Stage::PushKeyTold(_) => nothing(),
            Stage::Fetch(remote, path, fate) => after_fetch(remote, path, fate, reply),
            Stage::PullWrite(temp, data) => after_pull_write(temp, data, reply),
            Stage::Ended(result) => Stage::Ended(result),
        }
    }

    /// How it ended.
    pub(crate) fn outcome(self) -> (r: Result<Outcome, VaultError>)
        requires
            self.plan() is End,
        ensures
            self.plan() == Plan::End(ending(r)),
    {
        match self {
            Stage::Ended(result) => result,
            _ => Ok(Outcome::Nothing),
        }
    }
}

} // verus!
