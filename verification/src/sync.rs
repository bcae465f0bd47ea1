//! Remotes: how they are configured, and how the store is pushed to one and
//! pulled from it.

use vstd::prelude::*;
use vstd::utf8::encode_utf8;

use crate::command::{notice, write_fault};
use crate::fault::{caused, fault, within, ErrorKind, Fault};
use crate::path::shown;
use crate::plan::{failed, Answer, Ask, Plan, Product, RunStep};
use crate::remote::{
    arguments, backup_path, exit_text, get_command, make_command, parent, place_of, problem,
    put_command, target, without, RemoteType, Site,
};

verus! {

/// What the configured remotes are loaded for.
pub enum Intent {
    Show,
    Find(Seq<char>),
    Add(Site),
    Remove(Seq<char>),
}

/// What a remote file is fetched for.
pub enum Use {
    /// To be put into a file.
    Keep(Seq<u8>),
    /// To be handed over.
    Hand,
}

// The configuration.

/// The configured remotes are loaded. A configuration that is not there holds
/// none.
pub open spec fn load_remotes(path: Seq<u8>, intent: Intent) -> Plan {
    Plan::Ask(
        Ask::Exists(path),
        |a: Answer| if a->Told_0 {
            read_remotes(path, intent)
        } else {
            remotes_loaded(path, intent, Seq::empty())
        },
    )
}

pub open spec fn read_remotes(path: Seq<u8>, intent: Intent) -> Plan {
    Plan::Ask(
        Ask::ReadText(path),
        |a: Answer| match a->Text_0 {
            Ok(text) => parse_remotes(path, intent, text),
            Err(e) => failed(
                caused(
                    ErrorKind::RemotesNotRead,
                    "Cannot read remotes config at "@ + shown(path),
                    e,
                ),
            ),
        },
    )
}

pub open spec fn parse_remotes(path: Seq<u8>, intent: Intent, text: Seq<char>) -> Plan {
    Plan::Ask(
        Ask::ParseRemotes(text),
        |a: Answer| match a->Remotes_0 {
            Ok(all) => remotes_loaded(path, intent, all),
            Err(e) => failed(fault(ErrorKind::RemotesInvalid, "Invalid remotes config: "@ + e)),
        },
    )
}

pub open spec fn remotes_loaded(path: Seq<u8>, intent: Intent, all: Seq<Site>) -> Plan {
    match intent {
        Intent::Show => Plan::End(Ok(Product::Remotes(all))),
        Intent::Find(name) => match place_of(all, name) {
            Some(i) => Plan::End(Ok(Product::Remote(all[i]))),
            None => failed(remote_unknown(name)),
        },
        Intent::Add(site) => match place_of(all, site.name) {
            Some(_) => failed(remote_exists(site.name)),
            None => save_remotes(path, all.push(site)),
        },
        Intent::Remove(name) => if without(all, name).len() == all.len() {
            failed(remote_not_found(name))
        } else {
            save_remotes(path, without(all, name))
        },
    }
}

pub open spec fn remote_unknown(name: Seq<char>) -> Fault {
    fault(
        ErrorKind::RemoteUnknown,
        "Remote '"@ + name + "' not configured. Run: vault remote list"@,
    )
}

pub open spec fn remote_exists(name: Seq<char>) -> Fault {
    fault(
        ErrorKind::RemoteExists,
        "Remote '"@ + name + "' already exists. Remove it first: vault remote rm "@ + name,
    )
}

pub open spec fn remote_not_found(name: Seq<char>) -> Fault {
    fault(ErrorKind::RemoteNotFound, "Remote '"@ + name + "' not found"@)
}

/// A remote is configured, if it is sound and its name is new.
pub open spec fn add_remote(path: Seq<u8>, site: Site) -> Plan {
    match problem(site) {
        Some(f) => failed(f),
        None => load_remotes(path, Intent::Add(site)),
    }
}

/// The configuration is written, for the owner alone.
pub open spec fn save_remotes(path: Seq<u8>, all: Seq<Site>) -> Plan {
    Plan::Ask(
        Ask::FormatRemotes(all),
        |a: Answer| match a->Text_0 {
            Ok(text) => write_remotes(path, text),
            Err(e) => failed(
                fault(
                    ErrorKind::RemotesNotFormatted,
                    "Failed to serialize remotes config: "@ + e,
                ),
            ),
        },
    )
}

pub open spec fn write_remotes(path: Seq<u8>, text: Seq<char>) -> Plan {
    Plan::Ask(
        Ask::WriteText(path, text),
        |a: Answer| match a->Done_0 {
            Ok(_) => protect(path),
            Err(e) => failed(
                caused(
                    ErrorKind::RemotesNotWritten,
                    "Cannot write remotes config to "@ + shown(path),
                    e,
                ),
            ),
        },
    )
}

pub open spec fn protect(path: Seq<u8>) -> Plan {
    Plan::Ask(
        Ask::MakePrivate(path),
        |a: Answer| match a->Done_0 {
            Ok(_) => Plan::End(Ok(Product::Nothing)),
            Err(e) => failed(fault(ErrorKind::RemotesNotProtected, e)),
        },
    )
}

// Pushing.

pub open spec fn not_implemented() -> Fault {
    fault(
        ErrorKind::NotImplemented,
        "FTP remotes are not yet implemented. Use type ssh for now."@,
    )
}

/// The store is pushed to a remote, and the key backup behind it if there is
/// one. What is pushed is encrypted.
pub open spec fn push_course(site: Site, store: Seq<u8>, key: Option<Seq<u8>>) -> Plan {
    match site.remote_type {
        RemoteType::Ftp => failed(not_implemented()),
        RemoteType::Ssh => push_look(site, store, key),
    }
}

pub open spec fn push_look(site: Site, store: Seq<u8>, key: Option<Seq<u8>>) -> Plan {
    Plan::Ask(
        Ask::Exists(store),
        |a: Answer| if a->Told_0 {
            push_dir(site, store, key)
        } else {
            failed(
                fault(
                    ErrorKind::StoreMissing,
                    "Encrypted store not found at "@ + shown(store)
                        + ". Run `vault init` first."@,
                ),
            )
        },
    )
}

/// The directory on the remote is made.
pub open spec fn push_dir(site: Site, store: Seq<u8>, key: Option<Seq<u8>>) -> Plan {
    Plan::Ask(
        Ask::Ssh(arguments(site, make_command(parent(site.path))), None, false),
        |a: Answer| match run_fault(site, a->Ran_0) {
            Some(f) => failed(
                within(
                    ErrorKind::RemoteDirectoryNotCreated,
                    "Failed to create remote directory on '"@ + site.name + "'"@,
                    f,
                ),
            ),
            None => push_read(site, store, key),
        },
    )
}

pub open spec fn push_read(site: Site, store: Seq<u8>, key: Option<Seq<u8>>) -> Plan {
    Plan::Ask(
        Ask::ReadData(store),
        |a: Answer| match a->Data_0 {
            Ok(data) => push_store(site, data, key),
            Err(e) => failed(
                caused(ErrorKind::StoreFileNotRead, "Cannot read "@ + shown(store), e),
            ),
        },
    )
}

pub open spec fn push_store(site: Site, data: Seq<u8>, key: Option<Seq<u8>>) -> Plan {
    Plan::Ask(
        Ask::Ssh(arguments(site, put_command(site.path)), Some(data), false),
        |a: Answer| match put_fault(site, a->Ran_0) {
            Some(f) => failed(f),
            None => push_told(site, key),
        },
    )
}

pub open spec fn store_note(site: Site) -> Seq<char> {
    "✓ Pushed encrypted store to '"@ + site.name + "' → "@ + target(site) + ":"@ + site.path
}

pub open spec fn push_told(site: Site, key: Option<Seq<u8>>) -> Plan {
    Plan::Ask(
        Ask::Say(seq![notice(store_note(site))]),
        |a: Answer| match key {
            Some(file) => push_key(site, file),
            None => Plan::End(Ok(Product::Nothing)),
        },
    )
}

pub open spec fn push_key(site: Site, file: Seq<u8>) -> Plan {
    Plan::Ask(
        Ask::Ssh(arguments(site, put_command(backup_path(site.path))), Some(file), false),
        |a: Answer| match put_fault(site, a->Ran_0) {
            Some(f) => failed(f),
            None => push_key_told(site),
        },
    )
}

pub open spec fn key_note(site: Site) -> Seq<char> {
    "✓ Pushed passphrase-encrypted age key to '"@ + site.name + "' → "@ + target(site) + ":"@
        + backup_path(site.path)
}

pub open spec fn push_key_told(site: Site) -> Plan {
    Plan::Ask(
        Ask::Say(seq![notice(key_note(site))]),
        |a: Answer| Plan::End(Ok(Product::Nothing)),
    )
}

// Pulling.

/// The path that a pulled store is written to, next to the store.
pub open spec fn pull_temp(store: Seq<u8>) -> Seq<u8> {
    store + encode_utf8(".pull-tmp"@)
}

/// The store of a remote is written to a file of its own.
pub open spec fn pull_course(site: Site, store: Seq<u8>) -> Plan {
    match site.remote_type {
        RemoteType::Ftp => failed(not_implemented()),
        RemoteType::Ssh => fetch(site, site.path, Use::Keep(pull_temp(store))),
    }
}

/// The key backup of a remote is handed over.
pub open spec fn pull_key_course(site: Site) -> Plan {
    match site.remote_type {
        RemoteType::Ftp => failed(not_implemented()),
        RemoteType::Ssh => fetch(site, backup_path(site.path), Use::Hand),
    }
}

/// A remote file is fetched. What came before a failure is not used.
pub open spec fn fetch(site: Site, path: Seq<char>, purpose: Use) -> Plan {
    Plan::Ask(
        Ask::Ssh(arguments(site, get_command(path)), None, true),
        |a: Answer| match get_fault(site, a->Ran_0) {
            Some(f) => failed(f),
            None => fetched(purpose, (a->Ran_0->Ok_0).1),
        },
    )
}

pub open spec fn fetched(purpose: Use, data: Seq<u8>) -> Plan {
    match purpose {
        Use::Keep(temp) => pull_write(temp, data),
        Use::Hand => Plan::End(Ok(Product::Data(data))),
    }
}

pub open spec fn pull_write(temp: Seq<u8>, data: Seq<u8>) -> Plan {
    Plan::Ask(
        Ask::WritePrivate(temp, data),
        |a: Answer| match a->Written_0 {
            Ok(_) => Plan::End(Ok(Product::Path(temp))),
            Err(e) => failed(write_fault(temp, e)),
        },
    )
}

// Failures of ssh.

/// What came of running ssh, as a value of the model.
pub type Ran = Result<(Option<i32>, Seq<u8>), (RunStep, Seq<char>)>;

pub open spec fn not_started(site: Site, words: Seq<char>) -> Fault {
    caused(ErrorKind::SshNotStarted, "Failed to spawn ssh for "@ + site.name, words)
}

pub open spec fn not_awaited(site: Site, words: Seq<char>) -> Fault {
    caused(ErrorKind::SshNotAwaited, "Failed to wait on ssh for "@ + site.name, words)
}

/// What went wrong with a command on a remote.
pub open spec fn run_fault(site: Site, ran: Ran) -> Option<Fault> {
    match ran {
        Ok((code, _)) => if code == Some(0i32) {
            None
        } else {
            Some(
                fault(
                    ErrorKind::SshFailed,
                    "ssh command failed on '"@ + site.name + "' (exit "@ + exit_text(code) + ")"@,
                ),
            )
        },
        Err((_, words)) => Some(
            caused(ErrorKind::SshNotStarted, "Failed to invoke ssh for "@ + site.name, words),
        ),
    }
}

/// What went wrong with writing to a remote.
pub open spec fn put_fault(site: Site, ran: Ran) -> Option<Fault> {
    match ran {
        Ok((code, _)) => if code == Some(0i32) {
            None
        } else {
            Some(
                fault(
                    ErrorKind::SshFailed,
                    "ssh upload failed for '"@ + site.name + "' (exit "@ + exit_text(code) + ")"@,
                ),
            )
        },
        Err((step, words)) => Some(
            match step {
                RunStep::Start => not_started(site, words),
                RunStep::Feed => caused(
                    ErrorKind::SshNotFed,
                    "Failed to pipe file to ssh for "@ + site.name,
                    words,
                ),
                _ => not_awaited(site, words),
            },
        ),
    }
}

/// What went wrong with reading from a remote.
pub open spec fn get_fault(site: Site, ran: Ran) -> Option<Fault> {
    match ran {
        Ok((code, _)) => if code == Some(0i32) {
            None
        } else {
            Some(
                fault(
                    ErrorKind::SshFailed,
                    "ssh download failed for '"@ + site.name + "' (exit "@ + exit_text(code)
                        + ")"@,
                ),
            )
        },
        Err((step, words)) => Some(
            match step {
                RunStep::Start => not_started(site, words),
                RunStep::Read => caused(
                    ErrorKind::SshNotRead,
                    "Failed to read remote file from "@ + site.name,
                    words,
                ),
                _ => not_awaited(site, words),
            },
        ),
    }
}

} // verus!
