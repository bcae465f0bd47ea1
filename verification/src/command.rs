//! The commands on a vault: the course that each of them takes.

use vstd::prelude::*;
use vstd::utf8::{decode_utf8, encode_utf8, valid_utf8};

use crate::crypto::{decrypt_words, public_text, DecryptStep, Locked};
use crate::fault::{caused, fault, ErrorKind, Fault};
use crate::format::{dropped_in, is_storable_value, parsed, serialized};
use crate::path::{joined, shown, utf8_complaint};
use crate::plan::{failed, Answer, Ask, Plan, Product, Stream, WriteStep};
use crate::secrets::{listing, Pair};
use crate::shell::{is_env_key, quoted, single_quoted};
use crate::store::{first_key, identity_from, key_file, Places};
use crate::text::{decimal, lines, trim};

verus! {

/// A command, as a value of the model.
pub enum Command {
    /// Generate a key and create an empty store.
    Init,
    /// Have the secrets edited.
    Edit,
    /// Give a name a value, or ask for the value.
    Add(Seq<char>, Option<Seq<char>>),
    /// Print the value of a name.
    Get(Seq<char>),
    /// Print the names.
    List,
    /// Take a name out.
    Remove(Seq<char>),
    /// Print the secrets for a shell to evaluate.
    Env,
    /// Print the text of the store.
    Cat,
    /// Check that the identity opens a file.
    Verify(Seq<u8>),
    /// Encrypt the key file to a passphrase.
    Export(Seq<char>),
    /// Install a key that was encrypted to a passphrase.
    Import(Seq<u8>, Seq<char>),
    /// Check that there is a key.
    EnsureInit,
    /// Make sure that the directory is there.
    EnsureDir,
}

/// What the secrets are loaded for.
pub enum Goal {
    Edit,
    Add(Seq<char>, Seq<char>),
    Get(Seq<char>),
    List,
    Remove(Seq<char>),
    Env,
}

/// What a file is opened for.
pub enum Reading {
    Cat,
    Verify,
    Load(Goal),
}

/// What the secrets are loaded for, with the texts that it takes.
pub enum Aim {
    Edit,
    Add(String, String),
    Get(String),
    List,
    Remove(String),
    Env,
}

impl View for Aim {
    type V = Goal;

    open spec fn view(&self) -> Goal {
        match self {
            Aim::Edit => Goal::Edit,
            Aim::Add(name, value) => Goal::Add(name@, value@),
            Aim::Get(name) => Goal::Get(name@),
            Aim::List => Goal::List,
            Aim::Remove(name) => Goal::Remove(name@),
            Aim::Env => Goal::Env,
        }
    }
}

/// What a file is opened for, with the texts that it takes.
pub enum Purpose {
    Cat,
    Verify,
    Load(Aim),
}

impl View for Purpose {
    type V = Reading;

    open spec fn view(&self) -> Reading {
        match self {
            Purpose::Cat => Reading::Cat,
            Purpose::Verify => Reading::Verify,
            Purpose::Load(aim) => Reading::Load(aim@),
        }
    }
}

/// What the directory is made for.
pub enum Work {
    Init,
    Install(Seq<char>),
    Nothing,
}

/// A text for the standard output, with the end of the line.
pub open spec fn output(text: Seq<char>) -> (Stream, Seq<char>) {
    (Stream::Output, text + "\n"@)
}

/// A text for the standard error, with the end of the line.
pub open spec fn notice(text: Seq<char>) -> (Stream, Seq<char>) {
    (Stream::Notice, text + "\n"@)
}

// Failures.

pub open spec fn not_initialized() -> Fault {
    fault(ErrorKind::NotInitialized, "Vault not initialized. Run: vault init"@)
}

pub open spec fn already_initialized(p: Places) -> Fault {
    fault(ErrorKind::AlreadyInitialized, "Vault already initialized at "@ + shown(p.dir))
}

pub open spec fn invalid_name(name: Seq<char>) -> Fault {
    fault(
        ErrorKind::InvalidName,
        "Invalid key '"@ + name
            + "' — use letters, digits and underscores, not starting with a digit"@,
    )
}

pub open spec fn invalid_value(name: Seq<char>) -> Fault {
    fault(
        ErrorKind::InvalidValue,
        "Invalid value for '"@ + name
            + "' — it must be a single line without whitespace at its ends"@,
    )
}

pub open spec fn unknown_name(name: Seq<char>) -> Fault {
    fault(ErrorKind::UnknownName, "Key '"@ + name + "' not found"@)
}

pub open spec fn key_exists(p: Places) -> Fault {
    fault(
        ErrorKind::KeyExists,
        "A key already exists at "@ + shown(p.key) + " — move it away first, then retry."@,
    )
}

pub open spec fn write_fault(path: Seq<u8>, e: (WriteStep, Seq<char>)) -> Fault {
    match e.0 {
        WriteStep::Create => caused(
            ErrorKind::FileNotWritten,
            "Cannot create "@ + shown(path),
            e.1,
        ),
        WriteStep::Write => fault(ErrorKind::FileNotWritten, e.1),
    }
}

pub open spec fn backup_fault(step: DecryptStep, words: Seq<char>) -> Fault {
    fault(
        ErrorKind::BackupNotDecrypted,
        "Failed to decrypt key backup (wrong passphrase?): "@ + decrypt_words(step, words),
    )
}

// How a command begins.

/// The course of a command.
pub open spec fn begin(p: Places, c: Command) -> Plan {
    match c {
        Command::Env => Plan::Ask(
            Ask::Exists(p.store),
            |a: Answer| if a->Told_0 {
                load(p, Goal::Env)
            } else {
                Plan::End(Ok(Product::Nothing))
            },
        ),
        Command::Verify(path) => open_file(p, Reading::Verify, path),
        Command::Export(passphrase) => Plan::Ask(
            Ask::ReadData(p.key),
            |a: Answer| export_read(p, passphrase, a->Data_0),
        ),
        Command::EnsureDir => make_dir(p, Work::Nothing),
        _ => Plan::Ask(Ask::Exists(p.key), |a: Answer| key_looked_up(p, c, a->Told_0)),
    }
}

/// A command goes on once it is known whether there is a key.
pub open spec fn key_looked_up(p: Places, c: Command, there: bool) -> Plan {
    match c {
        Command::Init => if there {
            failed(already_initialized(p))
        } else {
            make_dir(p, Work::Init)
        },
        Command::Import(file, passphrase) => if there {
            failed(key_exists(p))
        } else {
            Plan::Open(Locked::Passphrase(passphrase), file, |out| import_opened(p, out))
        },
        _ => if there {
            initialized(p, c)
        } else {
            failed(not_initialized())
        },
    }
}

/// A command goes on where there is a key.
pub open spec fn initialized(p: Places, c: Command) -> Plan {
    match c {
        Command::Edit => load(p, Goal::Edit),
        Command::Get(name) => load(p, Goal::Get(name)),
        Command::List => load(p, Goal::List),
        Command::Remove(name) => load(p, Goal::Remove(name)),
        Command::Cat => open_file(p, Reading::Cat, p.store),
        Command::Add(name, value) => if !is_env_key(name) {
            failed(invalid_name(name))
        } else {
            match value {
                Some(v) => add_value(p, name, v),
                None => ask_value(p, name),
            }
        },
        _ => Plan::End(Ok(Product::Nothing)),
    }
}

/// The value of a new secret is asked for.
pub open spec fn ask_value(p: Places, name: Seq<char>) -> Plan {
    Plan::Ask(
        Ask::Password("Enter value for "@ + name + ": "@),
        |a: Answer| match a->Text_0 {
            Ok(value) => add_value(p, name, value),
            Err(e) => failed(fault(ErrorKind::NoPassword, e)),
        },
    )
}

/// A value is added, if the text of a store can hold it.
pub open spec fn add_value(p: Places, name: Seq<char>, value: Seq<char>) -> Plan {
    if is_storable_value(value) {
        load(p, Goal::Add(name, value))
    } else {
        failed(invalid_value(name))
    }
}

// Reading.

/// The secrets are loaded. A store that is not there holds none.
pub open spec fn load(p: Places, g: Goal) -> Plan {
    Plan::Ask(
        Ask::Exists(p.store),
        |a: Answer| if a->Told_0 {
            open_file(p, Reading::Load(g), p.store)
        } else {
            loaded(p, g, Map::empty())
        },
    )
}

/// A file is opened with the identity.
pub open spec fn open_file(p: Places, r: Reading, path: Seq<u8>) -> Plan {
    Plan::Ask(
        Ask::ReadText(p.key),
        |a: Answer| match identity_from(p.key, a->Text_0) {
            Ok(identity) => read_file(p, r, path, identity),
            Err(f) => failed(f),
        },
    )
}

pub open spec fn read_file(p: Places, r: Reading, path: Seq<u8>, identity: Seq<char>) -> Plan {
    Plan::Ask(
        Ask::ReadData(path),
        |a: Answer| match a->Data_0 {
            Ok(file) => Plan::Open(
                Locked::Identity(identity),
                file,
                |out| file_opened(p, r, out),
            ),
            Err(e) => failed(
                caused(ErrorKind::StoreNotRead, "Cannot read store at "@ + shown(path), e),
            ),
        },
    )
}

/// A file that is only checked has passed once it is open; any other has to
/// hold text.
pub open spec fn file_opened(
    p: Places,
    r: Reading,
    out: Result<Seq<u8>, (DecryptStep, Seq<char>)>,
) -> Plan {
    match out {
        Ok(data) => if r is Verify {
            Plan::End(Ok(Product::Nothing))
        } else if valid_utf8(data) {
            text_read(p, r, decode_utf8(data))
        } else {
            failed(
                caused(
                    ErrorKind::StoreNotText,
                    "Decrypted store is not valid UTF-8"@,
                    utf8_complaint(data),
                ),
            )
        },
        Err((step, words)) => failed(
            fault(
                ErrorKind::StoreNotDecrypted,
                "Failed to decrypt store: "@ + decrypt_words(step, words),
            ),
        ),
    }
}

pub open spec fn text_read(p: Places, r: Reading, text: Seq<char>) -> Plan {
    match r {
        Reading::Cat => say(seq![(Stream::Output, text)], None),
        Reading::Verify => Plan::End(Ok(Product::Nothing)),
        Reading::Load(g) => loaded(p, g, parsed(text)),
    }
}

/// A command goes on with the secrets.
pub open spec fn loaded(p: Places, g: Goal, m: Map<Seq<char>, Seq<char>>) -> Plan {
    match g {
        Goal::Edit => edit_begin(p, serialized(listing(m))),
        Goal::Add(name, value) => save(
            p,
            serialized(listing(m.insert(name, value))),
            seq![
                notice(
                    (if m.contains_key(name) {
                        "✓ Updated '"@
                    } else {
                        "✓ Added '"@
                    }) + name + "'"@,
                ),
            ],
            None,
        ),
        Goal::Get(name) => if m.contains_key(name) {
            say(seq![output(m[name])], None)
        } else {
            failed(unknown_name(name))
        },
        Goal::List => say(list_lines(listing(m)), None),
        Goal::Remove(name) => if m.contains_key(name) {
            save(
                p,
                serialized(listing(m.remove(name))),
                seq![notice("✓ Removed '"@ + name + "'"@)],
                None,
            )
        } else {
            failed(unknown_name(name))
        },
        Goal::Env => say(env_lines(listing(m)), None),
    }
}

/// The names, or a word on how to add some.
pub open spec fn list_lines(pairs: Seq<Pair>) -> Seq<(Stream, Seq<char>)> {
    if pairs.len() == 0 {
        seq![notice("No secrets stored. Use `vault add` or `vault edit`."@)]
    } else {
        Seq::new(pairs.len(), |i: int| output(pairs[i].0))
    }
}

/// What a shell evaluates for a secret; a name that is no shell identifier is
/// left out, and reported.
pub open spec fn env_line(p: Pair) -> (Stream, Seq<char>) {
    if is_env_key(p.0) {
        output("export "@ + p.0 + "="@ + quoted(p.1))
    } else {
        notice("⚠ Skipping '"@ + p.0 + "' — not a valid environment variable name"@)
    }
}

pub open spec fn env_lines(pairs: Seq<Pair>) -> Seq<(Stream, Seq<char>)> {
    Seq::new(pairs.len(), |i: int| env_line(pairs[i]))
}

// Writing.

/// The path that a new store is written to before it takes the old one's
/// place.
pub open spec fn temp_store(p: Places, process: u32) -> Seq<u8> {
    joined(p.dir, "store.env.age.tmp-"@ + decimal(process as nat))
}

/// A text takes the place of the store: it is encrypted, written to a file of
/// its own, and the file renamed. Then some notes are printed, and the file
/// under guard is removed.
pub open spec fn save(
    p: Places,
    text: Seq<char>,
    notes: Seq<(Stream, Seq<char>)>,
    guard: Option<Seq<u8>>,
) -> Plan {
    Plan::Ask(
        Ask::ReadText(p.key),
        |a: Answer| match identity_from(p.key, a->Text_0) {
            Ok(identity) => Plan::Seal(
                Locked::Identity(identity),
                encode_utf8(text),
                |out| save_sealed(p, notes, guard, out),
            ),
            Err(f) => finish(guard, Err(f)),
        },
    )
}

pub open spec fn save_sealed(
    p: Places,
    notes: Seq<(Stream, Seq<char>)>,
    guard: Option<Seq<u8>>,
    out: Result<Seq<u8>, Seq<char>>,
) -> Plan {
    match out {
        Ok(file) => Plan::Ask(
            Ask::ProcessId,
            |a: Answer| save_write(p, file, temp_store(p, a->Number_0), notes, guard),
        ),
        Err(words) => finish(guard, Err(fault(ErrorKind::NotEncrypted, words))),
    }
}

pub open spec fn save_write(
    p: Places,
    file: Seq<u8>,
    temp: Seq<u8>,
    notes: Seq<(Stream, Seq<char>)>,
    guard: Option<Seq<u8>>,
) -> Plan {
    Plan::Ask(
        Ask::WritePrivate(temp, file),
        |a: Answer| match a->Written_0 {
            Ok(_) => save_rename(p, temp, notes, guard),
            Err(e) => finish(guard, Err(write_fault(temp, e))),
        },
    )
}

pub open spec fn save_rename(
    p: Places,
    temp: Seq<u8>,
    notes: Seq<(Stream, Seq<char>)>,
    guard: Option<Seq<u8>>,
) -> Plan {
    Plan::Ask(
        Ask::Rename(temp, p.store),
        |a: Answer| match a->Done_0 {
            Ok(_) => say(notes, guard),
            Err(e) => finish(
                guard,
                Err(
                    caused(
                        ErrorKind::StoreNotReplaced,
                        "Cannot write store to "@ + shown(p.store),
                        e,
                    ),
                ),
            ),
        },
    )
}

/// Some texts are printed, and the command ends.
pub open spec fn say(notes: Seq<(Stream, Seq<char>)>, guard: Option<Seq<u8>>) -> Plan {
    Plan::Ask(Ask::Say(notes), |a: Answer| finish(guard, Ok(Product::Nothing)))
}

/// The file under guard is removed, and the command ends.
pub open spec fn finish(guard: Option<Seq<u8>>, result: Result<Product, Fault>) -> Plan {
    match guard {
        Some(path) => Plan::Ask(Ask::Remove(path), |a: Answer| Plan::End(result)),
        None => Plan::End(result),
    }
}

// The directory and the key.

/// The directory is made, where it is not there.
pub open spec fn make_dir(p: Places, w: Work) -> Plan {
    Plan::Ask(
        Ask::Exists(p.dir),
        |a: Answer| if a->Told_0 {
            dir_ready(p, w)
        } else {
            create_dir(p, w)
        },
    )
}

pub open spec fn create_dir(p: Places, w: Work) -> Plan {
    Plan::Ask(
        Ask::CreateDir(p.dir),
        |a: Answer| match a->Done_0 {
            Ok(_) => dir_ready(p, w),
            Err(e) => failed(
                caused(
                    ErrorKind::DirectoryNotCreated,
                    "Cannot create directory "@ + shown(p.dir),
                    e,
                ),
            ),
        },
    )
}

pub open spec fn dir_ready(p: Places, w: Work) -> Plan {
    match w {
        Work::Init => Plan::Generate(|identity| write_key(p, key_file(identity), Some(identity))),
        Work::Install(text) => write_key(p, text, None),
        Work::Nothing => Plan::End(Ok(Product::Nothing)),
    }
}

/// The key file is written; for a new identity an empty store follows.
pub open spec fn write_key(p: Places, text: Seq<char>, identity: Option<Seq<char>>) -> Plan {
    Plan::Ask(
        Ask::WritePrivate(p.key, encode_utf8(text)),
        |a: Answer| match a->Written_0 {
            Ok(_) => match identity {
                Some(id) => save(
                    p,
                    serialized(listing(Map::empty())),
                    init_notes(p, id),
                    None,
                ),
                None => Plan::End(Ok(Product::Nothing)),
            },
            Err(e) => failed(write_fault(p.key, e)),
        },
    )
}

pub open spec fn init_notes(p: Places, identity: Seq<char>) -> Seq<(Stream, Seq<char>)> {
    seq![
        notice("✓ Vault initialized"@),
        notice("  Location:   "@ + shown(p.dir)),
        notice("  Public key: "@ + public_text(identity)),
        notice(""@),
        notice("  Next steps:"@),
        notice("    vault add OPENAI_API_KEY sk-..."@),
        notice("    vault edit              # open in $EDITOR"@),
        notice("    eval \"$(vault env)\"    # inject into shell"@),
    ]
}

/// The key file is encrypted to a passphrase.
pub open spec fn export_read(
    p: Places,
    passphrase: Seq<char>,
    read: Result<Seq<u8>, Seq<char>>,
) -> Plan {
    match read {
        Ok(data) => Plan::Seal(
            Locked::Passphrase(passphrase),
            data,
            |out: Result<Seq<u8>, Seq<char>>| match out {
                Ok(file) => Plan::End(Ok(Product::Data(file))),
                Err(words) => failed(fault(ErrorKind::NotEncrypted, words)),
            },
        ),
        Err(e) => failed(caused(ErrorKind::KeyNotRead, "Cannot read key at "@ + shown(p.key), e)),
    }
}

/// A key backup is installed only where it is text with an identity in it.
pub open spec fn import_opened(
    p: Places,
    out: Result<Seq<u8>, (DecryptStep, Seq<char>)>,
) -> Plan {
    match out {
        Ok(data) => if !valid_utf8(data) {
            failed(
                caused(
                    ErrorKind::BackupNotText,
                    "Decrypted key is not valid UTF-8"@,
                    utf8_complaint(data),
                ),
            )
        } else if first_key(lines(decode_utf8(data))) is None {
            failed(
                fault(
                    ErrorKind::BackupWithoutKey,
                    "Decrypted backup contains no AGE-SECRET-KEY line — refusing to install"@,
                ),
            )
        } else {
            make_dir(p, Work::Install(decode_utf8(data)))
        },
        Err((step, words)) => failed(backup_fault(step, words)),
    }
}

// Editing.

/// The plain text goes to the runtime directory, which does not outlast the
/// session, where there is one, and else to the directory for temporary files.
pub open spec fn edit_begin(p: Places, content: Seq<char>) -> Plan {
    Plan::Ask(
        Ask::Variable("XDG_RUNTIME_DIR"@),
        |a: Answer| match a->Maybe_0 {
            Some(dir) => edit_look(p, content, dir),
            None => edit_temp(p, content),
        },
    )
}

pub open spec fn edit_look(p: Places, content: Seq<char>, dir: Seq<u8>) -> Plan {
    Plan::Ask(
        Ask::IsDir(dir),
        |a: Answer| if a->Told_0 {
            edit_in(p, content, dir)
        } else {
            edit_temp(p, content)
        },
    )
}

pub open spec fn edit_temp(p: Places, content: Seq<char>) -> Plan {
    Plan::Ask(Ask::TempDir, |a: Answer| edit_in(p, content, a->Path_0))
}

/// The path of the plain text.
pub open spec fn edit_path(dir: Seq<u8>, process: u32) -> Seq<u8> {
    joined(dir, "vault-edit-"@ + decimal(process as nat) + ".env"@)
}

pub open spec fn edit_in(p: Places, content: Seq<char>, dir: Seq<u8>) -> Plan {
    Plan::Ask(Ask::ProcessId, |a: Answer| edit_write(p, content, edit_path(dir, a->Number_0)))
}

/// The plain text is written. From the moment its file is there, it is removed
/// whichever way the command ends.
pub open spec fn edit_write(p: Places, content: Seq<char>, temp: Seq<u8>) -> Plan {
    Plan::Ask(
        Ask::WritePrivate(temp, encode_utf8(content)),
        |a: Answer| match a->Written_0 {
            Ok(_) => edit_editor(p, content, temp),
            Err(e) => match e.0 {
                WriteStep::Create => failed(write_fault(temp, e)),
                WriteStep::Write => finish(Some(temp), Err(write_fault(temp, e))),
            },
        },
    )
}

pub open spec fn edit_editor(p: Places, content: Seq<char>, temp: Seq<u8>) -> Plan {
    Plan::Ask(
        Ask::TextVariable("EDITOR"@),
        |a: Answer| match a->Text_0 {
            Ok(editor) => edit_run(p, content, temp, editor),
            Err(_) => edit_visual(p, content, temp),
        },
    )
}

pub open spec fn edit_visual(p: Places, content: Seq<char>, temp: Seq<u8>) -> Plan {
    Plan::Ask(
        Ask::TextVariable("VISUAL"@),
        |a: Answer| match a->Text_0 {
            Ok(editor) => edit_run(p, content, temp, editor),
            Err(_) => edit_run(p, content, temp, "vi"@),
        },
    )
}

pub open spec fn edit_run(
    p: Places,
    content: Seq<char>,
    temp: Seq<u8>,
    editor: Seq<char>,
) -> Plan {
    Plan::Ask(
        Ask::Shell(editor + " "@ + single_quoted(shown(temp))),
        |a: Answer| match a->Ran_0 {
            Ok((code, _)) => if code == Some(0i32) {
                edit_fetch(p, content, temp)
            } else {
                finish(
                    Some(temp),
                    Err(fault(ErrorKind::EditorFailed, "Editor exited with non-zero status"@)),
                )
            },
            Err((_, words)) => finish(
                Some(temp),
                Err(
                    caused(
                        ErrorKind::EditorNotStarted,
                        "Failed to launch editor: "@ + editor,
                        words,
                    ),
                ),
            ),
        },
    )
}

pub open spec fn edit_fetch(p: Places, content: Seq<char>, temp: Seq<u8>) -> Plan {
    Plan::Ask(
        Ask::ReadText(temp),
        |a: Answer| match a->Text_0 {
            Ok(edited) => edit_compare(p, content, temp, edited),
            Err(e) => finish(Some(temp), Err(fault(ErrorKind::EditNotRead, e))),
        },
    )
}

/// A text that was not changed, but for white space at its ends, is not
/// saved. Of one that was, the lines that hold no secret are reported.
pub open spec fn edit_compare(
    p: Places,
    content: Seq<char>,
    temp: Seq<u8>,
    edited: Seq<char>,
) -> Plan {
    if trim(edited) == trim(content) {
        say(seq![notice("No changes — store not updated."@)], Some(temp))
    } else if dropped_in(lines(edited)) > 0 {
        edit_warn(p, edited, temp)
    } else {
        edit_save(p, edited, temp)
    }
}

pub open spec fn edit_warn(p: Places, edited: Seq<char>, temp: Seq<u8>) -> Plan {
    Plan::Ask(
        Ask::Say(
            seq![
                notice(
                    "⚠ "@ + decimal(dropped_in(lines(edited)))
                        + " line(s) without KEY=VALUE were ignored and not saved."@,
                ),
            ],
        ),
        |a: Answer| edit_save(p, edited, temp),
    )
}

pub open spec fn edit_save(p: Places, edited: Seq<char>, temp: Seq<u8>) -> Plan {
    save(
        p,
        serialized(listing(parsed(edited))),
        seq![notice("✓ Store updated ("@ + decimal(parsed(edited).len()) + " secrets)"@)],
        Some(temp),
    )
}

} // verus!
