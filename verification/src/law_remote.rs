//! What remotes and the calls of ssh are, character by character, and that the
//! work with them does what it is for.

use vstd::prelude::*;
use vstd::utf8::encode_utf8;

use crate::command::notice;
use crate::fault::ErrorKind;
use crate::law_text::{digits_value, law_decimal, law_written_for_shell};
use crate::law_words::{aside, says, says_why};
use crate::plan::RunStep;
use crate::remote::{
    arguments, backup_path, exit_text, field_problem, get_command, make_command, parent, problem,
    put_command, without, Site,
};
use crate::shell::escaped;
use crate::sync::{
    get_fault, key_note, not_implemented, pull_temp, put_fault, remote_exists, remote_not_found,
    remote_unknown, run_fault, store_note, Ran,
};
use crate::text::{decimal, is_control_code, is_white};

verus! {

// What a sound remote is.

/// What is wrong with a field of a remote, if anything: it is empty, starts
/// with a dash, or holds white space or a control code.
pub open spec fn wrong_with(v: Seq<char>) -> Option<(ErrorKind, Seq<char>)> {
    if v.len() == 0 {
        Some((ErrorKind::FieldEmpty, " must not be empty"@))
    } else if v[0] == '-' {
        Some((ErrorKind::FieldWithDash, " must not start with '-'"@))
    } else if exists|i: int|
        0 <= i < v.len() && (is_white(#[trigger] v[i]) || is_control_code(v[i])) {
        Some((ErrorKind::FieldWithSpace, " must not contain whitespace"@))
    } else {
        None
    }
}

/// A remote is sound just where its name, its host and its user are not empty,
/// start with no dash and hold no white space and no control code, there is no
/// `@` in the host and the user, and the path is not empty; how long they are
/// does not matter. What is wrong is told, the name first, then the host, the
/// user, the `@`, and the path.
pub proof fn law_sound_remote(site: Site)
    ensures
        match problem(site) {
            None => {
                &&& wrong_with(site.name) is None
                &&& wrong_with(site.host) is None
                &&& wrong_with(site.user) is None
                &&& !site.host.contains('@') && !site.user.contains('@')
                &&& site.path.len() > 0
            },
            Some(f) => match wrong_with(site.name) {
                Some((kind, words)) => says(f, kind, "Remote "@ + "name"@ + words),
                None => match wrong_with(site.host) {
                    Some((kind, words)) => says(f, kind, "Remote "@ + "host"@ + words),
                    None => match wrong_with(site.user) {
                        Some((kind, words)) => says(f, kind, "Remote "@ + "user"@ + words),
                        None => if site.host.contains('@') || site.user.contains('@') {
                            says(
                                f,
                                ErrorKind::FieldWithAt,
                                "Remote host/user must not contain '@'"@,
                            )
                        } else {
                            site.path.len() == 0 && says(
                                f,
                                ErrorKind::PathEmpty,
                                "Remote path must not be empty"@,
                            )
                        },
                    },
                },
            },
        },
{
    assert(field_problem("name"@, site.name) is None <==> wrong_with(site.name) is None);
    assert(field_problem("host"@, site.host) is None <==> wrong_with(site.host) is None);
    assert(field_problem("user"@, site.user) is None <==> wrong_with(site.user) is None);
}

/// Leaving remotes out by their name leaves out all that have it, and no other,
/// and keeps the order of the others.
pub proof fn law_leaving_out(all: Seq<Site>, site: Site, name: Seq<char>)
    ensures
        without(Seq::empty(), name) == Seq::<Site>::empty(),
        site.name == name ==> without(all.push(site), name) == without(all, name),
        site.name != name ==> without(all.push(site), name) == without(all, name).push(site),
{
    reveal(Seq::filter);
    assert(all.push(site).drop_last() =~= all);
    assert(without(Seq::empty(), name) =~= Seq::<Site>::empty());
}

// The calls of ssh.

/// The arguments of every call of ssh: the port, if there is one, in digits
/// that stand for it; no questions, and a limit of ten seconds to connect; the
/// whole user and host; and the command.
pub proof fn law_arguments(site: Site, command: Seq<char>)
    ensures
        site.port is None ==> arguments(site, command) == seq![
            "-o"@,
            "BatchMode=yes"@,
            "-o"@,
            "ConnectTimeout=10"@,
            "--"@,
            site.user + "@"@ + site.host,
            command,
        ],
        site.port matches Some(port) ==> {
            &&& arguments(site, command) == seq!["-p"@, decimal(port as nat)] + seq![
                "-o"@,
                "BatchMode=yes"@,
                "-o"@,
                "ConnectTimeout=10"@,
                "--"@,
                site.user + "@"@ + site.host,
                command,
            ]
            &&& digits_value(decimal(port as nat)) == port
        },
{
    let tail = seq![
        "-o"@,
        "BatchMode=yes"@,
        "-o"@,
        "ConnectTimeout=10"@,
        "--"@,
        site.user + "@"@ + site.host,
        command,
    ];
    match site.port {
        Some(port) => {
            law_decimal(port as nat);
            assert(arguments(site, command) =~= seq!["-p"@, decimal(port as nat)] + tail);
        },
        None => {
            assert(arguments(site, command) =~= tail);
        },
    }
}

/// The commands on a remote: each names the whole path, between single quotes;
/// one that puts a file makes it the owner's alone, from the start and at the
/// end.
pub proof fn law_remote_commands(path: Seq<char>)
    ensures
        make_command(path) == "mkdir -p -- "@ + seq!['\''] + escaped(path) + seq!['\''],
        put_command(path) == "umask 077 && cat > "@ + seq!['\''] + escaped(path) + seq!['\'']
            + " && chmod 600 "@ + seq!['\''] + escaped(path) + seq!['\''],
        get_command(path) == "cat "@ + seq!['\''] + escaped(path) + seq!['\''],
        backup_path(path) == path + ".key.age"@,
{
    law_written_for_shell(path, Seq::empty(), 'x');
    assert(make_command(path) =~= "mkdir -p -- "@ + seq!['\''] + escaped(path) + seq!['\'']);
    assert(put_command(path) =~= "umask 077 && cat > "@ + seq!['\''] + escaped(path) + seq!['\'']
        + " && chmod 600 "@ + seq!['\''] + escaped(path) + seq!['\'']);
    assert(get_command(path) =~= "cat "@ + seq!['\''] + escaped(path) + seq!['\'']);
}

/// The directory of a remote path is all that stands before its last slash, or
/// the root where nothing does; a path without a slash lies in the directory
/// that ssh starts in.
pub proof fn law_parent(dir: Seq<char>, name: Seq<char>)
    requires
        !name.contains('/'),
    ensures
        dir.len() > 0 ==> parent(dir + seq!['/'] + name) == dir,
        dir.len() == 0 ==> parent(dir + seq!['/'] + name) == seq!['/'],
        parent(name) == seq!['.'],
{
    reveal_strlit("/");
    reveal_strlit(".");
    assert("/"@ =~= seq!['/']);
    assert("."@ =~= seq!['.']);
    let path = dir + seq!['/'] + name;
    let n = dir.len() as int;
    path.index_of_last_ensures('/');
    name.index_of_last_ensures('/');
    assert(path[n] == '/');
    assert(path.contains('/'));
    let i = path.index_of_last('/').unwrap();
    if i > n {
        assert(path[i] == name[i - n - 1]);
    }
    assert(i == n);
    assert(path.take(n) =~= dir);
}

/// A store is pulled next to the local one: to all of its path, and `.pull-tmp`.
pub proof fn law_pull_path(store: Seq<u8>)
    ensures
        pull_temp(store) == store + encode_utf8(".pull-tmp"@),
{
}

/// What a push says: the name of the remote, where it is, and the path, whole.
pub proof fn law_push_words(site: Site)
    ensures
        notice(store_note(site)) == aside(
            "✓ Pushed encrypted store to '"@ + site.name + "' → "@ + site.user + "@"@ + site.host
                + ":"@ + site.path,
        ),
        notice(key_note(site)) == aside(
            "✓ Pushed passphrase-encrypted age key to '"@ + site.name + "' → "@ + site.user + "@"@
                + site.host + ":"@ + site.path + ".key.age"@,
        ),
{
    reveal_strlit("\n");
    let a = "✓ Pushed encrypted store to '"@ + site.name + "' → "@ + site.user + "@"@ + site.host
        + ":"@ + site.path;
    let b = "✓ Pushed passphrase-encrypted age key to '"@ + site.name + "' → "@ + site.user + "@"@
        + site.host + ":"@ + site.path + ".key.age"@;
    assert(store_note(site) =~= a);
    assert(key_note(site) =~= b);
    assert(a + "\n"@ =~= a.push('\n'));
    assert(b + "\n"@ =~= b.push('\n'));
}

/// What is said of a remote that is not there, is there already, or is of a
/// kind that cannot be used yet.
pub proof fn law_remote_refusals(name: Seq<char>)
    ensures
        says(
            remote_unknown(name),
            ErrorKind::RemoteUnknown,
            "Remote '"@ + name + "' not configured. Run: vault remote list"@,
        ),
        says(
            remote_exists(name),
            ErrorKind::RemoteExists,
            "Remote '"@ + name + "' already exists. Remove it first: vault remote rm "@ + name,
        ),
        says(remote_not_found(name), ErrorKind::RemoteNotFound, "Remote '"@ + name + "' not found"@),
        says(
            not_implemented(),
            ErrorKind::NotImplemented,
            "FTP remotes are not yet implemented. Use type ssh for now."@,
        ),
{
}

/// Whether a call of ssh went well is its exit code alone: what it printed, and
/// how much, does not matter.
pub proof fn law_exit_code(site: Site, ran: Ran)
    ensures
        run_fault(site, ran) is None <==> (ran matches Ok((code, _)) && code == Some(0i32)),
        put_fault(site, ran) is None <==> (ran matches Ok((code, _)) && code == Some(0i32)),
        get_fault(site, ran) is None <==> (ran matches Ok((code, _)) && code == Some(0i32)),
{
}

/// What is said of a call of ssh that went wrong: for which remote, and how.
pub proof fn law_ssh_words(site: Site, code: Option<i32>, data: Seq<u8>, words: Seq<char>)
    requires
        code != Some(0i32),
    ensures
        run_fault(site, Ok((code, data))) matches Some(f) && says(
            f,
            ErrorKind::SshFailed,
            "ssh command failed on '"@ + site.name + "' (exit "@ + exit_text(code) + ")"@,
        ),
        put_fault(site, Ok((code, data))) matches Some(f) && says(
            f,
            ErrorKind::SshFailed,
            "ssh upload failed for '"@ + site.name + "' (exit "@ + exit_text(code) + ")"@,
        ),
        get_fault(site, Ok((code, data))) matches Some(f) && says(
            f,
            ErrorKind::SshFailed,
            "ssh download failed for '"@ + site.name + "' (exit "@ + exit_text(code) + ")"@,
        ),
        put_fault(site, Err((RunStep::Feed, words))) matches Some(f) && says_why(
            f,
            ErrorKind::SshNotFed,
            "Failed to pipe file to ssh for "@ + site.name,
            words,
        ),
        get_fault(site, Err((RunStep::Read, words))) matches Some(f) && says_why(
            f,
            ErrorKind::SshNotRead,
            "Failed to read remote file from "@ + site.name,
            words,
        ),
        get_fault(site, Err((RunStep::Start, words))) matches Some(f) && says_why(
            f,
            ErrorKind::SshNotStarted,
            "Failed to spawn ssh for "@ + site.name,
            words,
        ),
        put_fault(site, Err((RunStep::Await, words))) matches Some(f) && says_why(
            f,
            ErrorKind::SshNotAwaited,
            "Failed to wait on ssh for "@ + site.name,
            words,
        ),
        get_fault(site, Err((RunStep::Await, words))) matches Some(f) && says_why(
            f,
            ErrorKind::SshNotAwaited,
            "Failed to wait on ssh for "@ + site.name,
            words,
        ),
        put_fault(site, Err((RunStep::Start, words))) matches Some(f) && says_why(
            f,
            ErrorKind::SshNotStarted,
            "Failed to spawn ssh for "@ + site.name,
            words,
        ),
        forall|step: RunStep|
            (#[trigger] run_fault(site, Err((step, words)))) matches Some(f) && says_why(
                f,
                ErrorKind::SshNotStarted,
                "Failed to invoke ssh for "@ + site.name,
                words,
            ),
        code is None ==> exit_text(code) == "None"@,
        code matches Some(n) ==> exit_text(code) == "Some("@ + (if n < 0 {
            "-"@
        } else {
            Seq::empty()
        }) + decimal((if n < 0 { -n } else { n as int }) as nat) + ")"@,
{
    if let Some(n) = code {
        assert(exit_text(code) =~= "Some("@ + (if n < 0 {
            "-"@
        } else {
            Seq::empty()
        }) + decimal((if n < 0 { -n } else { n as int }) as nat) + ")"@);
    }
}

} // verus!
