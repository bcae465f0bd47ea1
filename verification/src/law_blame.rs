//! What a failure comes of, and that none is passed over.

use vstd::prelude::*;

use crate::command::{
    ask_value, begin, create_dir, dir_ready, edit_begin, edit_compare, edit_editor, edit_fetch,
    edit_in, edit_look, edit_path, edit_run, edit_save, edit_temp, edit_visual, edit_warn,
    edit_write, file_opened, finish, import_opened, init_notes, key_looked_up, load, loaded,
    make_dir, notice, open_file, read_file, save, save_rename, save_sealed, save_write, say,
    temp_store, write_fault, write_key, Command, Goal, Reading, Work,
};
use crate::crypto::{is_key_pair, may_open, may_seal, DecryptStep};
use crate::fault::{caused, fault, ErrorKind, Fault};
use crate::format::serialized;
use crate::law_edit::edited_text;
use crate::law_key::empty_text;
use crate::law_write::{add_note, text_with, text_without};
use crate::path::{joined, shown};
use crate::plan::{fits, Answer, Ask, Plan, Product, RunStep, Stream, WriteStep};
use crate::remote::{backup_path, without, Site};
use crate::secrets::listing;
use crate::shell::single_quoted;
use crate::store::{identity_from, key_file, Places};
use crate::sync::{
    add_remote, fetch, load_remotes, parse_remotes, protect, pull_course, pull_key_course,
    pull_temp, pull_write, push_course, push_dir, push_key, push_key_told, push_look, push_read,
    push_store, push_told, read_remotes, remotes_loaded, save_remotes, write_remotes, Intent, Ran,
    Use,
};
use crate::text::decimal;

verus! {

/// Whether what was asked for was not done.
pub open spec fn is_bad(ask: Ask, a: Answer) -> bool {
    match ask {
        Ask::ReadText(_) | Ask::Password(_) | Ask::FormatRemotes(_) => a->Text_0 is Err,
        Ask::ReadData(_) => a->Data_0 is Err,
        Ask::CreateDir(_)
        | Ask::Rename(_, _)
        | Ask::Remove(_)
        | Ask::WriteText(_, _)
        | Ask::MakePrivate(_) => a->Done_0 is Err,
        Ask::WritePrivate(_, _) => a->Written_0 is Err,
        Ask::Shell(_) | Ask::Ssh(_, _, _) => !(a->Ran_0 matches Ok((code, _)) && code == Some(
            0i32,
        )),
        Ask::ParseRemotes(_) => a->Remotes_0 is Err,
        _ => false,
    }
}

/// Some requests that were not met, each with its answer.
pub type Unmet = Set<(Ask, Answer)>;

/// Whether a failure tells of a file that could not be read.
pub open spec fn tells_unread(path: Seq<u8>, start: Seq<char>, f: Fault, bad: Unmet) -> bool {
    exists|e: Seq<char>|
        #![trigger bad.contains((Ask::ReadText(path), Answer::Text(Err(e))))]
        #![trigger bad.contains((Ask::ReadData(path), Answer::Data(Err(e))))]
        {
            &&& bad.contains((Ask::ReadText(path), Answer::Text(Err(e)))) || bad.contains(
                (Ask::ReadData(path), Answer::Data(Err(e))),
            )
            &&& f.chain == seq![start + shown(path), e]
        }
}

/// Whether a failure tells of a file that could not be written for its owner
/// alone.
pub open spec fn tells_unwritten(f: Fault, bad: Unmet) -> bool {
    exists|path: Seq<u8>, data: Seq<u8>, at: WriteStep, e: Seq<char>| #[trigger]
        bad.contains((Ask::WritePrivate(path, data), Answer::Written(Err((at, e))))) && f.chain
            == match at {
            WriteStep::Create => seq!["Cannot create "@ + shown(path), e],
            WriteStep::Write => seq![e],
        }
}

/// Whether a failure tells of a file that could not take a place.
pub open spec fn tells_unmoved(to: Seq<u8>, f: Fault, bad: Unmet) -> bool {
    exists|from: Seq<u8>, e: Seq<char>| #[trigger]
        bad.contains((Ask::Rename(from, to), Answer::Done(Err(e)))) && f.chain == seq![
            "Cannot write store to "@ + shown(to),
            e,
        ]
}

/// Whether a failure tells of a directory that could not be made.
pub open spec fn tells_unmade(dir: Seq<u8>, f: Fault, bad: Unmet) -> bool {
    exists|e: Seq<char>| #[trigger]
        bad.contains((Ask::CreateDir(dir), Answer::Done(Err(e)))) && f.chain == seq![
            "Cannot create directory "@ + shown(dir),
            e,
        ]
}

/// Whether a failure tells of a password that could not be read.
pub open spec fn tells_unasked(f: Fault, bad: Unmet) -> bool {
    exists|prompt: Seq<char>, e: Seq<char>| #[trigger]
        bad.contains((Ask::Password(prompt), Answer::Text(Err(e)))) && f.chain == seq![e]
}

/// Whether a failure tells of an editor that could not be started.
pub open spec fn tells_unstarted(f: Fault, bad: Unmet) -> bool {
    exists|editor: Seq<char>, path: Seq<u8>, at: RunStep, e: Seq<char>|
        #![trigger is_run(editor, path, Err((at, e)), bad)]
        is_run(editor, path, Err((at, e)), bad) && f.chain == seq![
            "Failed to launch editor: "@ + editor,
            e,
        ]
}

/// Whether a failure tells of an editor that went wrong.
pub open spec fn tells_broken(f: Fault, bad: Unmet) -> bool {
    exists|editor: Seq<char>, path: Seq<u8>, ran: Ran| #[trigger]
        is_run(editor, path, ran, bad) && ran is Ok && f.chain == seq![
            "Editor exited with non-zero status"@,
        ]
}

/// Whether an editor was run on a file, and something came of it that is not
/// well.
pub open spec fn is_run(editor: Seq<char>, path: Seq<u8>, ran: Ran, bad: Unmet) -> bool {
    bad.contains(
        (Ask::Shell(editor + " "@ + single_quoted(shown(path))), Answer::Ran(ran)),
    )
}

/// Whether a failure tells of a plain text that could not be read back.
pub open spec fn tells_unfetched(f: Fault, bad: Unmet) -> bool {
    exists|base: Seq<u8>, process: u32, e: Seq<char>|
        #![trigger is_unfetched(base, process, e, bad)]
        is_unfetched(base, process, e, bad) && f.chain == seq![e]
}

/// Whether a plain text could not be read back.
pub open spec fn is_unfetched(base: Seq<u8>, process: u32, e: Seq<char>, bad: Unmet) -> bool {
    bad.contains(
        (
            Ask::ReadText(joined(base, "vault-edit-"@ + decimal(process as nat) + ".env"@)),
            Answer::Text(Err(e)),
        ),
    )
}

/// Whether a failure tells of a call of ssh that did not go well.
pub open spec fn tells_uncalled(bad: Unmet) -> bool {
    exists|args: Seq<Seq<char>>, input: Option<Seq<u8>>, wants: bool, ran: Ran| #[trigger]
        bad.contains((Ask::Ssh(args, input, wants), Answer::Ran(ran)))
}

/// Whether a failure tells of remotes that could not be put down as text.
pub open spec fn tells_unformed(f: Fault, bad: Unmet) -> bool {
    exists|all: Seq<Site>, e: Seq<char>| #[trigger]
        bad.contains((Ask::FormatRemotes(all), Answer::Text(Err(e)))) && f.chain == seq![
            "Failed to serialize remotes config: "@ + e,
        ]
}

/// Whether a failure tells of remotes that could not be read from text.
pub open spec fn tells_unparsed(f: Fault, bad: Unmet) -> bool {
    exists|text: Seq<char>, e: Seq<char>| #[trigger]
        bad.contains((Ask::ParseRemotes(text), Answer::Remotes(Err(e)))) && f.chain == seq![
            "Invalid remotes config: "@ + e,
        ]
}

/// Whether a failure tells of a configuration that could not be written.
pub open spec fn tells_unsaved(path: Seq<u8>, f: Fault, bad: Unmet) -> bool {
    exists|text: Seq<char>, e: Seq<char>| #[trigger]
        bad.contains((Ask::WriteText(path, text), Answer::Done(Err(e)))) && f.chain == seq![
            "Cannot write remotes config to "@ + shown(path),
            e,
        ]
}

/// Whether a failure tells of a file that could not be made its owner's alone.
pub open spec fn tells_open(path: Seq<u8>, f: Fault, bad: Unmet) -> bool {
    exists|e: Seq<char>| #[trigger]
        bad.contains((Ask::MakePrivate(path), Answer::Done(Err(e)))) && f.chain == seq![e]
}

/// Whether a failure comes of what its kind says: a failure to read, write,
/// rename, make or run something comes only where a request for just that was
/// not met, and tells the path and the words of the error, whole. The file that
/// is read is `file`, besides the key.
pub open spec fn has_cause(p: Places, file: Seq<u8>, f: Fault, bad: Unmet) -> bool {
    match f.kind {
        ErrorKind::KeyNotRead => tells_unread(p.key, "Cannot read key at "@, f, bad),
        ErrorKind::StoreNotRead => tells_unread(file, "Cannot read store at "@, f, bad),
        ErrorKind::StoreFileNotRead => tells_unread(file, "Cannot read "@, f, bad),
        ErrorKind::RemotesNotRead => tells_unread(file, "Cannot read remotes config at "@, f, bad),
        ErrorKind::FileNotWritten => tells_unwritten(f, bad),
        ErrorKind::StoreNotReplaced => tells_unmoved(p.store, f, bad),
        ErrorKind::DirectoryNotCreated => tells_unmade(p.dir, f, bad),
        ErrorKind::NoPassword => tells_unasked(f, bad),
        ErrorKind::EditorNotStarted => tells_unstarted(f, bad),
        ErrorKind::EditorFailed => tells_broken(f, bad),
        ErrorKind::EditNotRead => tells_unfetched(f, bad),
        ErrorKind::RemotesInvalid => tells_unparsed(f, bad),
        ErrorKind::RemotesNotFormatted => tells_unformed(f, bad),
        ErrorKind::RemotesNotWritten => tells_unsaved(file, f, bad),
        ErrorKind::RemotesNotProtected => tells_open(file, f, bad),
        ErrorKind::SshNotStarted
        | ErrorKind::SshNotAwaited
        | ErrorKind::SshNotFed
        | ErrorKind::SshNotRead
        | ErrorKind::SshFailed
        | ErrorKind::RemoteDirectoryNotCreated => tells_uncalled(bad),
        ErrorKind::NotEncrypted => false,
        _ => true,
    }
}

/// Whether no request was left unmet, but that a file was not removed.
pub open spec fn is_clean(bad: Unmet) -> bool {
    forall|x: (Ask, Answer)| #[trigger] bad.contains(x) ==> x.0 is Remove
}

/// Whether every failure that a course can come to has a cause, whatever the
/// answers are, where the requests in `bad` were not met before; and whether it
/// fails where any request is not met, other than to remove a file.
pub open spec fn has_causes(plan: Plan, p: Places, file: Seq<u8>, bad: Unmet) -> bool
    decreases plan,
{
    match plan {
        Plan::Ask(ask, then) => forall|a: Answer| #[trigger]
            fits(ask, a) ==> has_causes(
                then(a),
                p,
                file,
                if is_bad(ask, a) {
                    bad.insert((ask, a))
                } else {
                    bad
                },
            ),
        Plan::Seal(lock, data, then) => forall|out| #[trigger]
            may_seal(lock, data, out) ==> has_causes(then(out), p, file, bad),
        Plan::Open(lock, data, then) => forall|out| #[trigger]
            may_open(lock, data, out) ==> has_causes(then(out), p, file, bad),
        Plan::Generate(then) => forall|identity: Seq<char>| #[trigger]
            is_key_pair(identity) ==> has_causes(then(identity), p, file, bad),
        Plan::End(r) => match r {
            Ok(_) => is_clean(bad),
            Err(f) => has_cause(p, file, f, bad),
        },
    }
}

proof fn lemma_cause_stays(
    p: Places,
    file: Seq<u8>,
    f: Fault,
    bad: Unmet,
    more: Unmet,
)
    requires
        has_cause(p, file, f, bad),
        forall|x: (Ask, Answer)| bad.contains(x) ==> #[trigger] more.contains(x),
    ensures
        has_cause(p, file, f, more),
{
    match f.kind {
        ErrorKind::KeyNotRead => lemma_unread_stays(p.key, "Cannot read key at "@, f, bad, more),
        ErrorKind::StoreNotRead => {
            lemma_unread_stays(file, "Cannot read store at "@, f, bad, more);
        },
        ErrorKind::StoreFileNotRead => lemma_unread_stays(file, "Cannot read "@, f, bad, more),
        ErrorKind::RemotesNotRead => {
            lemma_unread_stays(file, "Cannot read remotes config at "@, f, bad, more);
        },
        ErrorKind::FileNotWritten => {
            let (path, data, at, e) = choose|
                path: Seq<u8>,
                data: Seq<u8>,
                at: WriteStep,
                e: Seq<char>,
            | #[trigger]
                bad.contains((Ask::WritePrivate(path, data), Answer::Written(Err((at, e)))))
                    && f.chain == match at {
                    WriteStep::Create => seq!["Cannot create "@ + shown(path), e],
                    WriteStep::Write => seq![e],
                };
            assert(more.contains((Ask::WritePrivate(path, data), Answer::Written(Err((at, e))))));
        },
        ErrorKind::StoreNotReplaced => {
            let (from, e) = choose|from: Seq<u8>, e: Seq<char>| #[trigger]
                bad.contains((Ask::Rename(from, p.store), Answer::Done(Err(e)))) && f.chain == seq![
                    "Cannot write store to "@ + shown(p.store),
                    e,
                ];
            assert(more.contains((Ask::Rename(from, p.store), Answer::Done(Err(e)))));
        },
        ErrorKind::DirectoryNotCreated => {
            let e = choose|e: Seq<char>| #[trigger]
                bad.contains((Ask::CreateDir(p.dir), Answer::Done(Err(e)))) && f.chain == seq![
                    "Cannot create directory "@ + shown(p.dir),
                    e,
                ];
            assert(more.contains((Ask::CreateDir(p.dir), Answer::Done(Err(e)))));
        },
        ErrorKind::NoPassword => {
            let (prompt, e) = choose|prompt: Seq<char>, e: Seq<char>| #[trigger]
                bad.contains((Ask::Password(prompt), Answer::Text(Err(e)))) && f.chain == seq![e];
            assert(more.contains((Ask::Password(prompt), Answer::Text(Err(e)))));
        },
        ErrorKind::EditorNotStarted => {
            let (editor, path, at, e) = choose|
                editor: Seq<char>,
                path: Seq<u8>,
                at: RunStep,
                e: Seq<char>,
            |
                #![trigger is_run(editor, path, Err((at, e)), bad)]
                is_run(editor, path, Err((at, e)), bad) && f.chain == seq![
                    "Failed to launch editor: "@ + editor,
                    e,
                ];
            assert(is_run(editor, path, Err((at, e)), more));
        },
        ErrorKind::EditorFailed => {
            let (editor, path, ran) = choose|editor: Seq<char>, path: Seq<u8>, ran: Ran| #[trigger]
                is_run(editor, path, ran, bad) && ran is Ok && f.chain == seq![
                    "Editor exited with non-zero status"@,
                ];
            assert(is_run(editor, path, ran, more));
        },
        ErrorKind::EditNotRead => {
            let (base, process, e) = choose|base: Seq<u8>, process: u32, e: Seq<char>|
                #![trigger is_unfetched(base, process, e, bad)]
                is_unfetched(base, process, e, bad) && f.chain == seq![e];
            assert(is_unfetched(base, process, e, more));
        },
        ErrorKind::RemotesInvalid => {
            let (text, e) = choose|text: Seq<char>, e: Seq<char>| #[trigger]
                bad.contains((Ask::ParseRemotes(text), Answer::Remotes(Err(e)))) && f.chain == seq![
                    "Invalid remotes config: "@ + e,
                ];
            assert(more.contains((Ask::ParseRemotes(text), Answer::Remotes(Err(e)))));
        },
        ErrorKind::RemotesNotFormatted => {
            let (all, e) = choose|all: Seq<Site>, e: Seq<char>| #[trigger]
                bad.contains((Ask::FormatRemotes(all), Answer::Text(Err(e)))) && f.chain == seq![
                    "Failed to serialize remotes config: "@ + e,
                ];
            assert(more.contains((Ask::FormatRemotes(all), Answer::Text(Err(e)))));
        },
        ErrorKind::RemotesNotWritten => {
            let (text, e) = choose|text: Seq<char>, e: Seq<char>| #[trigger]
                bad.contains((Ask::WriteText(file, text), Answer::Done(Err(e)))) && f.chain == seq![
                    "Cannot write remotes config to "@ + shown(file),
                    e,
                ];
            assert(more.contains((Ask::WriteText(file, text), Answer::Done(Err(e)))));
        },
        ErrorKind::RemotesNotProtected => {
            let e = choose|e: Seq<char>| #[trigger]
                bad.contains((Ask::MakePrivate(file), Answer::Done(Err(e)))) && f.chain == seq![e];
            assert(more.contains((Ask::MakePrivate(file), Answer::Done(Err(e)))));
        },
        _ => {
            if tells_uncalled(bad) {
                let (args, input, wants, ran) = choose|
                    args: Seq<Seq<char>>,
                    input: Option<Seq<u8>>,
                    wants: bool,
                    ran: Ran,
                | #[trigger]
                    bad.contains((Ask::Ssh(args, input, wants), Answer::Ran(ran)));
                assert(more.contains((Ask::Ssh(args, input, wants), Answer::Ran(ran))));
            }
        },
    }
}

proof fn lemma_unread_stays(
    path: Seq<u8>,
    start: Seq<char>,
    f: Fault,
    bad: Unmet,
    more: Unmet,
)
    requires
        tells_unread(path, start, f, bad),
        forall|x: (Ask, Answer)| bad.contains(x) ==> #[trigger] more.contains(x),
    ensures
        tells_unread(path, start, f, more),
{
    let e = choose|e: Seq<char>|
        #![trigger bad.contains((Ask::ReadText(path), Answer::Text(Err(e))))]
        #![trigger bad.contains((Ask::ReadData(path), Answer::Data(Err(e))))]
        {
            &&& bad.contains((Ask::ReadText(path), Answer::Text(Err(e)))) || bad.contains(
                (Ask::ReadData(path), Answer::Data(Err(e))),
            )
            &&& f.chain == seq![start + shown(path), e]
        };
    let (x, y) = (
        (Ask::ReadText(path), Answer::Text(Err(e))),
        (Ask::ReadData(path), Answer::Data(Err(e))),
    );
    assert(bad.contains(x) ==> more.contains(x));
    assert(bad.contains(y) ==> more.contains(y));
}

proof fn lemma_unwritten(path: Seq<u8>, data: Seq<u8>, a: Answer, bad: Unmet)
    requires
        a is Written && a->Written_0 is Err,
        bad.contains((Ask::WritePrivate(path, data), a)),
    ensures
        tells_unwritten(write_fault(path, a->Written_0->Err_0), bad),
{
    let (at, e) = a->Written_0->Err_0;
    assert(bad.contains((Ask::WritePrivate(path, data), Answer::Written(Err((at, e))))));
}

proof fn lemma_uncalled(ask: Ask, a: Answer, bad: Unmet)
    requires
        ask is Ssh && fits(ask, a),
    ensures
        tells_uncalled(bad.insert((ask, a))),
{
    assert(bad.insert((ask, a)).contains(
        (Ask::Ssh(ask->Ssh_0, ask->Ssh_1, ask->Ssh_2), Answer::Ran(a->Ran_0)),
    ));
}

proof fn lemma_key_unread(p: Places, file: Seq<u8>, a: Answer, bad: Unmet)
    requires
        a is Text,
        a->Text_0 is Err ==> bad.contains((Ask::ReadText(p.key), a)),
    ensures
        identity_from(p.key, a->Text_0) matches Err(f) ==> has_cause(p, file, f, bad),
{
    if let Err(e) = a->Text_0 {
        assert(bad.contains((Ask::ReadText(p.key), Answer::Text(Err(e)))));
    }
}

proof fn lemma_finish(
    guard: Option<Seq<u8>>,
    r: Result<Product, Fault>,
    p: Places,
    file: Seq<u8>,
    bad: Unmet,
)
    requires
        match r {
            Ok(_) => is_clean(bad),
            Err(f) => has_cause(p, file, f, bad),
        },
    ensures
        has_causes(finish(guard, r), p, file, bad),
{
    if let Some(path) = guard {
        let then = finish(guard, r)->Ask_1;
        assert forall|a: Answer| #[trigger] fits(Ask::Remove(path), a) implies has_causes(
            then(a),
            p,
            file,
            if is_bad(Ask::Remove(path), a) {
                bad.insert((Ask::Remove(path), a))
            } else {
                bad
            },
        ) by {
            if let Err(f) = r {
                lemma_cause_stays(p, file, f, bad, bad);
                lemma_cause_stays(p, file, f, bad, bad.insert((Ask::Remove(path), a)));
            }
        }
    }
}

proof fn lemma_say(
    notes: Seq<(Stream, Seq<char>)>,
    guard: Option<Seq<u8>>,
    p: Places,
    file: Seq<u8>,
    bad: Unmet,
)
    requires
        is_clean(bad),
    ensures
        has_causes(say(notes, guard), p, file, bad),
{
    let then = say(notes, guard)->Ask_1;
    assert forall|a: Answer| #[trigger] fits(Ask::Say(notes), a) implies has_causes(
        then(a),
        p,
        file,
        bad,
    ) by {
        lemma_finish(guard, Ok(Product::Nothing), p, file, bad);
    }
}

proof fn lemma_save(
    p: Places,
    text: Seq<char>,
    notes: Seq<(Stream, Seq<char>)>,
    guard: Option<Seq<u8>>,
    file: Seq<u8>,
    bad: Unmet,
)
    requires
        is_clean(bad),
    ensures
        has_causes(save(p, text, notes, guard), p, file, bad),
{
    let ask = Ask::ReadText(p.key);
    let then = save(p, text, notes, guard)->Ask_1;
    assert forall|a: Answer| #[trigger] fits(ask, a) implies has_causes(
        then(a),
        p,
        file,
        if is_bad(ask, a) {
            bad.insert((ask, a))
        } else {
            bad
        },
    ) by {
        match identity_from(p.key, a->Text_0) {
            Ok(identity) => {
                let lock = then(a)->Seal_0;
                let data = then(a)->Seal_1;
                let next = then(a)->Seal_2;
                assert forall|out| #[trigger] may_seal(lock, data, out) implies has_causes(
                    next(out),
                    p,
                    file,
                    bad,
                ) by {
                    lemma_sealed(p, out->Ok_0, notes, guard, file, bad);
                }
            },
            Err(f) => {
                let now = if is_bad(ask, a) {
                    bad.insert((ask, a))
                } else {
                    bad
                };
                lemma_key_unread(p, file, a, now);
                lemma_finish(guard, Err(f), p, file, now);
            },
        }
    }
}

proof fn lemma_sealed(
    p: Places,
    data: Seq<u8>,
    notes: Seq<(Stream, Seq<char>)>,
    guard: Option<Seq<u8>>,
    file: Seq<u8>,
    bad: Unmet,
)
    requires
        is_clean(bad),
    ensures
        has_causes(save_sealed(p, notes, guard, Ok(data)), p, file, bad),
{
    let asked = save_sealed(p, notes, guard, Ok(data))->Ask_1;
    assert forall|a: Answer| #[trigger] fits(Ask::ProcessId, a) implies has_causes(
        asked(a),
        p,
        file,
        bad,
    ) by {
        let temp = temp_store(p, a->Number_0);
        lemma_save_write(p, data, temp, notes, guard, file, bad);
    }
}

proof fn lemma_save_write(
    p: Places,
    data: Seq<u8>,
    temp: Seq<u8>,
    notes: Seq<(Stream, Seq<char>)>,
    guard: Option<Seq<u8>>,
    file: Seq<u8>,
    bad: Unmet,
)
    requires
        is_clean(bad),
    ensures
        has_causes(save_write(p, data, temp, notes, guard), p, file, bad),
{
    let ask = Ask::WritePrivate(temp, data);
    let wrote = save_write(p, data, temp, notes, guard)->Ask_1;
    assert forall|a: Answer| #[trigger] fits(ask, a) implies has_causes(
        wrote(a),
        p,
        file,
        if is_bad(ask, a) {
            bad.insert((ask, a))
        } else {
            bad
        },
    ) by {
        if is_bad(ask, a) {
            let f = write_fault(temp, a->Written_0->Err_0);
            lemma_unwritten(temp, data, a, bad.insert((ask, a)));
            lemma_finish(guard, Err(f), p, file, bad.insert((ask, a)));
        } else {
            let more = Ask::Rename(temp, p.store);
            let moved = save_rename(p, temp, notes, guard)->Ask_1;
            assert forall|b: Answer| #[trigger] fits(more, b) implies has_causes(
                moved(b),
                p,
                file,
                if is_bad(more, b) {
                    bad.insert((more, b))
                } else {
                    bad
                },
            ) by {
                if is_bad(more, b) {
                    let now = bad.insert((more, b));
                    assert(now.contains(
                        (Ask::Rename(temp, p.store), Answer::Done(Err(b->Done_0->Err_0))),
                    ));
                    let f = caused(
                        ErrorKind::StoreNotReplaced,
                        "Cannot write store to "@ + shown(p.store),
                        b->Done_0->Err_0,
                    );
                    lemma_finish(guard, Err(f), p, file, now);
                } else {
                    lemma_say(notes, guard, p, file, bad);
                }
            }
        }
    }
}

proof fn lemma_open(p: Places, r: Reading, path: Seq<u8>, bad: Unmet)
    requires
        is_clean(bad),
    ensures
        has_causes(open_file(p, r, path), p, path, bad),
{
    let ask = Ask::ReadText(p.key);
    let then = open_file(p, r, path)->Ask_1;
    assert forall|a: Answer| #[trigger] fits(ask, a) implies has_causes(
        then(a),
        p,
        path,
        if is_bad(ask, a) {
            bad.insert((ask, a))
        } else {
            bad
        },
    ) by {
        let now = if is_bad(ask, a) {
            bad.insert((ask, a))
        } else {
            bad
        };
        lemma_key_unread(p, path, a, now);
        if let Ok(identity) = identity_from(p.key, a->Text_0) {
            let more = Ask::ReadData(path);
            let read = read_file(p, r, path, identity)->Ask_1;
            assert forall|b: Answer| #[trigger] fits(more, b) implies has_causes(
                read(b),
                p,
                path,
                if is_bad(more, b) {
                    bad.insert((more, b))
                } else {
                    bad
                },
            ) by {
                if is_bad(more, b) {
                    assert(bad.insert((more, b)).contains(
                        (Ask::ReadData(path), Answer::Data(Err(b->Data_0->Err_0))),
                    ));
                } else {
                    let lock = read(b)->Open_0;
                    let data = read(b)->Open_1;
                    let next = read(b)->Open_2;
                    assert forall|out| #[trigger] may_open(lock, data, out) implies has_causes(
                        next(out),
                        p,
                        path,
                        bad,
                    ) by {
                        lemma_opened(p, r, path, out, bad);
                    }
                }
            }
        }
    }
}

proof fn lemma_opened(
    p: Places,
    r: Reading,
    file: Seq<u8>,
    out: Result<Seq<u8>, (DecryptStep, Seq<char>)>,
    bad: Unmet,
)
    requires
        is_clean(bad),
    ensures
        has_causes(file_opened(p, r, out), p, file, bad),
{
    if let Ok(data) = out {
        let text = vstd::utf8::decode_utf8(data);
        match r {
            Reading::Cat => lemma_say(seq![(Stream::Output, text)], None, p, file, bad),
            Reading::Verify => {},
            Reading::Load(g) => lemma_loaded(p, g, crate::format::parsed(text), file, bad),
        }
    }
}

proof fn lemma_loaded(
    p: Places,
    g: Goal,
    m: Map<Seq<char>, Seq<char>>,
    file: Seq<u8>,
    bad: Unmet,
)
    requires
        is_clean(bad),
    ensures
        has_causes(loaded(p, g, m), p, file, bad),
{
    let plan = loaded(p, g, m);
    match g {
        Goal::Edit => {
            let content = serialized(listing(m));
            lemma_edit_begin(p, content, file, bad);
        },
        Goal::Add(name, value) => {
            let notes = add_note(m, name);
            lemma_save(p, text_with(m, name, value), notes, None, file, bad);
        },
        Goal::Remove(name) => {
            if m.contains_key(name) {
                let notes = seq![notice("✓ Removed '"@ + name + "'"@)];
                lemma_save(p, text_without(m, name), notes, None, file, bad);
            }
        },
        _ => {
            if let Plan::Ask(Ask::Say(notes), _) = plan {
                lemma_say(notes, None, p, file, bad);
            }
        },
    }
}

pub(crate) proof fn lemma_load(p: Places, g: Goal, bad: Unmet)
    requires
        is_clean(bad),
    ensures
        has_causes(load(p, g), p, p.store, bad),
{
    let then = load(p, g)->Ask_1;
    assert forall|a: Answer| #[trigger] fits(Ask::Exists(p.store), a) implies has_causes(
        then(a),
        p,
        p.store,
        bad,
    ) by {
        lemma_open(p, Reading::Load(g), p.store, bad);
        lemma_loaded(p, g, Map::empty(), p.store, bad);
    }
}

proof fn lemma_edit_begin(p: Places, content: Seq<char>, file: Seq<u8>, bad: Unmet)
    requires
        is_clean(bad),
    ensures
        has_causes(edit_begin(p, content), p, file, bad),
{
    let ask = edit_begin(p, content)->Ask_0;
    let known = edit_begin(p, content)->Ask_1;
    assert(has_causes(edit_temp(p, content), p, file, bad)) by {
        let then = edit_temp(p, content)->Ask_1;
        assert forall|a: Answer| #[trigger] fits(Ask::TempDir, a) implies has_causes(
            then(a),
            p,
            file,
            bad,
        ) by {
            lemma_edit_in(p, content, a->Path_0, file, bad);
        }
    }
    assert forall|a: Answer| #[trigger] fits(ask, a) implies has_causes(
        known(a),
        p,
        file,
        bad,
    ) by {
        if let Some(dir) = a->Maybe_0 {
            let looked = edit_look(p, content, dir)->Ask_1;
            assert forall|b: Answer| #[trigger] fits(Ask::IsDir(dir), b) implies has_causes(
                looked(b),
                p,
                file,
                bad,
            ) by {
                lemma_edit_in(p, content, dir, file, bad);
            }
        }
    }
}

proof fn lemma_edit_in(
    p: Places,
    content: Seq<char>,
    base: Seq<u8>,
    file: Seq<u8>,
    bad: Unmet,
)
    requires
        is_clean(bad),
    ensures
        has_causes(edit_in(p, content, base), p, file, bad),
{
    let then = edit_in(p, content, base)->Ask_1;
    assert forall|a: Answer| #[trigger] fits(Ask::ProcessId, a) implies has_causes(
        then(a),
        p,
        file,
        bad,
    ) by {
        let temp = edit_path(base, a->Number_0);
        let ask = edit_write(p, content, temp)->Ask_0;
        let wrote = edit_write(p, content, temp)->Ask_1;
        assert forall|b: Answer| #[trigger] fits(ask, b) implies has_causes(
            wrote(b),
            p,
            file,
            if is_bad(ask, b) {
                bad.insert((ask, b))
            } else {
                bad
            },
        ) by {
            if is_bad(ask, b) {
                let now = bad.insert((ask, b));
                let f = write_fault(temp, b->Written_0->Err_0);
                lemma_unwritten(temp, ask->WritePrivate_1, b, now);
                lemma_finish(Some(temp), Err(f), p, file, now);
            } else {
                lemma_edit_editor(p, content, base, a->Number_0, file, bad);
            }
        }
    }
}

proof fn lemma_edit_editor(
    p: Places,
    content: Seq<char>,
    base: Seq<u8>,
    process: u32,
    file: Seq<u8>,
    bad: Unmet,
)
    requires
        is_clean(bad),
    ensures
        has_causes(edit_editor(p, content, edit_path(base, process)), p, file, bad),
{
    let temp = edit_path(base, process);
    let ask = edit_editor(p, content, temp)->Ask_0;
    let editor = edit_editor(p, content, temp)->Ask_1;
    assert(has_causes(edit_visual(p, content, temp), p, file, bad)) by {
        let more = edit_visual(p, content, temp)->Ask_0;
        let visual = edit_visual(p, content, temp)->Ask_1;
        assert forall|b: Answer| #[trigger] fits(more, b) implies has_causes(
            visual(b),
            p,
            file,
            bad,
        ) by {
            lemma_edit_run(p, content, base, process, b->Text_0->Ok_0, file, bad);
            lemma_edit_run(p, content, base, process, "vi"@, file, bad);
        }
    }
    assert forall|a: Answer| #[trigger] fits(ask, a) implies has_causes(
        editor(a),
        p,
        file,
        bad,
    ) by {
        lemma_edit_run(p, content, base, process, a->Text_0->Ok_0, file, bad);
    }
}

proof fn lemma_edit_run(
    p: Places,
    content: Seq<char>,
    base: Seq<u8>,
    process: u32,
    editor: Seq<char>,
    file: Seq<u8>,
    bad: Unmet,
)
    requires
        is_clean(bad),
    ensures
        has_causes(edit_run(p, content, edit_path(base, process), editor), p, file, bad),
{
    let temp = edit_path(base, process);
    let ask = edit_run(p, content, temp, editor)->Ask_0;
    let ran = edit_run(p, content, temp, editor)->Ask_1;
    assert forall|a: Answer| #[trigger] fits(ask, a) implies has_causes(
        ran(a),
        p,
        file,
        if is_bad(ask, a) {
            bad.insert((ask, a))
        } else {
            bad
        },
    ) by {
        if is_bad(ask, a) {
            let now = bad.insert((ask, a));
            assert(now.contains((ask, Answer::Ran(a->Ran_0))));
            assert(is_run(editor, temp, a->Ran_0, now));
            if let Err((at, words)) = a->Ran_0 {
                assert(is_run(editor, temp, Err((at, words)), now));
            }
            let r = match a->Ran_0 {
                Ok(_) => fault(
                    ErrorKind::EditorFailed,
                    "Editor exited with non-zero status"@,
                ),
                Err((_, words)) => caused(
                    ErrorKind::EditorNotStarted,
                    "Failed to launch editor: "@ + editor,
                    words,
                ),
            };
            lemma_finish(Some(temp), Err(r), p, file, now);
        } else {
            lemma_edit_fetch(p, content, base, process, file, bad);
        }
    }
}

proof fn lemma_edit_fetch(
    p: Places,
    content: Seq<char>,
    base: Seq<u8>,
    process: u32,
    file: Seq<u8>,
    bad: Unmet,
)
    requires
        is_clean(bad),
    ensures
        has_causes(edit_fetch(p, content, edit_path(base, process)), p, file, bad),
{
    let temp = edit_path(base, process);
    let ask = Ask::ReadText(temp);
    let then = edit_fetch(p, content, temp)->Ask_1;
    assert forall|a: Answer| #[trigger] fits(ask, a) implies has_causes(
        then(a),
        p,
        file,
        if is_bad(ask, a) {
            bad.insert((ask, a))
        } else {
            bad
        },
    ) by {
        match a->Text_0 {
            Ok(edited) => {
                let plan = edit_compare(p, content, temp, edited);
                let save = edit_save(p, edited, temp);
                let notes = seq![
                    notice(
                        "✓ Store updated ("@ + decimal(
                            crate::format::parsed(edited).len(),
                        ) + " secrets)"@,
                    ),
                ];
                lemma_save(p, edited_text(edited), notes, Some(temp), file, bad);
                assert(has_causes(save, p, file, bad));
                if let Plan::Ask(Ask::Say(lines), _) = plan {
                    lemma_say(lines, Some(temp), p, file, bad);
                    let warned = edit_warn(p, edited, temp)->Ask_1;
                    assert forall|b: Answer| #[trigger] fits(Ask::Say(lines), b) implies has_causes(
                        warned(b),
                        p,
                        file,
                        bad,
                    ) by {
                        assert(warned(b) == save);
                    }
                }
            },
            Err(e) => {
                let now = bad.insert((ask, a));
                assert(now.contains((ask, Answer::Text(Err(e)))));
                assert(is_unfetched(base, process, e, now));
                let f = fault(ErrorKind::EditNotRead, e);
                lemma_finish(Some(temp), Err(f), p, file, now);
            },
        }
    }
}

proof fn lemma_make_dir(p: Places, work: Work, file: Seq<u8>, bad: Unmet)
    requires
        is_clean(bad),
    ensures
        has_causes(make_dir(p, work), p, file, bad),
{
    let looked = make_dir(p, work)->Ask_1;
    lemma_dir_ready(p, work, file, bad);
    assert forall|a: Answer| #[trigger] fits(Ask::Exists(p.dir), a) implies has_causes(
        looked(a),
        p,
        file,
        bad,
    ) by {
        let ask = Ask::CreateDir(p.dir);
        let made = create_dir(p, work)->Ask_1;
        assert forall|b: Answer| #[trigger] fits(ask, b) implies has_causes(
            made(b),
            p,
            file,
            if is_bad(ask, b) {
                bad.insert((ask, b))
            } else {
                bad
            },
        ) by {
            if is_bad(ask, b) {
                assert(bad.insert((ask, b)).contains(
                    (Ask::CreateDir(p.dir), Answer::Done(Err(b->Done_0->Err_0))),
                ));
            }
        }
        assert(has_causes(create_dir(p, work), p, file, bad));
    }
}

proof fn lemma_dir_ready(p: Places, work: Work, file: Seq<u8>, bad: Unmet)
    requires
        is_clean(bad),
    ensures
        has_causes(dir_ready(p, work), p, file, bad),
{
    match work {
        Work::Init => {
            let made = dir_ready(p, work)->Generate_0;
            assert forall|identity: Seq<char>| #[trigger] is_key_pair(identity) implies has_causes(
                made(identity),
                p,
                file,
                bad,
            ) by {
                lemma_write_key(p, key_file(identity), Some(identity), file, bad);
            }
        },
        Work::Install(text) => lemma_write_key(p, text, None, file, bad),
        Work::Nothing => {},
    }
}

proof fn lemma_write_key(
    p: Places,
    text: Seq<char>,
    identity: Option<Seq<char>>,
    file: Seq<u8>,
    bad: Unmet,
)
    requires
        is_clean(bad),
    ensures
        has_causes(write_key(p, text, identity), p, file, bad),
{
    let ask = write_key(p, text, identity)->Ask_0;
    let wrote = write_key(p, text, identity)->Ask_1;
    assert forall|a: Answer| #[trigger] fits(ask, a) implies has_causes(
        wrote(a),
        p,
        file,
        if is_bad(ask, a) {
            bad.insert((ask, a))
        } else {
            bad
        },
    ) by {
        if is_bad(ask, a) {
            lemma_unwritten(p.key, ask->WritePrivate_1, a, bad.insert((ask, a)));
        } else if let Some(id) = identity {
            let notes = init_notes(p, id);
            lemma_save(p, empty_text(), notes, None, file, bad);
        }
    }
}

/// The file that a command reads besides the key.
pub open spec fn file_read(p: Places, c: Command) -> Seq<u8> {
    match c {
        Command::Verify(path) => path,
        _ => p.store,
    }
}

/// No command fails without a cause: it says that something could not be read,
/// written, renamed, made or run only where it asked for just that and it was
/// not done. What it works on, and how long that is, is no cause. And no failure
/// is passed over: where anything that it asked for was not done, it fails, but
/// for a file that was not removed.
pub proof fn law_failures_have_causes(p: Places, c: Command)
    ensures
        has_causes(begin(p, c), p, file_read(p, c), Set::empty()),
{
    let none = Unmet::empty();
    let file = file_read(p, c);
    let then = begin(p, c)->Ask_1;
    match c {
        Command::Env => {
            lemma_load(p, Goal::Env, none);
            assert forall|a: Answer| #[trigger] fits(Ask::Exists(p.store), a) implies has_causes(
                then(a),
                p,
                file,
                none,
            ) by {}
        },
        Command::Verify(path) => lemma_open(p, Reading::Verify, path, none),
        Command::Export(passphrase) => {
            let ask = Ask::ReadData(p.key);
            assert forall|a: Answer| #[trigger] fits(ask, a) implies has_causes(
                then(a),
                p,
                file,
                if is_bad(ask, a) {
                    none.insert((ask, a))
                } else {
                    none
                },
            ) by {
                match a->Data_0 {
                    Ok(data) => {
                        let lock = then(a)->Seal_0;
                        let next = then(a)->Seal_2;
                        assert forall|out| #[trigger] may_seal(lock, data, out) implies has_causes(
                            next(out),
                            p,
                            file,
                            none,
                        ) by {}
                    },
                    Err(e) => {
                        assert(none.insert((ask, a)).contains((ask, Answer::Data(Err(e)))));
                    },
                }
            }
        },
        Command::EnsureDir => lemma_make_dir(p, Work::Nothing, file, none),
        _ => {
            assert forall|a: Answer| #[trigger] fits(Ask::Exists(p.key), a) implies has_causes(
                then(a),
                p,
                file,
                none,
            ) by {
                lemma_key_looked_up(p, c, a->Told_0);
            }
        },
    }
}

proof fn lemma_key_looked_up(p: Places, c: Command, there: bool)
    requires
        c !is Env && c !is Verify && c !is Export && c !is EnsureDir,
    ensures
        has_causes(key_looked_up(p, c, there), p, p.store, Set::empty()),
{
    let none = Unmet::empty();
    match c {
        Command::Init => lemma_make_dir(p, Work::Init, p.store, none),
        Command::Import(file, passphrase) => {
            if !there {
                let lock = key_looked_up(p, c, there)->Open_0;
                let next = key_looked_up(p, c, there)->Open_2;
                assert forall|out| #[trigger] may_open(lock, file, out) implies has_causes(
                    next(out),
                    p,
                    p.store,
                    none,
                ) by {
                    law_import_failures_have_causes(p, out);
                }
            }
        },
        Command::Edit => lemma_load(p, Goal::Edit, none),
        Command::Get(name) => lemma_load(p, Goal::Get(name), none),
        Command::List => lemma_load(p, Goal::List, none),
        Command::Remove(name) => lemma_load(p, Goal::Remove(name), none),
        Command::Cat => lemma_open(p, Reading::Cat, p.store, none),
        Command::Add(name, value) => {
            match value {
                Some(v) => lemma_load(p, Goal::Add(name, v), none),
                None => {
                    let ask = ask_value(p, name)->Ask_0;
                    let then = ask_value(p, name)->Ask_1;
                    assert forall|a: Answer| #[trigger] fits(ask, a) implies has_causes(
                        then(a),
                        p,
                        p.store,
                        if is_bad(ask, a) {
                            none.insert((ask, a))
                        } else {
                            none
                        },
                    ) by {
                        if is_bad(ask, a) {
                            assert(none.insert((ask, a)).contains(
                                (
                                    Ask::Password(ask->Password_0),
                                    Answer::Text(Err(a->Text_0->Err_0)),
                                ),
                            ));
                        } else {
                            lemma_load(p, Goal::Add(name, a->Text_0->Ok_0), none);
                        }
                    }
                },
            }
        },
        _ => {},
    }
}

/// What is done with a file that was decrypted does not fail without a cause, or
/// pass a failure over.
pub proof fn law_reading_failures_have_causes(
    p: Places,
    r: Reading,
    file: Seq<u8>,
    out: Result<Seq<u8>, (DecryptStep, Seq<char>)>,
)
    ensures
        has_causes(file_opened(p, r, out), p, file, Set::empty()),
{
    lemma_opened(p, r, file, out, Set::empty());
}

/// What is done with a key backup that was decrypted does not fail without a
/// cause, or pass a failure over.
pub proof fn law_import_failures_have_causes(
    p: Places,
    out: Result<Seq<u8>, (DecryptStep, Seq<char>)>,
)
    ensures
        has_causes(import_opened(p, out), p, p.store, Set::empty()),
{
    if let Ok(data) = out {
        let text = vstd::utf8::decode_utf8(data);
        lemma_make_dir(p, Work::Install(text), p.store, Set::empty());
    }
}

// Remotes.

proof fn lemma_remotes_loaded(path: Seq<u8>, intent: Intent, all: Seq<Site>, p: Places)
    ensures
        has_causes(remotes_loaded(path, intent, all), p, path, Set::empty()),
{
    match intent {
        Intent::Add(site) => law_save_failures_have_causes(path, all.push(site), p),
        Intent::Remove(name) => law_save_failures_have_causes(path, without(all, name), p),
        _ => {},
    }
}

/// No saving of a configuration fails without a cause, or passes a failure over.
pub proof fn law_save_failures_have_causes(path: Seq<u8>, all: Seq<Site>, p: Places)
    ensures
        has_causes(save_remotes(path, all), p, path, Set::empty()),
{
    let none = Unmet::empty();
    let ask = Ask::FormatRemotes(all);
    let formed = save_remotes(path, all)->Ask_1;
    assert forall|a: Answer| #[trigger] fits(ask, a) implies has_causes(
        formed(a),
        p,
        path,
        if is_bad(ask, a) {
            none.insert((ask, a))
        } else {
            none
        },
    ) by {
        if is_bad(ask, a) {
            assert(none.insert((ask, a)).contains(
                (Ask::FormatRemotes(all), Answer::Text(Err(a->Text_0->Err_0))),
            ));
        } else {
            let text = a->Text_0->Ok_0;
            let write = Ask::WriteText(path, text);
            let wrote = write_remotes(path, text)->Ask_1;
            assert forall|b: Answer| #[trigger] fits(write, b) implies has_causes(
                wrote(b),
                p,
                path,
                if is_bad(write, b) {
                    none.insert((write, b))
                } else {
                    none
                },
            ) by {
                if is_bad(write, b) {
                    assert(none.insert((write, b)).contains(
                        (Ask::WriteText(path, text), Answer::Done(Err(b->Done_0->Err_0))),
                    ));
                } else {
                    let close = Ask::MakePrivate(path);
                    let made = protect(path)->Ask_1;
                    assert forall|c: Answer| #[trigger] fits(close, c) implies has_causes(
                        made(c),
                        p,
                        path,
                        if is_bad(close, c) {
                            none.insert((close, c))
                        } else {
                            none
                        },
                    ) by {
                        if is_bad(close, c) {
                            assert(none.insert((close, c)).contains(
                                (Ask::MakePrivate(path), Answer::Done(Err(c->Done_0->Err_0))),
                            ));
                        }
                    }
                }
            }
        }
    }
}

/// No work on the configured remotes fails without a cause, or passes a failure
/// over.
pub proof fn law_remote_failures_have_causes(path: Seq<u8>, intent: Intent, p: Places)
    ensures
        has_causes(load_remotes(path, intent), p, path, Set::empty()),
        intent matches Intent::Add(site) ==> has_causes(
            add_remote(path, site),
            p,
            path,
            Set::empty(),
        ),
{
    let none = Unmet::empty();
    let looked = load_remotes(path, intent)->Ask_1;
    assert forall|a: Answer| #[trigger] fits(Ask::Exists(path), a) implies has_causes(
        looked(a),
        p,
        path,
        none,
    ) by {
        lemma_remotes_loaded(path, intent, Seq::empty(), p);
        let ask = Ask::ReadText(path);
        let read = read_remotes(path, intent)->Ask_1;
        assert forall|b: Answer| #[trigger] fits(ask, b) implies has_causes(
            read(b),
            p,
            path,
            if is_bad(ask, b) {
                none.insert((ask, b))
            } else {
                none
            },
        ) by {
            if let Err(e) = b->Text_0 {
                assert(none.insert((ask, b)).contains(
                    (Ask::ReadText(path), Answer::Text(Err(e))),
                ));
            }
            if let Ok(text) = b->Text_0 {
                let more = Ask::ParseRemotes(text);
                let parsed = parse_remotes(path, intent, text)->Ask_1;
                assert forall|c: Answer| #[trigger] fits(more, c) implies has_causes(
                    parsed(c),
                    p,
                    path,
                    if is_bad(more, c) {
                        none.insert((more, c))
                    } else {
                        none
                    },
                ) by {
                    if is_bad(more, c) {
                        assert(none.insert((more, c)).contains(
                            (Ask::ParseRemotes(text), Answer::Remotes(Err(c->Remotes_0->Err_0))),
                        ));
                    } else {
                        lemma_remotes_loaded(path, intent, c->Remotes_0->Ok_0, p);
                    }
                }
            }
        }
        assert(has_causes(read_remotes(path, intent), p, path, none));
    }
}

/// No push fails without a cause, or passes a failure over.
pub proof fn law_push_failures_have_causes(
    site: Site,
    store: Seq<u8>,
    key: Option<Seq<u8>>,
    p: Places,
)
    ensures
        has_causes(push_course(site, store, key), p, store, Set::empty()),
{
    let none = Unmet::empty();
    let looked = push_look(site, store, key)->Ask_1;
    assert forall|a: Answer| #[trigger] fits(Ask::Exists(store), a) implies has_causes(
        looked(a),
        p,
        store,
        none,
    ) by {
        let ask = push_dir(site, store, key)->Ask_0;
        let made = push_dir(site, store, key)->Ask_1;
        assert forall|b: Answer| #[trigger] fits(ask, b) implies has_causes(
            made(b),
            p,
            store,
            if is_bad(ask, b) {
                none.insert((ask, b))
            } else {
                none
            },
        ) by {
            if is_bad(ask, b) {
                lemma_uncalled(ask, b, none);
            } else {
                lemma_push_read(site, store, key, p);
            }
        }
        assert(has_causes(push_dir(site, store, key), p, store, none));
    }
}

proof fn lemma_push_read(site: Site, store: Seq<u8>, key: Option<Seq<u8>>, p: Places)
    ensures
        has_causes(push_read(site, store, key), p, store, Set::empty()),
{
    let none = Unmet::empty();
    let read = push_read(site, store, key)->Ask_1;
    let look = Ask::ReadData(store);
    assert forall|a: Answer| #[trigger] fits(look, a) implies has_causes(
        read(a),
        p,
        store,
        if is_bad(look, a) {
            none.insert((look, a))
        } else {
            none
        },
    ) by {
        if let Err(e) = a->Data_0 {
            assert(none.insert((look, a)).contains(
                (Ask::ReadData(store), Answer::Data(Err(e))),
            ));
        }
        if let Ok(data) = a->Data_0 {
            let ask = push_store(site, data, key)->Ask_0;
            let put = push_store(site, data, key)->Ask_1;
            assert forall|b: Answer| #[trigger] fits(ask, b) implies has_causes(
                put(b),
                p,
                store,
                if is_bad(ask, b) {
                    none.insert((ask, b))
                } else {
                    none
                },
            ) by {
                if is_bad(ask, b) {
                    lemma_uncalled(ask, b, none);
                } else {
                    lemma_push_told(site, store, key, p);
                }
            }
        }
    }
}

proof fn lemma_push_told(site: Site, store: Seq<u8>, key: Option<Seq<u8>>, p: Places)
    ensures
        has_causes(push_told(site, key), p, store, Set::empty()),
{
    let none = Unmet::empty();
    let say = push_told(site, key)->Ask_0;
    let told = push_told(site, key)->Ask_1;
    assert forall|a: Answer| #[trigger] fits(say, a) implies has_causes(
        told(a),
        p,
        store,
        none,
    ) by {
        if let Some(file) = key {
            let ask = push_key(site, file)->Ask_0;
            let put = push_key(site, file)->Ask_1;
            assert forall|b: Answer| #[trigger] fits(ask, b) implies has_causes(
                put(b),
                p,
                store,
                if is_bad(ask, b) {
                    none.insert((ask, b))
                } else {
                    none
                },
            ) by {
                if is_bad(ask, b) {
                    lemma_uncalled(ask, b, none);
                } else {
                    let more = push_key_told(site)->Ask_0;
                    let done = push_key_told(site)->Ask_1;
                    assert forall|c: Answer| #[trigger] fits(more, c) implies has_causes(
                        done(c),
                        p,
                        store,
                        none,
                    ) by {}
                }
            }
        }
    }
}

proof fn lemma_fetch(site: Site, path: Seq<char>, purpose: Use, p: Places, file: Seq<u8>)
    ensures
        has_causes(fetch(site, path, purpose), p, file, Set::empty()),
{
    let none = Unmet::empty();
    let ask = fetch(site, path, purpose)->Ask_0;
    let called = fetch(site, path, purpose)->Ask_1;
    assert forall|a: Answer| #[trigger] fits(ask, a) implies has_causes(
        called(a),
        p,
        file,
        if is_bad(ask, a) {
            none.insert((ask, a))
        } else {
            none
        },
    ) by {
        if is_bad(ask, a) {
            lemma_uncalled(ask, a, none);
        } else if let Use::Keep(temp) = purpose {
            let data = (a->Ran_0->Ok_0).1;
            let write = Ask::WritePrivate(temp, data);
            let wrote = pull_write(temp, data)->Ask_1;
            assert forall|b: Answer| #[trigger] fits(write, b) implies has_causes(
                wrote(b),
                p,
                file,
                if is_bad(write, b) {
                    none.insert((write, b))
                } else {
                    none
                },
            ) by {
                if is_bad(write, b) {
                    lemma_unwritten(temp, data, b, none.insert((write, b)));
                }
            }
        }
    }
}

/// No pull fails without a cause, or passes a failure over.
pub proof fn law_pull_failures_have_causes(site: Site, store: Seq<u8>, p: Places)
    ensures
        has_causes(pull_course(site, store), p, store, Set::empty()),
        has_causes(pull_key_course(site), p, store, Set::empty()),
{
    lemma_fetch(site, site.path, Use::Keep(pull_temp(store)), p, store);
    lemma_fetch(site, backup_path(site.path), Use::Hand, p, store);
}

} // verus!
