//! What holds of editing a vault, whatever the world answers.

use vstd::prelude::*;
use vstd::utf8::{decode_utf8, encode_utf8, valid_utf8};

use crate::command::{
    begin, edit_begin, edit_compare, edit_editor, edit_fetch, edit_in, edit_look, edit_path,
    edit_run, edit_save, edit_temp, edit_visual, edit_warn, edit_write, finish, not_initialized,
    notice, say, temp_store, write_fault, Command, Goal,
};
use crate::fault::{caused, fault, ErrorKind, Fault};
use crate::format::{dropped_in, law_parsed_is_storable, pairs_of, parsed, serialized};
use crate::law_read::{cannot_load, identity_in, lemma_load, lemma_needs_key, secrets_in, text_at};
use crate::law_write::{
    cannot_save, is_saved, is_store_for, is_unsaved, law_files_lie_apart, law_saved_is_found,
    law_unsaved_is_as_before, lemma_decimal_end, lemma_save, lemma_saved_frame, lemma_saved_secrets,
};
use crate::path::{joined, lemma_joined_end, shown};
use crate::plan::{Answer, Ask, Plan, Product, Stream, WriteStep};
use crate::secrets::{lemma_map_is_finite, listing};
use crate::shell::single_quoted;
use crate::store::{places_in, Places};
use crate::text::{decimal, lines, trim};
use crate::world::{
    law_weakening, same_at, same_file, spares, step, upholds, Always, Finally, Shell, World,
};

verus! {

/// The file with the plain text is none of the files of the vault.
pub proof fn law_plain_text_lies_apart(dir: Seq<u8>, base: Seq<u8>, process: u32, other: u32)
    ensures
        edit_path(base, process) != places_in(dir).key,
        edit_path(base, process) != places_in(dir).store,
        edit_path(base, process) != temp_store(places_in(dir), other),
{
    reveal_strlit("key.txt");
    reveal_strlit("store.env.age");
    reveal_strlit(".env");
    lemma_joined_end(dir, "key.txt"@);
    lemma_joined_end(dir, "store.env.age"@);
    let temp = "store.env.age.tmp-"@ + decimal(other as nat);
    lemma_decimal_end(other as nat);
    assert(temp.last() == decimal(other as nat).last());
    lemma_joined_end(dir, temp);
    let name = "vault-edit-"@ + decimal(process as nat) + ".env"@;
    assert(name.last() == 'v');
    lemma_joined_end(base, name);
}

/// Whether a path is none of the files of a vault, nor the one that takes the
/// store's place.
pub open spec fn is_apart(p: Places, w: World, path: Seq<u8>) -> bool {
    path != p.key && path != p.store && path != temp_store(p, w.process)
}

/// The text that is saved for a text that was edited.
pub open spec fn edited_text(edited: Seq<char>) -> Seq<char> {
    serialized(listing(parsed(edited)))
}

/// What is said of the lines of an edited text that are not saved.
pub open spec fn edit_warning(edited: Seq<char>) -> Seq<(Stream, Seq<char>)> {
    if dropped_in(lines(edited)) > 0 {
        seq![
            notice(
                "⚠ "@ + decimal(dropped_in(lines(edited)))
                    + " line(s) without KEY=VALUE were ignored and not saved."@,
            ),
        ]
    } else {
        Seq::empty()
    }
}

/// What is said of an edited text that is saved.
pub open spec fn edit_notes(edited: Seq<char>) -> Seq<(Stream, Seq<char>)> {
    edit_warning(edited) + seq![
        notice("✓ Store updated ("@ + decimal(parsed(edited).len()) + " secrets)"@),
    ]
}

/// Whether nothing has changed but the store, the file that takes its place,
/// and the one with the plain text, which may be gone; and the store is whole:
/// the one that was there, or one for a text.
pub open spec fn keeps_edit_whole(p: Places, temp: Seq<u8>, text: Seq<char>, w: World) -> Always {
    |v: World|
        {
            &&& spares(w, v, set![temp, p.store, temp_store(p, w.process)])
            &&& same_file(w, v, p.store) || v.files.contains_key(p.store) && is_store_for(
                p,
                w,
                text,
                v.files[p.store],
            ) && v.private.contains(p.store)
            &&& v.files.contains_key(temp) ==> same_file(w, v, temp)
            &&& v.written == w.written || v.written == w.written.push(temp_store(p, w.process))
            &&& v.shell == w.shell
            &&& v.reach == w.reach && v.process == w.process && v.forms == w.forms
            &&& v.calls == w.calls && v.far == w.far
        }
}

/// Whether the plain text is gone, unless its removal has failed since `w`.
pub open spec fn is_cleaned(temp: Seq<u8>, w: World, v: World) -> bool {
    v.files.contains_key(temp) ==> v.stuck == w.stuck.push(temp)
}

/// How an edit ends once the editor has: a text that was not changed, but for
/// white space at its ends, is not saved; of one that was changed, just the
/// secrets that it holds are those of the vault. Either way the plain text is
/// gone.
pub open spec fn ends_edited(p: Places, content: Seq<char>, temp: Seq<u8>, w: World) -> Finally {
    |r: Result<Product, Fault>, v: World|
        {
            &&& is_cleaned(temp, w, v)
            &&& match r {
                Ok(_) => {
                    let edited = decode_utf8(w.files[temp]);
                    &&& w.files.contains_key(temp) && valid_utf8(w.files[temp])
                    &&& if trim(edited) == trim(content) {
                        &&& same_file(w, v, p.store)
                        &&& v.said == w.said + seq![notice("No changes — store not updated."@)]
                    } else {
                        &&& text_at(p, v, p.store) == Some(edited_text(edited))
                        &&& secrets_in(p, v) == Some(parsed(edited))
                        &&& v.private.contains(p.store)
                        &&& v.said == w.said + edit_notes(edited)
                    }
                },
                Err(f) => {
                    &&& same_file(w, v, p.store)
                    &&& f.kind == ErrorKind::EditNotRead || cannot_save(p, w, f)
                },
            }
        }
}

proof fn lemma_cleaning(
    p: Places,
    temp: Seq<u8>,
    text: Seq<char>,
    w: World,
    x: World,
    result: Result<Product, Fault>,
    always: Always,
    finally: Finally,
)
    requires
        is_apart(p, w, temp),
        always == keeps_edit_whole(p, temp, text, w),
        always(x),
        x.stuck == w.stuck,
        forall|v: World|
            #![trigger finally(result, v)]
            is_cleaned(temp, w, v) && v.said == x.said && (forall|path: Seq<u8>|
                path != temp ==> #[trigger] same_at(x, v, path)) ==> finally(result, v),
    ensures
        upholds(finish(Some(temp), result), x, always, finally),
{
    let then = finish(Some(temp), result)->Ask_1;
    assert forall|a: Answer, v: World| #[trigger] step(Ask::Remove(temp), x, a, v) implies upholds(
        then(a),
        v,
        always,
        finally,
    ) by {
        assert(is_cleaned(temp, w, v));
        assert forall|path: Seq<u8>| path != temp implies #[trigger] same_at(x, v, path) by {}
        assert(same_at(x, v, p.store));
        assert(finally(result, v));
        assert forall|path: Seq<u8>|
            !set![temp, p.store, temp_store(p, w.process)].contains(
                path,
            ) implies #[trigger] same_file(w, v, path) by {
            assert(same_at(x, v, path));
            assert(same_file(w, x, path));
        }
    }
}

proof fn lemma_same_vault(p: Places, x: World, v: World)
    requires
        same_at(x, v, p.key),
        same_at(x, v, p.store),
    ensures
        identity_in(p, v) == identity_in(p, x),
        text_at(p, v, p.store) == text_at(p, x, p.store),
        secrets_in(p, v) == secrets_in(p, x),
{
}

proof fn lemma_edited_secrets(edited: Seq<char>)
    ensures
        parsed(edited_text(edited)) == parsed(edited),
{
    law_parsed_is_storable(edited);
    lemma_map_is_finite(pairs_of(lines(edited)));
    lemma_saved_secrets(parsed(edited));
}

proof fn lemma_edit_save(
    p: Places,
    content: Seq<char>,
    temp: Seq<u8>,
    edited: Seq<char>,
    w: World,
    x: World,
)
    requires
        p == places_in(p.dir),
        is_apart(p, w, temp),
        w.files.contains_key(temp),
        w.files[temp] == encode_utf8(edited),
        trim(edited) != trim(content),
        x == (World { said: w.said + edit_warning(edited), ..w }),
    ensures
        upholds(
            edit_save(p, edited, temp),
            x,
            keeps_edit_whole(p, temp, edited_text(edited), w),
            ends_edited(p, content, temp, w),
        ),
{
    let text = edited_text(edited);
    let always = keeps_edit_whole(p, temp, text, w);
    let finally = ends_edited(p, content, temp, w);
    let notes = seq![notice("✓ Store updated ("@ + decimal(parsed(edited).len()) + " secrets)"@)];
    let ours = set![temp, p.store, temp_store(p, w.process)];
    law_files_lie_apart(p.dir, w.process);
    vstd::utf8::encode_utf8_valid_utf8(edited);
    vstd::utf8::encode_utf8_decode_utf8(edited);
    lemma_edited_secrets(edited);
    assert forall|v: World| #[trigger] is_unsaved(p, x, v) implies always(v) by {
        law_unsaved_is_as_before(p, x, v);
        assert(same_at(x, v, temp));
        assert forall|path: Seq<u8>| !ours.contains(path) implies #[trigger] same_file(
            w,
            v,
            path,
        ) by {
            assert(same_at(x, v, path));
        }
    }
    assert forall|v: World| #[trigger] is_saved(p, x, text, v) implies always(v) by {
        lemma_saved_frame(p, x, text, v);
        assert(is_store_for(p, x, text, v.files[p.store]));
        assert(is_store_for(p, w, text, v.files[p.store]));
        assert forall|path: Seq<u8>| !ours.contains(path) implies #[trigger] same_file(
            w,
            v,
            path,
        ) by {
            assert(same_file(x, v, path));
        }
    }
    assert forall|f: Fault, v: World|
        #![trigger cannot_save(p, x, f), is_unsaved(p, x, v)]
        cannot_save(p, x, f) && is_unsaved(p, x, v) implies upholds(
        finish(Some(temp), Err(f)),
        v,
        always,
        finally,
    ) by {
        law_unsaved_is_as_before(p, x, v);
        assert(cannot_save(p, w, f));
        assert forall|y: World|
            #![trigger finally(Err(f), y)]
            is_cleaned(temp, w, y) && y.said == v.said && (forall|path: Seq<u8>|
                path != temp ==> #[trigger] same_at(v, y, path)) implies finally(Err(f), y) by {
            assert(same_at(v, y, p.store));
        }
        lemma_cleaning(p, temp, text, w, v, Err(f), always, finally);
    }
    assert forall|v: World| #[trigger]
        is_saved(p, x, text, v) && v.said == x.said + notes implies upholds(
        finish(Some(temp), Ok(Product::Nothing)),
        v,
        always,
        finally,
    ) by {
        law_saved_is_found(p, x, text, v);
        let ok = Ok::<Product, Fault>(Product::Nothing);
        assert(v.said =~= w.said + edit_notes(edited));
        assert forall|y: World|
            #![trigger finally(ok, y)]
            is_cleaned(temp, w, y) && y.said == v.said && (forall|path: Seq<u8>|
                path != temp ==> #[trigger] same_at(v, y, path)) implies finally(ok, y) by {
            assert(same_at(v, y, p.store));
            assert(same_at(v, y, p.key));
            lemma_same_vault(p, v, y);
        }
        lemma_cleaning(p, temp, text, w, v, ok, always, finally);
    }
    lemma_save(p, text, notes, Some(temp), x, always, finally);
}

/// Once the editor has ended, an edit touches only the store, the file that
/// takes its place and the plain text, and keeps the store whole at every
/// point. A text that was not changed, but for white space at its ends, is not
/// saved; of one that was, just the secrets that it holds are those of the
/// vault. The plain text is gone at the end, unless its removal failed.
pub proof fn law_edited(p: Places, content: Seq<char>, temp: Seq<u8>, w: World)
    requires
        p == places_in(p.dir),
        is_apart(p, w, temp),
    ensures
        upholds(
            edit_fetch(p, content, temp),
            w,
            keeps_edit_whole(p, temp, edited_text(decode_utf8(w.files[temp])), w),
            ends_edited(p, content, temp, w),
        ),
{
    let always = keeps_edit_whole(p, temp, edited_text(decode_utf8(w.files[temp])), w);
    let finally = ends_edited(p, content, temp, w);
    let text = edited_text(decode_utf8(w.files[temp]));
    assert(spares(w, w, set![temp, p.store, temp_store(p, w.process)]));
    assert(always(w));
    let then = edit_fetch(p, content, temp)->Ask_1;
    assert forall|a: Answer, v: World| #[trigger]
        step(Ask::ReadText(temp), w, a, v) implies upholds(
        then(a),
        v,
        always,
        finally,
    ) by {
        match a->Text_0 {
            Ok(edited) => {
                vstd::utf8::encode_utf8_valid_utf8(edited);
                vstd::utf8::encode_utf8_decode_utf8(edited);
                if trim(edited) == trim(content) {
                    lemma_no_changes(p, content, temp, edited, w);
                } else if dropped_in(lines(edited)) > 0 {
                    let lines = edit_warning(edited);
                    let x = World { said: w.said + lines, ..w };
                    lemma_edit_save(p, content, temp, edited, w, x);
                    let warned = edit_warn(p, edited, temp)->Ask_1;
                    assert forall|b: Answer, u: World| #[trigger]
                        step(Ask::Say(lines), w, b, u) implies upholds(
                        warned(b),
                        u,
                        always,
                        finally,
                    ) by {
                        assert(u == x);
                    }
                } else {
                    assert(w == (World { said: w.said + edit_warning(edited), ..w })) by {
                        assert(w.said + edit_warning(edited) =~= w.said);
                    }
                    lemma_edit_save(p, content, temp, edited, w, w);
                }
            },
            Err(e) => {
                let r = Err::<Product, Fault>(fault(ErrorKind::EditNotRead, e));
                assert forall|y: World|
                    #![trigger finally(r, y)]
                    is_cleaned(temp, w, y) && y.said == w.said && (forall|path: Seq<u8>|
                        path != temp ==> #[trigger] same_at(w, y, path)) implies finally(r, y) by {
                    assert(same_at(w, y, p.store));
                }
                lemma_cleaning(p, temp, text, w, w, r, always, finally);
            },
        }
    }
}

proof fn lemma_no_changes(
    p: Places,
    content: Seq<char>,
    temp: Seq<u8>,
    edited: Seq<char>,
    w: World,
)
    requires
        is_apart(p, w, temp),
        w.files.contains_key(temp),
        w.files[temp] == encode_utf8(edited),
        trim(edited) == trim(content),
    ensures
        upholds(
            edit_compare(p, content, temp, edited),
            w,
            keeps_edit_whole(p, temp, edited_text(edited), w),
            ends_edited(p, content, temp, w),
        ),
{
    let text = edited_text(edited);
    let always = keeps_edit_whole(p, temp, text, w);
    let finally = ends_edited(p, content, temp, w);
    let lines = seq![notice("No changes — store not updated."@)];
    let ok = Ok::<Product, Fault>(Product::Nothing);
    vstd::utf8::encode_utf8_valid_utf8(edited);
    vstd::utf8::encode_utf8_decode_utf8(edited);
    assert(spares(w, w, set![temp, p.store, temp_store(p, w.process)]));
    let then = say(lines, Some(temp))->Ask_1;
    assert forall|a: Answer, v: World| #[trigger] step(Ask::Say(lines), w, a, v) implies upholds(
        then(a),
        v,
        always,
        finally,
    ) by {
        assert(spares(w, v, set![temp, p.store, temp_store(p, w.process)]));
        assert forall|y: World|
            #![trigger finally(ok, y)]
            is_cleaned(temp, w, y) && y.said == v.said && (forall|path: Seq<u8>|
                path != temp ==> #[trigger] same_at(v, y, path)) implies finally(ok, y) by {
            assert(same_at(v, y, p.store));
        }
        lemma_cleaning(p, temp, text, w, v, ok, always, finally);
    }
}

// The whole of an edit.

/// The file that an edit has written the plain text to, once it has: the first
/// one that was to be written.
pub open spec fn plain_text(w: World, v: World) -> Option<Seq<u8>> {
    if w.written.len() < v.written.len() {
        Some(v.written[w.written.len() as int])
    } else {
        None
    }
}

/// The directory that the plain text goes to: the runtime directory, where the
/// environment names one that is there, and else the one for temporary files.
pub open spec fn plain_dir(w: World) -> Seq<u8> {
    if w.env.contains_key("XDG_RUNTIME_DIR"@) && w.dirs.contains(w.env["XDG_RUNTIME_DIR"@]) {
        w.env["XDG_RUNTIME_DIR"@]
    } else {
        w.temp_dir
    }
}

/// The path that the plain text goes to.
pub open spec fn plain_path(w: World) -> Seq<u8> {
    joined(plain_dir(w), "vault-edit-"@ + decimal(w.process as nat) + ".env"@)
}

/// The editor: the one that `EDITOR` names, or else `VISUAL`, or else `vi`.
pub open spec fn editor_of(w: World) -> Seq<char> {
    match w.variable("EDITOR"@) {
        Some(editor) => editor,
        None => match w.variable("VISUAL"@) {
            Some(editor) => editor,
            None => "vi"@,
        },
    }
}

/// Whether a shell was given the plain text of the secrets `m`: the file that
/// its command names holds, byte for byte, the text of a store with these
/// secrets, and the command is that of the editor.
pub open spec fn is_handed(m: Map<Seq<char>, Seq<char>>, w: World, s: Shell) -> bool {
    &&& s.given.contains_key(plain_path(w))
    &&& s.given[plain_path(w)] == encode_utf8(serialized(listing(m)))
    &&& s.command == editor_of(w) + " "@ + single_quoted(shown(plain_path(w)))
}

/// Whether no shell was run, or one that was given the plain text of the
/// secrets.
pub open spec fn only_hands(p: Places, w: World, v: World) -> bool {
    v.shell != w.shell ==> {
        &&& secrets_in(p, w) matches Some(m)
        &&& v.shell matches Some(s)
        &&& is_handed(m, w, s)
    }
}

/// Whether a path is one that an edit may write the plain text to.
pub open spec fn is_plain_path(path: Seq<u8>, process: u32) -> bool {
    exists|base: Seq<u8>| path == #[trigger] edit_path(base, process)
}

/// Whether the files that were to be written since `w` are none, or the plain
/// text, or the plain text and the file that takes the place of the store.
pub open spec fn only_writes(p: Places, w: World, v: World) -> bool {
    match plain_text(w, v) {
        Some(temp) => {
            &&& is_plain_path(temp, w.process)
            &&& temp == plain_path(w)
            &&& v.written == w.written.push(temp) || v.written == w.written.push(temp).push(
                temp_store(p, w.process),
            )
        },
        None => v.written == w.written,
    }
}

/// Whether an edit has changed nothing but the plain text, what the editor may
/// change, the store, and the file that takes its place; the store is whole,
/// and the plain text is its owner's alone, unless the editor changed that.
pub open spec fn is_edit(p: Places, w: World, v: World) -> bool {
    &&& only_writes(p, w, v)
    &&& forall|path: Seq<u8>|
        plain_text(w, v) != Some(path) && path != p.store && path != temp_store(p, w.process)
            && !w.reach.contains(path) ==> #[trigger] same_file(w, v, path)
    &&& same_file(w, v, p.store) || v.files.contains_key(p.store) && v.private.contains(p.store)
        && exists|text: Seq<char>| #[trigger] is_store_for(p, w, text, v.files[p.store])
    &&& plain_text(w, v) matches Some(temp) ==> (v.files.contains_key(temp) && !w.reach.contains(
        temp,
    ) ==> v.private.contains(temp) || same_file(w, v, temp))
    &&& v.reach == w.reach && v.process == w.process && v.forms == w.forms
    &&& v.calls == w.calls && v.far == w.far
}

/// Whether an edit keeps to its files.
pub open spec fn keeps_to_edit(p: Places, w: World) -> Always {
    |v: World| is_edit(p, w, v)
}

/// Whether a failure is one of having a text edited.
pub open spec fn is_edit_fault(f: Fault) -> bool {
    ||| f.kind == ErrorKind::FileNotWritten
    ||| f.kind == ErrorKind::EditorNotStarted
    ||| f.kind == ErrorKind::EditorFailed
    ||| f.kind == ErrorKind::EditNotRead
}

/// How an edit comes out for the store, where `m` are the secrets before it: a
/// text that the editor left as it was, but for white space at its ends, is not
/// saved; of any other, just the secrets that it holds are those of the vault.
pub open spec fn is_edited(p: Places, m: Map<Seq<char>, Seq<char>>, w: World, v: World) -> bool {
    &&& plain_text(w, v) matches Some(temp)
    &&& v.shell matches Some(s)
    &&& is_handed(m, w, s)
    &&& s.left.contains_key(temp) && valid_utf8(s.left[temp])
    &&& {
        let edited = decode_utf8(s.left[temp]);
        if trim(edited) == trim(serialized(listing(m))) {
            &&& same_file(w, v, p.store)
            &&& v.said == w.said + seq![notice("No changes — store not updated."@)]
        } else {
            &&& text_at(p, v, p.store) == Some(edited_text(edited))
            &&& secrets_in(p, v) == Some(parsed(edited))
            &&& v.private.contains(p.store)
            &&& v.said == w.said + edit_notes(edited)
        }
    }
}

/// How `edit` ends: the store is for the text that the editor left, or as it
/// was.
pub open spec fn ends_edit(p: Places, w: World) -> Finally {
    |r: Result<Product, Fault>, v: World|
        match r {
            Ok(_) => {
                &&& w.has(p.key)
                &&& secrets_in(p, w) matches Some(m)
                &&& is_edited(p, m, w, v)
            },
            Err(f) => {
                &&& same_file(w, v, p.store)
                &&& if w.has(p.key) {
                    ||| cannot_load(p, w, f)
                    ||| is_edit_fault(f)
                    ||| cannot_save(p, w, f)
                } else {
                    f == not_initialized()
                }
            },
        }
}

/// Whether no new plain text is left behind, unless its removal failed: the
/// file that it was to be written to is gone, or is what was there before.
pub open spec fn leaves_no_plain_text(w: World) -> Finally {
    |r: Result<Product, Fault>, v: World|
        plain_text(w, v) matches Some(temp) ==> is_cleaned(temp, w, v) || same_file(w, v, temp)
}

/// Whether an editor leaves the files of a vault alone.
pub open spec fn editor_spares(p: Places, w: World) -> bool {
    &&& !w.reach.contains(p.key)
    &&& !w.reach.contains(p.store)
    &&& !w.reach.contains(temp_store(p, w.process))
}

/// With an editor that leaves the files of the vault alone, `edit` changes
/// nothing but what the editor may change, the plain text, the store and the
/// file that takes its place. The store is whole at every point. At the end it
/// is for the text that the editor left, or, where this text has not changed,
/// as it was; it is also as it was where `edit` fails.
pub proof fn law_edit(p: Places, w: World)
    requires
        p == places_in(p.dir),
        editor_spares(p, w),
    ensures
        upholds(begin(p, Command::Edit), w, keeps_to_edit(p, w), ends_edit(p, w)),
{
    let just = keeps_if_spared(p, w);
    let ends = ends_if_spared(p, w);
    let always = keeps_to_edit(p, w);
    let finally = ends_edit(p, w);
    lemma_edit(p, w);
    assert forall|v: World| #[trigger] just(v) implies always(v) by {}
    assert forall|r: Result<Product, Fault>, v: World| #[trigger]
        ends(r, v) && just(v) implies finally(r, v) by {}
    law_weakening(begin(p, Command::Edit), w, just, ends, always, finally);
}

/// Whether every shell that an edit runs is given the plain text.
pub open spec fn keeps_handing(p: Places, w: World) -> Always {
    |v: World| only_hands(p, w, v)
}

/// Whether the editor left the plain text as it was given it.
pub open spec fn is_untouched(w: World, v: World) -> bool {
    v.shell matches Some(s) && s.left.contains_key(plain_path(w)) && s.left[plain_path(w)]
        == s.given[plain_path(w)]
}

/// How `edit` ends where the editor left the plain text as it was given it: the
/// store is as it was, and that is said.
pub open spec fn ends_untouched(p: Places, w: World) -> Finally {
    |r: Result<Product, Fault>, v: World|
        r is Ok && is_untouched(w, v) ==> {
            &&& same_file(w, v, p.store)
            &&& v.said == w.said.push(
                (Stream::Notice, "No changes — store not updated."@ + seq!['\n']),
            )
        }
}

/// The editor is given all of it: whenever `edit` runs a shell, the file that
/// the command names holds, byte for byte, the text of a store with the secrets
/// of the vault, however long it is. So an editor that leaves this file as it
/// was leaves the store as it was, and `edit` says that nothing has changed.
pub proof fn law_editor_is_given_all(p: Places, w: World)
    requires
        p == places_in(p.dir),
    ensures
        upholds(begin(p, Command::Edit), w, keeps_handing(p, w), anyhow_edited()),
        editor_spares(p, w) ==> upholds(
            begin(p, Command::Edit),
            w,
            keeps_handing(p, w),
            ends_untouched(p, w),
        ),
{
    let just = keeps_if_spared(p, w);
    let ends = ends_if_spared(p, w);
    let always = keeps_handing(p, w);
    let anyhow = anyhow_edited();
    lemma_edit(p, w);
    assert forall|v: World| #[trigger] just(v) implies always(v) by {}
    assert forall|r: Result<Product, Fault>, v: World| #[trigger]
        ends(r, v) && just(v) implies anyhow(r, v) by {}
    law_weakening(begin(p, Command::Edit), w, just, ends, always, anyhow);
    if editor_spares(p, w) {
        let finally = ends_untouched(p, w);
        assert forall|r: Result<Product, Fault>, v: World| #[trigger]
            ends(r, v) && just(v) implies finally(r, v) by {
            if r is Ok && is_untouched(w, v) {
                let m = secrets_in(p, w)->Some_0;
                let text = serialized(listing(m));
                vstd::utf8::encode_utf8_valid_utf8(text);
                vstd::utf8::encode_utf8_decode_utf8(text);
                reveal_strlit("\n");
                let words = "No changes — store not updated."@;
                assert("\n"@ =~= seq!['\n']);
                assert(v.said =~= w.said.push(notice(words)));
            }
        }
        law_weakening(begin(p, Command::Edit), w, just, ends, always, finally);
    }
}

/// Whether a shell that could change no file has changed none.
pub open spec fn ends_idle(w: World) -> Finally {
    |r: Result<Product, Fault>, v: World|
        r is Ok && w.reach == Set::<Seq<u8>>::empty() ==> is_untouched(w, v)
}

/// With an editor that can change no file, `edit` finds the plain text as it
/// gave it.
pub proof fn law_idle_shell(p: Places, w: World)
    requires
        p == places_in(p.dir),
        editor_spares(p, w),
    ensures
        upholds(begin(p, Command::Edit), w, keeps_to_edit(p, w), ends_idle(w)),
{
    let just = keeps_if_spared(p, w);
    let ends = ends_if_spared(p, w);
    let always = keeps_to_edit(p, w);
    let finally = ends_idle(w);
    lemma_edit(p, w);
    assert forall|v: World| #[trigger] just(v) implies always(v) by {}
    assert forall|r: Result<Product, Fault>, v: World| #[trigger]
        ends(r, v) && just(v) implies finally(r, v) by {}
    law_weakening(begin(p, Command::Edit), w, just, ends, always, finally);
}

/// However an edit ends.
pub open spec fn anyhow_edited() -> Finally {
    |r: Result<Product, Fault>, v: World| true
}

/// Whatever the editor does and however it ends, `edit` leaves no new plain
/// text behind, unless its removal failed; and it writes the plain text to one
/// file alone.
pub proof fn law_edit_leaves_no_plain_text(p: Places, w: World)
    requires
        p == places_in(p.dir),
    ensures
        upholds(begin(p, Command::Edit), w, keeps_to_files(p, w), leaves_no_plain_text(w)),
{
    let just = keeps_if_spared(p, w);
    let ends = ends_if_spared(p, w);
    let always = keeps_to_files(p, w);
    let finally = leaves_no_plain_text(w);
    lemma_edit(p, w);
    assert forall|v: World| #[trigger] just(v) implies always(v) by {}
    assert forall|r: Result<Product, Fault>, v: World| #[trigger]
        ends(r, v) && just(v) implies finally(r, v) by {}
    law_weakening(begin(p, Command::Edit), w, just, ends, always, finally);
}

/// Whether an edit writes nothing but the plain text and the file that takes
/// the place of the store.
pub open spec fn keeps_to_files(p: Places, w: World) -> Always {
    |v: World| only_writes(p, w, v)
}

spec fn keeps_if_spared(p: Places, w: World) -> Always {
    |v: World|
        {
            &&& only_writes(p, w, v)
            &&& only_hands(p, w, v)
            &&& editor_spares(p, w) ==> is_edit(p, w, v)
        }
}

spec fn ends_if_spared(p: Places, w: World) -> Finally {
    |r: Result<Product, Fault>, v: World|
        {
            &&& leaves_no_plain_text(w)(r, v)
            &&& editor_spares(p, w) ==> ends_edit(p, w)(r, v)
            &&& r is Ok && w.reach == Set::<Seq<u8>>::empty() ==> is_untouched(w, v)
        }
}

proof fn lemma_edit(p: Places, w: World)
    requires
        p == places_in(p.dir),
    ensures
        upholds(begin(p, Command::Edit), w, keeps_if_spared(p, w), ends_if_spared(p, w)),
{
    let always = keeps_if_spared(p, w);
    let finally = ends_if_spared(p, w);
    assert(is_edit(p, w, w));
    assert(always(w));
    if w.has(p.key) {
        if let Some(m) = secrets_in(p, w) {
            lemma_edit_begin(p, m, w);
        }
        lemma_load(p, Goal::Edit, w, always, finally);
    }
    lemma_needs_key(p, Command::Edit, w, always, finally);
}

proof fn lemma_edit_begin(p: Places, m: Map<Seq<char>, Seq<char>>, w: World)
    requires
        p == places_in(p.dir),
        w.has(p.key),
        secrets_in(p, w) == Some(m),
    ensures
        upholds(
            edit_begin(p, serialized(listing(m))),
            w,
            keeps_if_spared(p, w),
            ends_if_spared(p, w),
        ),
{
    let always = keeps_if_spared(p, w);
    let finally = ends_if_spared(p, w);
    let content = serialized(listing(m));
    assert(is_edit(p, w, w));
    assert(always(w));
    let known = edit_begin(p, content)->Ask_1;
    let ask = edit_begin(p, content)->Ask_0;
    assert(plain_dir(w) == w.temp_dir ==> upholds(edit_temp(p, content), w, always, finally)) by {
        let then = edit_temp(p, content)->Ask_1;
        if plain_dir(w) == w.temp_dir {
            assert forall|a: Answer, v: World| #[trigger]
                step(Ask::TempDir, w, a, v) implies upholds(then(a), v, always, finally) by {
                lemma_edit_in(p, m, w);
            }
        }
    }
    assert forall|a: Answer, v: World| #[trigger] step(ask, w, a, v) implies upholds(
        known(a),
        v,
        always,
        finally,
    ) by {
        if let Some(dir) = a->Maybe_0 {
            let looked = edit_look(p, content, dir)->Ask_1;
            assert forall|b: Answer, u: World| #[trigger]
                step(Ask::IsDir(dir), w, b, u) implies upholds(
                looked(b),
                u,
                always,
                finally,
            ) by {
                if w.dirs.contains(dir) {
                    lemma_edit_in(p, m, w);
                }
            }
        }
    }
}

/// Whether the plain text was to be written to a file, and nothing else has
/// changed.
spec fn is_begun(temp: Seq<u8>, w: World, v: World) -> bool {
    &&& v.written == w.written.push(temp)
    &&& v.reach == w.reach && v.process == w.process && v.forms == w.forms
    &&& v.calls == w.calls && v.far == w.far
    &&& forall|path: Seq<u8>| path != temp ==> #[trigger] same_at(w, v, path)
    &&& v.files.contains_key(temp) ==> v.private.contains(temp) || same_file(w, v, temp)
    &&& v.shell == w.shell && v.env == w.env
}

proof fn lemma_begun(p: Places, w: World, v: World)
    requires
        p == places_in(p.dir),
        is_begun(plain_path(w), w, v),
    ensures
        is_edit(p, w, v),
        only_hands(p, w, v),
        plain_text(w, v) == Some(plain_path(w)),
        same_file(w, v, p.store),
        same_file(w, v, p.key),
{
    let temp = plain_path(w);
    assert(temp == edit_path(plain_dir(w), w.process));
    law_plain_text_lies_apart(p.dir, plain_dir(w), w.process, w.process);
    assert(same_at(w, v, p.store));
    assert(same_at(w, v, p.key));
    assert(is_plain_path(temp, w.process));
    assert forall|path: Seq<u8>|
        plain_text(w, v) != Some(path) && path != p.store && path != temp_store(p, w.process)
            && !w.reach.contains(path) implies #[trigger] same_file(w, v, path) by {
        assert(same_at(w, v, path));
    }
}

proof fn lemma_edit_in(p: Places, m: Map<Seq<char>, Seq<char>>, w: World)
    requires
        p == places_in(p.dir),
        w.has(p.key),
        secrets_in(p, w) == Some(m),
    ensures
        upholds(
            edit_in(p, serialized(listing(m)), plain_dir(w)),
            w,
            keeps_if_spared(p, w),
            ends_if_spared(p, w),
        ),
{
    let always = keeps_if_spared(p, w);
    let finally = ends_if_spared(p, w);
    let content = serialized(listing(m));
    let temp = plain_path(w);
    assert(is_edit(p, w, w));
    let ask = Ask::WritePrivate(temp, encode_utf8(content));
    let wrote = edit_write(p, content, temp)->Ask_1;
    assert forall|a: Answer, v: World| #[trigger] step(ask, w, a, v) implies upholds(
        wrote(a),
        v,
        always,
        finally,
    ) by {
        assert(is_begun(temp, w, v)) by {
            assert forall|path: Seq<u8>| path != temp implies #[trigger] same_at(w, v, path) by {}
        }
        lemma_begun(p, w, v);
        match a->Written_0 {
            Ok(_) => {
                lemma_edit_editor(p, m, w, v);
            },
            Err(e) => {
                let r = Err::<Product, Fault>(write_fault(temp, e));
                if e.0 == WriteStep::Write {
                    let cleaned = finish(Some(temp), r)->Ask_1;
                    assert forall|b: Answer, u: World| #[trigger]
                        step(Ask::Remove(temp), v, b, u) implies upholds(
                        cleaned(b),
                        u,
                        always,
                        finally,
                    ) by {
                        assert(is_begun(temp, w, u)) by {
                            assert forall|path: Seq<u8>| path != temp implies #[trigger] same_at(
                                w,
                                u,
                                path,
                            ) by {
                                assert(same_at(w, v, path));
                            }
                        }
                        lemma_begun(p, w, u);
                        assert(is_cleaned(temp, w, u));
                    }
                } else {
                    assert(is_cleaned(temp, w, v) || same_file(w, v, temp));
                }
            },
        }
    }
    let then = edit_in(p, content, plain_dir(w))->Ask_1;
    assert forall|a: Answer, v: World| #[trigger] step(Ask::ProcessId, w, a, v) implies upholds(
        then(a),
        v,
        always,
        finally,
    ) by {
        assert(then(a) == edit_write(p, content, temp));
    }
}

proof fn lemma_edit_editor(
    p: Places,
    m: Map<Seq<char>, Seq<char>>,
    w: World,
    v: World,
)
    requires
        p == places_in(p.dir),
        w.has(p.key),
        secrets_in(p, w) == Some(m),
        is_begun(plain_path(w), w, v),
        v.private.contains(plain_path(w)),
        v.files.contains_key(plain_path(w)),
        v.files[plain_path(w)] == encode_utf8(serialized(listing(m))),
        v.said == w.said && v.stuck == w.stuck,
    ensures
        upholds(
            edit_editor(p, serialized(listing(m)), plain_path(w)),
            v,
            keeps_if_spared(p, w),
            ends_if_spared(p, w),
        ),
{
    let temp = plain_path(w);
    let content = serialized(listing(m));
    let always = keeps_if_spared(p, w);
    let finally = ends_if_spared(p, w);
    lemma_begun(p, w, v);
    assert(always(v));
    let visual = edit_visual(p, content, temp)->Ask_1;
    let ask_visual = edit_visual(p, content, temp)->Ask_0;
    assert forall|b: Answer, y: World| #[trigger]
        step(ask_visual, v, b, y) && v.variable("EDITOR"@) is None implies upholds(
        visual(b),
        y,
        always,
        finally,
    ) by {
        if v.variable("EDITOR"@) is None {
            lemma_edit_run(p, m, w, v);
        }
    }
    let editor = edit_editor(p, content, temp)->Ask_1;
    let ask_editor = edit_editor(p, content, temp)->Ask_0;
    assert forall|a: Answer, x: World| #[trigger] step(ask_editor, v, a, x) implies upholds(
        editor(a),
        x,
        always,
        finally,
    ) by {
        lemma_edit_run(p, m, w, v);
    }
}

/// Whether the editor has ended: the plain text was written, and nothing else
/// has changed but what the editor may change.
spec fn is_left(m: Map<Seq<char>, Seq<char>>, temp: Seq<u8>, w: World, u: World) -> bool {
    &&& u.written == w.written.push(temp)
    &&& u.shell matches Some(s)
    &&& s.left == u.files && is_handed(m, w, s)
    &&& !w.reach.contains(temp) ==> s.left.contains_key(temp) && s.left[temp] == s.given[temp]
    &&& u.said == w.said && u.stuck == w.stuck
    &&& u.reach == w.reach && u.process == w.process && u.forms == w.forms
    &&& u.calls == w.calls && u.far == w.far
    &&& forall|path: Seq<u8>|
        path != temp && !w.reach.contains(path) ==> #[trigger] same_at(w, u, path)
    &&& !w.reach.contains(temp) && u.files.contains_key(temp) ==> u.private.contains(temp)
}

proof fn lemma_edit_run(
    p: Places,
    m: Map<Seq<char>, Seq<char>>,
    w: World,
    v: World,
)
    requires
        p == places_in(p.dir),
        w.has(p.key),
        secrets_in(p, w) == Some(m),
        is_begun(plain_path(w), w, v),
        v.private.contains(plain_path(w)),
        v.files.contains_key(plain_path(w)),
        v.files[plain_path(w)] == encode_utf8(serialized(listing(m))),
        v.said == w.said && v.stuck == w.stuck,
    ensures
        upholds(
            edit_run(p, serialized(listing(m)), plain_path(w), editor_of(w)),
            v,
            keeps_if_spared(p, w),
            ends_if_spared(p, w),
        ),
{
    let temp = plain_path(w);
    let content = serialized(listing(m));
    let always = keeps_if_spared(p, w);
    let finally = ends_if_spared(p, w);
    assert(temp == edit_path(plain_dir(w), w.process));
    law_plain_text_lies_apart(p.dir, plain_dir(w), w.process, w.process);
    lemma_begun(p, w, v);
    assert(always(v));
    let editor = editor_of(w);
    let ran = edit_run(p, content, temp, editor)->Ask_1;
    let ask = edit_run(p, content, temp, editor)->Ask_0;
    assert forall|a: Answer, u: World| #[trigger] step(ask, v, a, u) implies upholds(
        ran(a),
        u,
        always,
        finally,
    ) by {
        assert(is_left(m, temp, w, u)) by {
            assert forall|path: Seq<u8>|
                path != temp && !w.reach.contains(path) implies #[trigger] same_at(w, u, path) by {
                assert(same_at(w, v, path));
                assert(same_at(v, u, path));
            }
            assert(!w.reach.contains(temp) ==> same_at(v, u, temp));
        }
        let edited = edited_text(decode_utf8(u.files[temp]));
        let just = keeps_edit_whole(p, temp, edited, u);
        let fetched = ends_edited(p, content, temp, u);
        assert forall|y: World| #[trigger] just(y) implies always(y) by {
            lemma_after_editor(p, m, edited, w, u, y);
        }
        match ran(a) {
            Plan::Ask(Ask::ReadText(_), _) => {
                law_edited(p, content, temp, u);
                assert forall|r: Result<Product, Fault>, y: World| #[trigger]
                    fetched(r, y) && just(y) implies finally(r, y) by {
                    lemma_after_editor(p, m, edited, w, u, y);
                }
                law_weakening(edit_fetch(p, content, temp), u, just, fetched, always, finally);
            },
            _ => {
                let r = if a->Ran_0 is Ok {
                    Err::<Product, Fault>(
                        fault(
                            ErrorKind::EditorFailed,
                            "Editor exited with non-zero status"@,
                        ),
                    )
                } else {
                    Err::<Product, Fault>(
                        caused(
                            ErrorKind::EditorNotStarted,
                            "Failed to launch editor: "@ + editor,
                            (a->Ran_0->Err_0).1,
                        ),
                    )
                };
                assert(ran(a) == finish(Some(temp), r));
                assert(spares(u, u, set![temp, p.store, temp_store(p, u.process)]));
                assert(just(u));
                let cleaned = |s: Result<Product, Fault>, y: World|
                    {
                        &&& s == r
                        &&& is_cleaned(temp, u, y)
                        &&& y.said == u.said && same_file(u, y, p.store)
                    };
                assert forall|y: World|
                    #![trigger cleaned(r, y)]
                    is_cleaned(temp, u, y) && y.said == u.said && (forall|path: Seq<u8>|
                        path != temp ==> #[trigger] same_at(u, y, path)) implies cleaned(r, y) by {
                    assert(same_at(u, y, p.store));
                }
                lemma_cleaning(p, temp, edited, u, u, r, just, cleaned);
                assert forall|s: Result<Product, Fault>, y: World| #[trigger]
                    cleaned(s, y) && just(y) implies finally(s, y) by {
                    lemma_after_editor(p, m, edited, w, u, y);
                }
                law_weakening(finish(Some(temp), r), u, just, cleaned, always, finally);
            },
        }
    }
}

proof fn lemma_after_editor(
    p: Places,
    m: Map<Seq<char>, Seq<char>>,
    text: Seq<char>,
    w: World,
    u: World,
    y: World,
)
    requires
        p == places_in(p.dir),
        secrets_in(p, w) == Some(m),
        is_left(m, plain_path(w), w, u),
        keeps_edit_whole(p, plain_path(w), text, u)(y),
    ensures
        only_writes(p, w, y),
        only_hands(p, w, y),
        plain_text(w, y) == Some(plain_path(w)),
        y.shell == u.shell,
        editor_spares(p, w) ==> is_edit(p, w, y) && same_file(w, u, p.store) && identity_in(p, u)
            == identity_in(p, w),
{
    let temp = plain_path(w);
    assert(temp == edit_path(plain_dir(w), w.process));
    law_plain_text_lies_apart(p.dir, plain_dir(w), w.process, w.process);
    assert(is_plain_path(temp, w.process));
    if editor_spares(p, w) {
        assert(same_at(w, u, p.store));
        assert(same_at(w, u, p.key));
        assert forall|path: Seq<u8>|
            plain_text(w, y) != Some(path) && path != p.store && path != temp_store(p, w.process)
                && !w.reach.contains(path) implies #[trigger] same_file(w, y, path) by {
            assert(same_at(w, u, path));
            assert(same_file(u, y, path));
        }
        assert(identity_in(p, u) == identity_in(p, w));
        if !same_file(w, y, p.store) {
            assert(is_store_for(p, w, text, y.files[p.store]));
        }
    }
}

} // verus!
