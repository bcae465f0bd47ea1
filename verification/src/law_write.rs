//! What holds of the commands that change a vault, whatever the world answers.

use vstd::prelude::*;
use vstd::utf8::encode_utf8;

use crate::command::{
    add_value, ask_value, begin, finish, invalid_name, invalid_value, not_initialized, notice, save,
    save_rename, save_sealed, save_write, say, temp_store, unknown_name, write_fault, Command, Goal,
};
use crate::crypto::{is_age_file, may_seal, opens_to, Locked};
use crate::fault::{caused, ErrorKind, Fault};
use crate::format::{
    is_storable, is_storable_value, law_parsed_is_storable, law_reading_back, pairs_of, parsed,
    serialized,
};
use crate::law_read::{cannot_load, identity_in, lemma_load, lemma_needs_key, secrets_in, text_at};
use crate::path::{lemma_joined_end, shown};
use crate::plan::{Answer, Ask, Plan, Product, Stream};
use crate::secrets::{law_listing, lemma_map_is_finite, listing};
use crate::shell::is_env_key;
use crate::store::{identity_from, places_in, Places};
use crate::text::{decimal, lines};
use crate::world::{
    differ_at, law_weakening, same_at, same_file, spares, step, upholds, Always, Finally, World,
};

verus! {

// The files of a vault lie apart.

pub(crate) proof fn lemma_decimal_end(n: nat)
    ensures
        decimal(n).len() > 0,
        '0' <= decimal(n).last() <= '9',
    decreases n,
{
    if n >= 10 {
        lemma_decimal_end(n / 10);
    }
}

/// The key, the store and the file that takes its place are different files.
pub proof fn law_files_lie_apart(dir: Seq<u8>, process: u32)
    ensures
        places_in(dir).key != places_in(dir).store,
        temp_store(places_in(dir), process) != places_in(dir).key,
        temp_store(places_in(dir), process) != places_in(dir).store,
{
    reveal_strlit("key.txt");
    reveal_strlit("store.env.age");
    lemma_joined_end(dir, "key.txt"@);
    lemma_joined_end(dir, "store.env.age"@);
    let name = "store.env.age.tmp-"@ + decimal(process as nat);
    lemma_decimal_end(process as nat);
    assert(name.last() == decimal(process as nat).last());
    lemma_joined_end(dir, name);
}

// Saving.

/// Whether a file is the store for a text: an age file that the identity of
/// the vault opens, and that holds the text.
pub open spec fn is_store_for(p: Places, w: World, text: Seq<char>, file: Seq<u8>) -> bool {
    &&& identity_in(p, w) matches Some(identity)
    &&& is_age_file(file)
    &&& opens_to(identity, file, encode_utf8(text))
}

/// Whether nothing has changed but the file that is to take the place of the
/// store.
pub open spec fn is_unsaved(p: Places, w: World, v: World) -> bool {
    let temp = temp_store(p, w.process);
    &&& differ_at(w, v, set![temp])
    &&& v.written == w.written || v.written == w.written.push(temp)
    &&& v.shell == w.shell && v.dirs == w.dirs && v.private_dirs == w.private_dirs
}

/// Whether the store has been replaced by one for a text, and nothing else has
/// changed but what was printed.
pub open spec fn is_saved(p: Places, w: World, text: Seq<char>, v: World) -> bool {
    let temp = temp_store(p, w.process);
    exists|file: Seq<u8>| #[trigger]
        is_store_for(p, w, text, file) && v == (World {
            files: w.files.insert(p.store, file).remove(temp),
            private: w.private.insert(p.store).remove(temp),
            said: v.said,
            written: w.written.push(temp),
            ..w
        })
}

/// Whether saving can fail in this way.
pub open spec fn cannot_save(p: Places, w: World, f: Fault) -> bool {
    ||| f.kind == ErrorKind::KeyNotRead
    ||| f.kind == ErrorKind::FileNotWritten
    ||| f.kind == ErrorKind::StoreNotReplaced
    ||| identity_in(p, w) is None && (f.kind == ErrorKind::NoKeyLine || f.kind
        == ErrorKind::InvalidIdentity)
}

pub(crate) proof fn lemma_save(
    p: Places,
    text: Seq<char>,
    notes: Seq<(Stream, Seq<char>)>,
    guard: Option<Seq<u8>>,
    w: World,
    always: Always,
    finally: Finally,
)
    requires
        p == places_in(p.dir),
        forall|v: World| #[trigger] is_unsaved(p, w, v) ==> always(v),
        forall|v: World| #[trigger]
            is_saved(p, w, text, v) && (v.said == w.said || v.said == w.said + notes) ==> always(v),
        forall|f: Fault, v: World|
            #![trigger cannot_save(p, w, f), is_unsaved(p, w, v)]
            cannot_save(p, w, f) && is_unsaved(p, w, v) ==> upholds(
                finish(guard, Err(f)),
                v,
                always,
                finally,
            ),
        forall|v: World| #[trigger]
            is_saved(p, w, text, v) && v.said == w.said + notes ==> upholds(
                finish(guard, Ok(Product::Nothing)),
                v,
                always,
                finally,
            ),
    ensures
        upholds(save(p, text, notes, guard), w, always, finally),
{
    assert(is_unsaved(p, w, w));
    let then = save(p, text, notes, guard)->Ask_1;
    assert forall|a: Answer, v: World| #[trigger]
        step(Ask::ReadText(p.key), w, a, v) implies upholds(
        then(a),
        v,
        always,
        finally,
    ) by {
        match identity_from(p.key, a->Text_0) {
            Ok(identity) => {
                let read = a->Text_0->Ok_0;
                vstd::utf8::encode_utf8_valid_utf8(read);
                vstd::utf8::encode_utf8_decode_utf8(read);
                assert(identity_in(p, w) == Some(identity));
                let lock = Locked::Identity(identity);
                let next = then(a)->Seal_2;
                assert forall|out| #[trigger]
                    may_seal(lock, encode_utf8(text), out) implies upholds(
                    next(out),
                    w,
                    always,
                    finally,
                ) by {
                    lemma_sealed_file(p, text, out->Ok_0, notes, guard, w, always, finally);
                }
            },
            Err(f) => {
                if let Ok(read) = a->Text_0 {
                    vstd::utf8::encode_utf8_valid_utf8(read);
                    vstd::utf8::encode_utf8_decode_utf8(read);
                    assert(identity_in(p, w) is None);
                }
                assert(cannot_save(p, w, f));
            },
        }
    }
}

proof fn lemma_sealed_file(
    p: Places,
    text: Seq<char>,
    file: Seq<u8>,
    notes: Seq<(Stream, Seq<char>)>,
    guard: Option<Seq<u8>>,
    w: World,
    always: Always,
    finally: Finally,
)
    requires
        p == places_in(p.dir),
        is_store_for(p, w, text, file),
        forall|v: World| #[trigger] is_unsaved(p, w, v) ==> always(v),
        forall|v: World| #[trigger]
            is_saved(p, w, text, v) && (v.said == w.said || v.said == w.said + notes) ==> always(v),
        forall|f: Fault, v: World|
            #![trigger cannot_save(p, w, f), is_unsaved(p, w, v)]
            cannot_save(p, w, f) && is_unsaved(p, w, v) ==> upholds(
                finish(guard, Err(f)),
                v,
                always,
                finally,
            ),
        forall|v: World| #[trigger]
            is_saved(p, w, text, v) && v.said == w.said + notes ==> upholds(
                finish(guard, Ok(Product::Nothing)),
                v,
                always,
                finally,
            ),
    ensures
        upholds(save_sealed(p, notes, guard, Ok(file)), w, always, finally),
{
    let temp = temp_store(p, w.process);
    law_files_lie_apart(p.dir, w.process);
    assert(is_unsaved(p, w, w));
    let wrote = save_write(p, file, temp, notes, guard)->Ask_1;
    assert forall|a: Answer, v: World| #[trigger]
        step(Ask::WritePrivate(temp, file), w, a, v) implies upholds(
        wrote(a),
        v,
        always,
        finally,
    ) by {
        assert(is_unsaved(p, w, v));
        match a->Written_0 {
            Ok(_) => {
                let moved = save_rename(p, temp, notes, guard)->Ask_1;
                assert forall|b: Answer, u: World| #[trigger]
                    step(Ask::Rename(temp, p.store), v, b, u) implies upholds(
                    moved(b),
                    u,
                    always,
                    finally,
                ) by {
                    match b->Done_0 {
                        Ok(_) => {
                            assert(u.files =~= w.files.insert(p.store, file).remove(temp));
                            assert(u.private =~= w.private.insert(p.store).remove(temp));
                            assert(is_saved(p, w, text, u));
                            let said = say(notes, guard)->Ask_1;
                            assert forall|c: Answer, x: World| #[trigger]
                                step(Ask::Say(notes), u, c, x) implies upholds(
                                said(c),
                                x,
                                always,
                                finally,
                            ) by {
                                assert(is_saved(p, w, text, x));
                            }
                        },
                        Err(_) => {
                            let f = caused(
                                ErrorKind::StoreNotReplaced,
                                "Cannot write store to "@ + shown(p.store),
                                b->Done_0->Err_0,
                            );
                            assert(cannot_save(p, w, f));
                        },
                    }
                }
            },
            Err(e) => {
                let f = write_fault(temp, e);
                assert(cannot_save(p, w, f));
            },
        }
    }
    let asked = save_sealed(p, notes, guard, Ok(file))->Ask_1;
    assert forall|a: Answer, v: World| #[trigger] step(Ask::ProcessId, w, a, v) implies upholds(
        asked(a),
        v,
        always,
        finally,
    ) by {
        assert(asked(a) == save_write(p, file, temp, notes, guard));
    }
}

/// A store that was saved is found again: the vault has the same identity, and
/// its secrets are those of the text. The store is its owner's alone.
pub proof fn law_saved_is_found(p: Places, w: World, text: Seq<char>, v: World)
    requires
        p == places_in(p.dir),
        is_saved(p, w, text, v),
    ensures
        identity_in(p, v) == identity_in(p, w),
        text_at(p, v, p.store) == Some(text),
        secrets_in(p, v) == Some(parsed(text)),
        v.private.contains(p.store),
        same_at(w, v, p.key),
{
    law_files_lie_apart(p.dir, w.process);
    let temp = temp_store(p, w.process);
    let file = choose|file: Seq<u8>| #[trigger]
        is_store_for(p, w, text, file) && v == (World {
            files: w.files.insert(p.store, file).remove(temp),
            private: w.private.insert(p.store).remove(temp),
            said: v.said,
            written: w.written.push(temp),
            ..w
        });
    assert(v.files[p.store] == file);
    vstd::utf8::encode_utf8_valid_utf8(text);
    vstd::utf8::encode_utf8_decode_utf8(text);
}

/// Saving touches nothing but the store and the file that takes its place.
pub(crate) proof fn lemma_saved_frame(p: Places, w: World, text: Seq<char>, v: World)
    requires
        p == places_in(p.dir),
        is_saved(p, w, text, v),
    ensures
        v.files.contains_key(p.store),
        is_store_for(p, w, text, v.files[p.store]),
        v.private.contains(p.store),
        v == (World {
            files: v.files,
            private: v.private,
            said: v.said,
            written: w.written.push(temp_store(p, w.process)),
            ..w
        }),
        spares(w, v, set![p.store, temp_store(p, w.process)]),
{
    law_files_lie_apart(p.dir, w.process);
    let temp = temp_store(p, w.process);
    let file = choose|file: Seq<u8>| #[trigger]
        is_store_for(p, w, text, file) && v == (World {
            files: w.files.insert(p.store, file).remove(temp),
            private: w.private.insert(p.store).remove(temp),
            said: v.said,
            written: w.written.push(temp),
            ..w
        });
    assert(v.files[p.store] == file);
    assert forall|path: Seq<u8>|
        !set![p.store, temp].contains(path) implies #[trigger] same_file(w, v, path) by {}
}

/// As long as the store is not replaced, the vault is as it was.
pub proof fn law_unsaved_is_as_before(p: Places, w: World, v: World)
    requires
        p == places_in(p.dir),
        is_unsaved(p, w, v),
    ensures
        identity_in(p, v) == identity_in(p, w),
        text_at(p, v, p.store) == text_at(p, w, p.store),
        secrets_in(p, v) == secrets_in(p, w),
        same_at(w, v, p.store),
        same_at(w, v, p.key),
{
    law_files_lie_apart(p.dir, w.process);
    assert(same_at(w, v, p.store));
    assert(same_at(w, v, p.key));
}

/// The text that secrets are saved as holds just these secrets, if the format
/// can hold them.
pub(crate) proof fn lemma_saved_secrets(m: Map<Seq<char>, Seq<char>>)
    requires
        m.dom().finite(),
        is_storable(m),
    ensures
        parsed(serialized(listing(m))) == m,
{
    law_listing(m);
    law_reading_back(listing(m));
}

/// The secrets of a vault are finitely many, and the format can hold them.
pub proof fn law_secrets_are_storable(p: Places, w: World)
    ensures
        secrets_in(p, w) matches Some(m) ==> m.dom().finite() && is_storable(m),
{
    if w.has(p.store) {
        if let Some(text) = text_at(p, w, p.store) {
            law_parsed_is_storable(text);
            lemma_map_is_finite(pairs_of(lines(text)));
        }
    }
}

/// The text of the store with one secret more.
pub open spec fn text_with(
    m: Map<Seq<char>, Seq<char>>,
    name: Seq<char>,
    value: Seq<char>,
) -> Seq<char> {
    serialized(listing(m.insert(name, value)))
}

/// The text of the store with one secret less.
pub open spec fn text_without(m: Map<Seq<char>, Seq<char>>, name: Seq<char>) -> Seq<char> {
    serialized(listing(m.remove(name)))
}

/// Whether the store is whole: the one that was there, or one for a text in
/// its place. Nothing else has changed but the file that takes its place and
/// what was printed.
pub open spec fn keeps_store_whole(p: Places, w: World, text: Option<Seq<char>>) -> Always {
    |v: World|
        {
            ||| is_unsaved(p, w, v)
            ||| text matches Some(t) && is_saved(p, w, t, v)
        }
}

/// What `add` saves.
pub open spec fn add_text(p: Places, name: Seq<char>, value: Seq<char>, w: World) -> Option<
    Seq<char>,
> {
    match secrets_in(p, w) {
        Some(m) => Some(text_with(m, name, value)),
        None => None,
    }
}

/// What `add` says.
pub open spec fn add_note(
    m: Map<Seq<char>, Seq<char>>,
    name: Seq<char>,
) -> Seq<(Stream, Seq<char>)> {
    seq![
        notice(
            (if m.contains_key(name) {
                "✓ Updated '"@
            } else {
                "✓ Added '"@
            }) + name + "'"@,
        ),
    ]
}

/// How `add` ends: the store has been replaced by one with the new secret and
/// a word was said of it, or else the store is as it was. A value that the
/// format cannot hold is refused before anything is touched.
pub open spec fn ends_add(p: Places, name: Seq<char>, value: Seq<char>, w: World) -> Finally {
    |r: Result<Product, Fault>, v: World|
        match r {
            Ok(_) => {
                &&& w.has(p.key) && is_env_key(name) && is_storable_value(value)
                &&& secrets_in(p, w) matches Some(m)
                &&& is_saved(p, w, text_with(m, name, value), v)
                &&& v.said == w.said + add_note(m, name)
            },
            Err(f) => {
                &&& is_unsaved(p, w, v)
                &&& if !w.has(p.key) {
                    f == not_initialized() && v == w
                } else if !is_env_key(name) {
                    f == invalid_name(name) && v == w
                } else if !is_storable_value(value) {
                    f == invalid_value(name) && v == w
                } else {
                    cannot_load(p, w, f) || cannot_save(p, w, f)
                }
            },
        }
}

/// `add` keeps the store whole at every point: it is the old one until it is
/// replaced by one with the new secret. It says so once it is; else it fails,
/// and the store is as it was. It fails only where there is no key, where the
/// name is no shell identifier, where the format cannot hold the value, where
/// the secrets do not load, or where they cannot be saved.
pub proof fn law_add(p: Places, name: Seq<char>, value: Seq<char>, w: World)
    requires
        p == places_in(p.dir),
    ensures
        upholds(
            begin(p, Command::Add(name, Some(value))),
            w,
            keeps_store_whole(p, w, add_text(p, name, value, w)),
            ends_add(p, name, value, w),
        ),
{
    let always = keeps_store_whole(p, w, add_text(p, name, value, w));
    let finally = ends_add(p, name, value, w);
    assert(is_unsaved(p, w, w));
    if w.has(p.key) && is_env_key(name) {
        lemma_add_value(p, name, value, w);
    }
    lemma_needs_key(p, Command::Add(name, Some(value)), w, always, finally);
}

proof fn lemma_add_value(p: Places, name: Seq<char>, value: Seq<char>, w: World)
    requires
        p == places_in(p.dir),
        w.has(p.key),
        is_env_key(name),
    ensures
        upholds(
            add_value(p, name, value),
            w,
            keeps_store_whole(p, w, add_text(p, name, value, w)),
            ends_add(p, name, value, w),
        ),
{
    let always = keeps_store_whole(p, w, add_text(p, name, value, w));
    let finally = ends_add(p, name, value, w);
    assert(is_unsaved(p, w, w));
    if is_storable_value(value) {
        if let Some(m) = secrets_in(p, w) {
            lemma_save(
                p,
                text_with(m, name, value),
                add_note(m, name),
                None,
                w,
                always,
                finally,
            );
        }
        lemma_load(p, Goal::Add(name, value), w, always, finally);
    }
}

/// A value that was typed is added as if it had been given: once the prompt for
/// the value has been answered, the rest of `add` keeps to what `add` keeps to
/// with just this value, and ends as `add` with it does.
pub proof fn law_typed_is_added(p: Places, name: Seq<char>, value: Seq<char>, w: World)
    requires
        p == places_in(p.dir),
        w.has(p.key),
        is_env_key(name),
    ensures
        ask_value(p, name) matches Plan::Ask(ask, then) && ask is Password && upholds(
            then(Answer::Text(Ok(value))),
            w,
            keeps_store_whole(p, w, add_text(p, name, value, w)),
            ends_add(p, name, value, w),
        ),
{
    lemma_add_value(p, name, value, w);
}

/// How `add` ends where the value is asked for: as for some value that was
/// typed, or with a failure to read one.
pub open spec fn ends_ask(p: Places, name: Seq<char>, w: World) -> Finally {
    |r: Result<Product, Fault>, v: World|
        {
            ||| exists|value: Seq<char>| #[trigger] ends_add(p, name, value, w)(r, v)
            ||| r matches Err(f) && v == w && f.kind == ErrorKind::NoPassword
        }
}

/// Whether the store is whole, as it is while some value is added.
pub open spec fn keeps_store_whole_for_any(p: Places, name: Seq<char>, w: World) -> Always {
    |v: World|
        exists|value: Seq<char>| #[trigger]
            keeps_store_whole(p, w, add_text(p, name, value, w))(v)
}

/// `add` without a value asks for one and goes on as if it had been given; it
/// also fails where none can be read, and has then changed nothing.
pub proof fn law_add_asking(p: Places, name: Seq<char>, w: World)
    requires
        p == places_in(p.dir),
    ensures
        upholds(
            begin(p, Command::Add(name, None)),
            w,
            keeps_store_whole_for_any(p, name, w),
            ends_ask(p, name, w),
        ),
{
    let always = keeps_store_whole_for_any(p, name, w);
    let finally = ends_ask(p, name, w);
    assert(is_unsaved(p, w, w));
    assert(keeps_store_whole(p, w, add_text(p, name, Seq::empty(), w))(w));
    assert(always(w));
    if !w.has(p.key) {
        assert(ends_add(p, name, Seq::empty(), w)(Err(not_initialized()), w));
    } else if !is_env_key(name) {
        assert(ends_add(p, name, Seq::empty(), w)(Err(invalid_name(name)), w));
    } else {
        let then = ask_value(p, name)->Ask_1;
        let ask = ask_value(p, name)->Ask_0;
        assert forall|a: Answer, v: World| #[trigger] step(ask, w, a, v) implies upholds(
            then(a),
            v,
            always,
            finally,
        ) by {
            if let Ok(value) = a->Text_0 {
                let just = keeps_store_whole(p, w, add_text(p, name, value, w));
                let ends = ends_add(p, name, value, w);
                law_typed_is_added(p, name, value, w);
                assert forall|u: World| #[trigger] just(u) implies always(u) by {}
                assert forall|r: Result<Product, Fault>, u: World| #[trigger]
                    ends(r, u) && just(u) implies finally(r, u) by {}
                law_weakening(then(a), w, just, ends, always, finally);
            }
        }
    }
    lemma_needs_key(p, Command::Add(name, None), w, always, finally);
}

/// What `remove` saves.
pub open spec fn remove_text(p: Places, name: Seq<char>, w: World) -> Option<Seq<char>> {
    match secrets_in(p, w) {
        Some(m) => Some(text_without(m, name)),
        None => None,
    }
}

/// How `remove` ends: the store has been replaced by one without the secret
/// and a word was said of it, or else the store is as it was.
pub open spec fn ends_remove(p: Places, name: Seq<char>, w: World) -> Finally {
    |r: Result<Product, Fault>, v: World|
        match r {
            Ok(_) => {
                &&& w.has(p.key)
                &&& secrets_in(p, w) matches Some(m)
                &&& m.contains_key(name)
                &&& is_saved(p, w, text_without(m, name), v)
                &&& v.said == w.said + seq![notice("✓ Removed '"@ + name + "'"@)]
            },
            Err(f) => {
                &&& is_unsaved(p, w, v)
                &&& if !w.has(p.key) {
                    f == not_initialized() && v == w
                } else {
                    ||| cannot_load(p, w, f)
                    ||| secrets_in(p, w) matches Some(m) && if m.contains_key(name) {
                        cannot_save(p, w, f)
                    } else {
                        f == unknown_name(name) && v == w
                    }
                }
            },
        }
}

/// `remove` keeps the store whole at every point: it is the old one until it is
/// replaced by one without the secret. It says so once it is; else it fails,
/// and the store is as it was. It fails only where there is no key, where the
/// secrets do not load, where the name has no value, or where the rest cannot
/// be saved.
pub proof fn law_remove(p: Places, name: Seq<char>, w: World)
    requires
        p == places_in(p.dir),
    ensures
        upholds(
            begin(p, Command::Remove(name)),
            w,
            keeps_store_whole(p, w, remove_text(p, name, w)),
            ends_remove(p, name, w),
        ),
{
    let always = keeps_store_whole(p, w, remove_text(p, name, w));
    let finally = ends_remove(p, name, w);
    assert(is_unsaved(p, w, w));
    if w.has(p.key) {
        if let Some(m) = secrets_in(p, w) {
            if m.contains_key(name) {
                lemma_save(
                    p,
                    text_without(m, name),
                    seq![notice("✓ Removed '"@ + name + "'"@)],
                    None,
                    w,
                    always,
                    finally,
                );
            }
        }
        lemma_load(p, Goal::Remove(name), w, always, finally);
    }
    lemma_needs_key(p, Command::Remove(name), w, always, finally);
}

} // verus!
