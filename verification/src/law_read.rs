//! What holds of the commands that only read a vault, whatever the world
//! answers.

use vstd::prelude::*;
use vstd::utf8::{decode_utf8, valid_utf8};

use crate::command::{
    begin, env_lines, file_opened, initialized, list_lines, load, loaded, not_initialized,
    open_file, output, read_file, say, text_read, unknown_name, Command, Goal, Reading,
};
use crate::crypto::{held_for_identity, may_open, may_seal, Locked};
use crate::fault::{ErrorKind, Fault};
use crate::format::parsed;
use crate::path::lemma_joined_end;
use crate::plan::{Answer, Ask, Product, Stream};
use crate::secrets::listing;
use crate::store::{identity_from, places_in, Places};
use crate::world::{step, upholds, Always, Finally, World};

verus! {

// What a vault holds.

/// The identity of a vault.
pub open spec fn identity_in(p: Places, w: World) -> Option<Seq<char>> {
    if w.files.contains_key(p.key) && valid_utf8(w.files[p.key]) {
        match identity_from(p.key, Ok(decode_utf8(w.files[p.key]))) {
            Ok(identity) => Some(identity),
            Err(_) => None,
        }
    } else {
        None
    }
}

/// The data that the identity of a vault finds in a file.
pub open spec fn data_at(p: Places, w: World, path: Seq<u8>) -> Option<Seq<u8>> {
    match identity_in(p, w) {
        Some(identity) => if w.files.contains_key(path) {
            match held_for_identity(identity, w.files[path]) {
                Ok(data) => Some(data),
                Err(_) => None,
            }
        } else {
            None
        },
        None => None,
    }
}

/// The text that the identity of a vault finds in a file.
pub open spec fn text_at(p: Places, w: World, path: Seq<u8>) -> Option<Seq<char>> {
    match data_at(p, w, path) {
        Some(data) => if valid_utf8(data) {
            Some(decode_utf8(data))
        } else {
            None
        },
        None => None,
    }
}

/// The secrets of a vault. Where there is no store, there are none.
pub open spec fn secrets_in(p: Places, w: World) -> Option<Map<Seq<char>, Seq<char>>> {
    if !w.has(p.store) {
        Some(Map::empty())
    } else {
        match text_at(p, w, p.store) {
            Some(text) => Some(parsed(text)),
            None => None,
        }
    }
}

/// Whether a failure is one of reading a file.
pub open spec fn is_read_fault(f: Fault) -> bool {
    f.kind == ErrorKind::KeyNotRead || f.kind == ErrorKind::StoreNotRead
}

/// Whether a failure is one of finding no text in a file that was read.
pub open spec fn is_open_fault(f: Fault) -> bool {
    ||| f.kind == ErrorKind::NoKeyLine
    ||| f.kind == ErrorKind::InvalidIdentity
    ||| f.kind == ErrorKind::StoreNotDecrypted
    ||| f.kind == ErrorKind::StoreNotText
}

/// Whether decrypting a file can fail in this way: a file cannot be read, there
/// is no identity in the key file, or the identity does not open the file.
pub open spec fn cannot_decrypt(p: Places, w: World, path: Seq<u8>, f: Fault) -> bool {
    ||| is_read_fault(f)
    ||| identity_in(p, w) is None && (f.kind == ErrorKind::NoKeyLine || f.kind
        == ErrorKind::InvalidIdentity)
    ||| {
        &&& f.kind == ErrorKind::StoreNotDecrypted
        &&& identity_in(p, w) matches Some(identity)
        &&& w.files.contains_key(path)
        &&& held_for_identity(identity, w.files[path]) is Err
    }
}

/// Whether the text in a file can fail to come out in this way.
pub open spec fn cannot_open(p: Places, w: World, path: Seq<u8>, f: Fault) -> bool {
    is_read_fault(f) || is_open_fault(f) && text_at(p, w, path) is None
}

/// Whether the secrets of a vault can fail to load in this way.
pub open spec fn cannot_load(p: Places, w: World, f: Fault) -> bool {
    is_read_fault(f) || is_open_fault(f) && secrets_in(p, w) is None
}

proof fn lemma_open_file(
    p: Places,
    r: Reading,
    path: Seq<u8>,
    w: World,
    always: Always,
    finally: Finally,
)
    requires
        always(w),
        forall|f: Fault| #[trigger] cannot_decrypt(p, w, path, f) ==> finally(Err(f), w),
        data_at(p, w, path) matches Some(data) ==> upholds(
            file_opened(p, r, Ok(data)),
            w,
            always,
            finally,
        ),
    ensures
        upholds(open_file(p, r, path), w, always, finally),
{
    let plan = open_file(p, r, path);
    let then = plan->Ask_1;
    assert forall|a: Answer, v: World| #[trigger]
        step(Ask::ReadText(p.key), w, a, v) implies upholds(
        then(a),
        v,
        always,
        finally,
    ) by {
        match identity_from(p.key, a->Text_0) {
            Ok(identity) => {
                let text = a->Text_0->Ok_0;
                vstd::utf8::encode_utf8_valid_utf8(text);
                vstd::utf8::encode_utf8_decode_utf8(text);
                assert(identity_in(p, w) == Some(identity));
                lemma_read_file(p, r, path, identity, w, always, finally);
            },
            Err(f) => {
                if let Ok(text) = a->Text_0 {
                    vstd::utf8::encode_utf8_valid_utf8(text);
                    vstd::utf8::encode_utf8_decode_utf8(text);
                    assert(identity_in(p, w) is None);
                }
                assert(cannot_decrypt(p, w, path, f));
            },
        }
    }
}

proof fn lemma_read_file(
    p: Places,
    r: Reading,
    path: Seq<u8>,
    identity: Seq<char>,
    w: World,
    always: Always,
    finally: Finally,
)
    requires
        always(w),
        identity_in(p, w) == Some(identity),
        forall|f: Fault| #[trigger] cannot_decrypt(p, w, path, f) ==> finally(Err(f), w),
        data_at(p, w, path) matches Some(data) ==> upholds(
            file_opened(p, r, Ok(data)),
            w,
            always,
            finally,
        ),
    ensures
        upholds(read_file(p, r, path, identity), w, always, finally),
{
    let plan = read_file(p, r, path, identity);
    let then = plan->Ask_1;
    assert forall|a: Answer, v: World| #[trigger]
        step(Ask::ReadData(path), w, a, v) implies upholds(
        then(a),
        v,
        always,
        finally,
    ) by {
        match a->Data_0 {
            Ok(file) => {
                let opening = then(a);
                let next = opening->Open_2;
                assert forall|out| #[trigger]
                    may_open(Locked::Identity(identity), file, out) implies upholds(
                    next(out),
                    w,
                    always,
                    finally,
                ) by {
                    if out is Err {
                        let f = next(out)->End_0->Err_0;
                        assert(cannot_decrypt(p, w, path, f));
                    } else {
                        assert(data_at(p, w, path) == Some(out->Ok_0));
                    }
                }
            },
            Err(_) => {
                let f = then(a)->End_0->Err_0;
                assert(cannot_decrypt(p, w, path, f));
            },
        }
    }
}

proof fn lemma_open_text(
    p: Places,
    r: Reading,
    path: Seq<u8>,
    w: World,
    always: Always,
    finally: Finally,
)
    requires
        r !is Verify,
        always(w),
        forall|f: Fault| #[trigger] cannot_open(p, w, path, f) ==> finally(Err(f), w),
        text_at(p, w, path) matches Some(text) ==> upholds(
            text_read(p, r, text),
            w,
            always,
            finally,
        ),
    ensures
        upholds(open_file(p, r, path), w, always, finally),
{
    assert forall|f: Fault| #[trigger] cannot_decrypt(p, w, path, f) implies finally(Err(f), w) by {
        assert(cannot_open(p, w, path, f));
    }
    if let Some(data) = data_at(p, w, path) {
        if !valid_utf8(data) {
            let f = file_opened(p, r, Ok(data))->End_0->Err_0;
            assert(cannot_open(p, w, path, f));
        }
    }
    lemma_open_file(p, r, path, w, always, finally);
}

pub(crate) proof fn lemma_load(p: Places, g: Goal, w: World, always: Always, finally: Finally)
    requires
        always(w),
        forall|f: Fault| #[trigger] cannot_load(p, w, f) ==> finally(Err(f), w),
        secrets_in(p, w) matches Some(m) ==> upholds(loaded(p, g, m), w, always, finally),
    ensures
        upholds(load(p, g), w, always, finally),
{
    let then = load(p, g)->Ask_1;
    assert forall|a: Answer, v: World| #[trigger]
        step(Ask::Exists(p.store), w, a, v) implies upholds(
        then(a),
        v,
        always,
        finally,
    ) by {
        if w.has(p.store) {
            assert forall|f: Fault| #[trigger] cannot_open(p, w, p.store, f) implies finally(
                Err(f),
                w,
            ) by {
                assert(cannot_load(p, w, f));
            }
            lemma_open_text(p, Reading::Load(g), p.store, w, always, finally);
        }
    }
}

pub(crate) proof fn lemma_say(
    lines: Seq<(Stream, Seq<char>)>,
    w: World,
    always: Always,
    finally: Finally,
)
    requires
        always(w),
        always(World { said: w.said + lines, ..w }),
        finally(Ok(Product::Nothing), World { said: w.said + lines, ..w }),
    ensures
        upholds(say(lines, None), w, always, finally),
{
    let then = say(lines, None)->Ask_1;
    assert forall|a: Answer, v: World| #[trigger] step(Ask::Say(lines), w, a, v) implies upholds(
        then(a),
        v,
        always,
        finally,
    ) by {}
}

/// Whether a command is one that needs a key to be there.
pub(crate) open spec fn needs_key(c: Command) -> bool {
    match c {
        Command::Env
        | Command::Verify(_)
        | Command::Export(_)
        | Command::EnsureDir
        | Command::Init
        | Command::Import(_, _) => false,
        _ => true,
    }
}

pub(crate) proof fn lemma_needs_key(
    p: Places,
    c: Command,
    w: World,
    always: Always,
    finally: Finally,
)
    requires
        needs_key(c),
        always(w),
        !w.has(p.key) ==> finally(Err(not_initialized()), w),
        w.has(p.key) ==> upholds(initialized(p, c), w, always, finally),
    ensures
        upholds(begin(p, c), w, always, finally),
{
    let then = begin(p, c)->Ask_1;
    assert forall|a: Answer, v: World| #[trigger] step(Ask::Exists(p.key), w, a, v) implies upholds(
        then(a),
        v,
        always,
        finally,
    ) by {}
}

// Commands that only read.

/// Whether nothing has changed but what was printed.
pub open spec fn only_says(w: World) -> Always {
    |v: World| v == (World { said: v.said, ..w })
}

/// The world once some lines were printed.
pub open spec fn told(w: World, lines: Seq<(Stream, Seq<char>)>) -> World {
    World { said: w.said + lines, ..w }
}

/// How `get` ends: it prints the value of the name and nothing else; it fails,
/// printing nothing, where there is no key, where the secrets do not load, and
/// where the name has no value.
pub open spec fn ends_get(p: Places, name: Seq<char>, w: World) -> Finally {
    |r: Result<Product, Fault>, v: World|
        match r {
            Ok(_) => {
                &&& w.has(p.key)
                &&& secrets_in(p, w) matches Some(m)
                &&& m.contains_key(name)
                &&& v == told(w, seq![output(m[name])])
            },
            Err(f) => {
                &&& v == w
                &&& if w.has(p.key) {
                    ||| cannot_load(p, w, f)
                    ||| secrets_in(p, w) matches Some(m) && !m.contains_key(name) && f
                        == unknown_name(name)
                } else {
                    f == not_initialized()
                }
            },
        }
}

/// `get` changes nothing. It prints the value of the name and nothing else; or
/// it prints nothing and fails, which it does only where there is no key, where
/// the secrets do not load, or where the name has no value.
pub proof fn law_get(p: Places, name: Seq<char>, w: World)
    ensures
        upholds(begin(p, Command::Get(name)), w, only_says(w), ends_get(p, name, w)),
{
    let always = only_says(w);
    let finally = ends_get(p, name, w);
    if w.has(p.key) {
        if let Some(m) = secrets_in(p, w) {
            if m.contains_key(name) {
                lemma_say(seq![output(m[name])], w, always, finally);
            }
        }
        lemma_load(p, Goal::Get(name), w, always, finally);
    }
    lemma_needs_key(p, Command::Get(name), w, always, finally);
}

/// How `list` ends: it prints the names in ascending order, and no value.
pub open spec fn ends_list(p: Places, w: World) -> Finally {
    |r: Result<Product, Fault>, v: World|
        match r {
            Ok(_) => {
                &&& w.has(p.key)
                &&& secrets_in(p, w) matches Some(m)
                &&& v == told(w, list_lines(listing(m)))
            },
            Err(f) => {
                &&& v == w
                &&& if w.has(p.key) {
                    cannot_load(p, w, f)
                } else {
                    f == not_initialized()
                }
            },
        }
}

/// `list` changes nothing. It prints the names in ascending order; or it prints
/// nothing and fails, which it does only where there is no key or the secrets
/// do not load.
pub proof fn law_list(p: Places, w: World)
    ensures
        upholds(begin(p, Command::List), w, only_says(w), ends_list(p, w)),
{
    let always = only_says(w);
    let finally = ends_list(p, w);
    if w.has(p.key) {
        if let Some(m) = secrets_in(p, w) {
            lemma_say(list_lines(listing(m)), w, always, finally);
        }
        lemma_load(p, Goal::List, w, always, finally);
    }
    lemma_needs_key(p, Command::List, w, always, finally);
}

/// How `env` ends: it prints a line for every secret. Where there is no store
/// it prints nothing, and does not fail.
pub open spec fn ends_env(p: Places, w: World) -> Finally {
    |r: Result<Product, Fault>, v: World|
        match r {
            Ok(_) => if w.has(p.store) {
                secrets_in(p, w) matches Some(m) && v == told(w, env_lines(listing(m)))
            } else {
                v == w
            },
            Err(f) => v == w && w.has(p.store) && cannot_load(p, w, f),
        }
}

/// `env` changes nothing. It prints a line for every secret, and nothing where
/// there is no store; or it prints nothing and fails, which it does only where
/// there is a store and its secrets do not load.
pub proof fn law_env(p: Places, w: World)
    ensures
        upholds(begin(p, Command::Env), w, only_says(w), ends_env(p, w)),
{
    let always = only_says(w);
    let finally = ends_env(p, w);
    let then = begin(p, Command::Env)->Ask_1;
    assert forall|a: Answer, v: World| #[trigger]
        step(Ask::Exists(p.store), w, a, v) implies upholds(
        then(a),
        v,
        always,
        finally,
    ) by {
        if w.has(p.store) {
            if let Some(m) = secrets_in(p, w) {
                lemma_say(env_lines(listing(m)), w, always, finally);
            }
            lemma_load(p, Goal::Env, w, always, finally);
        }
    }
}

/// How `cat` ends: it prints the text of the store as it stands.
pub open spec fn ends_cat(p: Places, w: World) -> Finally {
    |r: Result<Product, Fault>, v: World|
        match r {
            Ok(_) => {
                &&& w.has(p.key)
                &&& text_at(p, w, p.store) matches Some(text)
                &&& v == told(w, seq![(Stream::Output, text)])
            },
            Err(f) => {
                &&& v == w
                &&& if w.has(p.key) {
                    cannot_open(p, w, p.store, f)
                } else {
                    f == not_initialized()
                }
            },
        }
}

/// `cat` changes nothing. It prints the text of the store as it stands; or it
/// prints nothing and fails, which it does only where there is no key or the
/// store does not open.
pub proof fn law_cat(p: Places, w: World)
    ensures
        upholds(begin(p, Command::Cat), w, only_says(w), ends_cat(p, w)),
{
    let always = only_says(w);
    let finally = ends_cat(p, w);
    if w.has(p.key) {
        if let Some(text) = text_at(p, w, p.store) {
            lemma_say(seq![(Stream::Output, text)], w, always, finally);
        }
        lemma_open_text(p, Reading::Cat, p.store, w, always, finally);
    }
    lemma_needs_key(p, Command::Cat, w, always, finally);
}

/// Whether nothing at all has changed.
pub open spec fn stays(w: World) -> Always {
    |v: World| v == w
}

/// How the check of a file ends: it succeeds only where the identity of the
/// vault opens the file, and where it does, only a file that cannot be read
/// makes it fail.
pub open spec fn ends_verify(p: Places, path: Seq<u8>, w: World) -> Finally {
    |r: Result<Product, Fault>, v: World|
        match r {
            Ok(_) => data_at(p, w, path) is Some,
            Err(f) => cannot_decrypt(p, w, path, f),
        }
}

/// Checking a file changes nothing and prints nothing. It succeeds only where
/// the identity of the vault opens the file, and fails only where there is no
/// identity, where it does not open the file, or where a file cannot be read.
/// What is in the file does not matter.
pub proof fn law_verify(p: Places, path: Seq<u8>, w: World)
    ensures
        upholds(begin(p, Command::Verify(path)), w, stays(w), ends_verify(p, path, w)),
{
    lemma_open_file(p, Reading::Verify, path, w, stays(w), ends_verify(p, path, w));
}

/// A file that was checked can take the place of the store, if it holds text:
/// once it has been renamed, the secrets of the vault are those of the text.
pub proof fn law_verified_file_is_a_store(
    p: Places,
    path: Seq<u8>,
    text: Seq<char>,
    w: World,
    v: World,
)
    requires
        p == places_in(p.dir),
        path != p.key && path != p.store,
        text_at(p, w, path) == Some(text),
        step(Ask::Rename(path, p.store), w, Answer::Done(Ok(())), v),
    ensures
        secrets_in(p, v) == Some(parsed(text)),
{
    reveal_strlit("key.txt");
    reveal_strlit("store.env.age");
    lemma_joined_end(p.dir, "key.txt"@);
    lemma_joined_end(p.dir, "store.env.age"@);
    assert(p.key != p.store);
    assert(v.files[p.store] == w.files[path]);
    assert(identity_in(p, v) == identity_in(p, w));
}

/// How the check for a key ends: it succeeds just where there is one.
pub open spec fn ends_ensure_init(p: Places, w: World) -> Finally {
    |r: Result<Product, Fault>, v: World|
        match r {
            Ok(_) => w.has(p.key),
            Err(f) => !w.has(p.key) && f == not_initialized(),
        }
}

/// Checking for a key changes nothing and prints nothing, and succeeds just
/// where there is one.
pub proof fn law_ensure_init(p: Places, w: World)
    ensures
        upholds(begin(p, Command::EnsureInit), w, stays(w), ends_ensure_init(p, w)),
{
    lemma_needs_key(p, Command::EnsureInit, w, stays(w), ends_ensure_init(p, w));
}

/// How the export of the key ends: what comes out holds the very bytes of the
/// key file for the passphrase.
pub open spec fn ends_export(p: Places, passphrase: Seq<char>, w: World) -> Finally {
    |r: Result<Product, Fault>, v: World|
        match r {
            Ok(o) => {
                &&& o matches Product::Data(file)
                &&& w.files.contains_key(p.key)
                &&& may_seal(Locked::Passphrase(passphrase), w.files[p.key], Ok(file))
            },
            Err(f) => f.kind == ErrorKind::KeyNotRead,
        }
}

/// Exporting the key changes nothing and prints nothing. What comes out holds
/// the very bytes of the key file for the passphrase; it fails only where the
/// key cannot be read.
pub proof fn law_export(p: Places, passphrase: Seq<char>, w: World)
    ensures
        upholds(
            begin(p, Command::Export(passphrase)),
            w,
            stays(w),
            ends_export(p, passphrase, w),
        ),
{
    let always = stays(w);
    let finally = ends_export(p, passphrase, w);
    let then = begin(p, Command::Export(passphrase))->Ask_1;
    assert forall|a: Answer, v: World| #[trigger]
        step(Ask::ReadData(p.key), w, a, v) implies upholds(
        then(a),
        v,
        always,
        finally,
    ) by {
        if let Ok(data) = a->Data_0 {
            let next = then(a)->Seal_2;
            assert forall|out| #[trigger]
                may_seal(Locked::Passphrase(passphrase), data, out) implies upholds(
                next(out),
                w,
                always,
                finally,
            ) by {}
        }
    }
}

} // verus!
