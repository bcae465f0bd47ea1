//! What holds of the commands that make a vault, whatever the world answers.

use vstd::prelude::*;
use vstd::utf8::{decode_utf8, encode_utf8, valid_utf8};

use crate::command::{
    already_initialized, backup_fault, begin, create_dir, dir_ready, finish, init_notes, key_exists,
    make_dir, save, temp_store, write_key, Command, Work,
};
use crate::crypto::{held_for_passphrase, is_key_pair, is_refusal, may_open, DecryptStep, Locked};
use crate::fault::{ErrorKind, Fault};
use crate::format::serialized;
use crate::law_read::{ends_export, identity_in, law_export, secrets_in, stays};
use crate::law_write::{
    cannot_save, is_saved, is_unsaved, law_files_lie_apart, law_saved_is_found,
    law_unsaved_is_as_before, lemma_save, lemma_saved_frame, lemma_saved_secrets,
};
use crate::plan::{Answer, Ask, Product};
use crate::secrets::listing;
use crate::store::{first_key, key_file, law_key_file_reads_back, places_in, Places};
use crate::text::lines;
use crate::world::{
    law_weakening, same_at, same_file, spares, step, upholds, Always, Finally, World,
};

verus! {

// The directory.

/// Whether nothing has changed but that the directory of the vault, or some of
/// its parents, have been made, and are their owner's alone.
pub open spec fn only_dirs(p: Places, w: World, v: World) -> bool {
    &&& v == (World { dirs: v.dirs, private_dirs: v.private_dirs, ..w })
    &&& v.private_dirs == w.private_dirs.union(v.dirs.difference(w.dirs))
    &&& forall|q: Seq<u8>| w.dirs.contains(q) ==> #[trigger] v.dirs.contains(q)
    &&& forall|q: Seq<u8>| #[trigger] v.dirs.contains(q) && !w.dirs.contains(q) ==> !w.has(q)
        && q.is_prefix_of(p.dir)
}

proof fn lemma_no_dirs(p: Places, w: World)
    ensures
        only_dirs(p, w, w),
{
    assert(w.private_dirs.union(w.dirs.difference(w.dirs)) =~= w.private_dirs);
}

proof fn lemma_make_dir(p: Places, work: Work, w: World, always: Always, finally: Finally)
    requires
        always(w),
        forall|v: World| #[trigger]
            only_dirs(p, w, v) ==> always(v) && (v.has(p.dir) ==> upholds(
                dir_ready(p, work),
                v,
                always,
                finally,
            )),
        forall|f: Fault, v: World|
            #![trigger finally(Err(f), v)]
            only_dirs(p, w, v) && !w.has(p.dir) && f.kind == ErrorKind::DirectoryNotCreated
                ==> finally(Err(f), v),
    ensures
        upholds(make_dir(p, work), w, always, finally),
{
    let looked = make_dir(p, work)->Ask_1;
    lemma_no_dirs(p, w);
    assert forall|a: Answer, v: World| #[trigger] step(Ask::Exists(p.dir), w, a, v) implies upholds(
        looked(a),
        v,
        always,
        finally,
    ) by {
        if !w.has(p.dir) {
            let made = create_dir(p, work)->Ask_1;
            assert forall|b: Answer, u: World| #[trigger]
                step(Ask::CreateDir(p.dir), w, b, u) implies upholds(
                made(b),
                u,
                always,
                finally,
            ) by {
                assert(only_dirs(p, w, u));
                if b->Done_0 is Err {
                    let f = made(b)->End_0->Err_0;
                    assert(finally(Err(f), u));
                }
            }
        }
    }
}

/// Whether the directory is being made, and nothing else.
pub open spec fn makes_dir(p: Places, w: World) -> Always {
    |v: World| only_dirs(p, w, v)
}

/// How the making of the directory ends: it is there, and is its owner's alone
/// if it was not there before; where it was, nothing has changed.
pub open spec fn ends_ensure_dir(p: Places, w: World) -> Finally {
    |r: Result<Product, Fault>, v: World|
        match r {
            Ok(_) => if w.has(p.dir) {
                v == w
            } else {
                v.dirs.contains(p.dir) && v.private_dirs.contains(p.dir)
            },
            Err(f) => !w.has(p.dir) && f.kind == ErrorKind::DirectoryNotCreated,
        }
}

/// Making the directory makes nothing but it and its parents, and all that it
/// makes is its owner's alone. The directory is there at the end, unless it
/// could not be made; where it was there already, nothing changes, so that it
/// stays as open or as closed as it was.
pub proof fn law_ensure_dir(p: Places, w: World)
    ensures
        upholds(begin(p, Command::EnsureDir), w, makes_dir(p, w), ends_ensure_dir(p, w)),
{
    let always = makes_dir(p, w);
    let finally = ends_ensure_dir(p, w);
    let looked = make_dir(p, Work::Nothing)->Ask_1;
    lemma_no_dirs(p, w);
    if w.has(p.dir) {
        assert forall|a: Answer, v: World| #[trigger]
            step(Ask::Exists(p.dir), w, a, v) implies upholds(looked(a), v, always, finally) by {}
    } else {
        lemma_make_dir(p, Work::Nothing, w, always, finally);
    }
}

// Making a vault.

/// Whether no program was run, nothing was asked of a remote, nothing could not
/// be removed, and no directory has come or gone but the one of the vault and
/// its parents.
pub open spec fn is_quiet(p: Places, w: World, v: World) -> bool {
    &&& v.calls == w.calls && v.far == w.far && v.shell == w.shell && v.forms == w.forms
    &&& v.stuck == w.stuck && v.reach == w.reach && v.process == w.process
    &&& forall|q: Seq<u8>| w.dirs.contains(q) ==> #[trigger] v.dirs.contains(q)
    &&& forall|q: Seq<u8>| #[trigger] v.dirs.contains(q) && !w.dirs.contains(q) ==> q.is_prefix_of(
        p.dir,
    )
}

/// Whether a vault that has a key is left alone; in one that has none, nothing
/// changes but the key, the store, and the file that takes its place, the key
/// is its owner's alone, and the store is the one that was there or an empty
/// one.
pub open spec fn makes_vault(p: Places, w: World) -> Always {
    |v: World|
        {
            &&& w.has(p.key) ==> v == w
            &&& !w.has(p.key) && v.files.contains_key(p.key) ==> v.private.contains(p.key)
            &&& spares(w, v, set![p.key, p.store, temp_store(p, w.process)])
            &&& same_file(w, v, p.store) || secrets_in(p, v) == Some(
                Map::<Seq<char>, Seq<char>>::empty(),
            ) && v.private.contains(p.store)
            &&& is_quiet(p, w, v)
        }
}

/// The text of a store without secrets.
pub open spec fn empty_text() -> Seq<char> {
    serialized(listing(Map::empty()))
}

/// How `init` ends: there is a key file for a new identity and an empty store,
/// and some words were said; or else it failed, and where there was a key,
/// nothing has changed.
pub open spec fn ends_init(p: Places, w: World) -> Finally {
    |r: Result<Product, Fault>, v: World|
        match r {
            Ok(_) => {
                &&& !w.has(p.key)
                &&& exists|identity: Seq<char>| #[trigger]
                    is_key_pair(identity) && identity_in(p, v) == Some(identity)
                        && v.files[p.key] == encode_utf8(key_file(identity)) && v.said == w.said
                        + init_notes(p, identity)
                &&& v.files.contains_key(p.store)
                &&& secrets_in(p, v) == Some(Map::<Seq<char>, Seq<char>>::empty())
                &&& v.private.contains(p.key) && v.private.contains(p.store)
                &&& !w.has(p.dir) ==> v.private_dirs.contains(p.dir)
            },
            Err(f) => {
                &&& v.said == w.said
                &&& if w.has(p.key) {
                    f == already_initialized(p) && v == w
                } else {
                    ||| f.kind == ErrorKind::DirectoryNotCreated
                    ||| f.kind == ErrorKind::FileNotWritten
                    ||| f.kind == ErrorKind::KeyNotRead
                    ||| f.kind == ErrorKind::StoreNotReplaced
                }
            },
        }
}

/// `init` leaves a vault that has a key alone. Where there is none it makes a
/// key file for a new identity, which is read back from it, and an empty store,
/// both their owner's alone, as is the directory if it was not there; no other
/// file changes, and the store is the one that was there or an empty one at
/// every point.
pub proof fn law_init(p: Places, w: World)
    requires
        p == places_in(p.dir),
    ensures
        upholds(begin(p, Command::Init), w, makes_vault(p, w), ends_init(p, w)),
{
    let always = makes_vault(p, w);
    let finally = ends_init(p, w);
    let then = begin(p, Command::Init)->Ask_1;
    assert(spares(w, w, set![p.key, p.store, temp_store(p, w.process)]));
    assert forall|a: Answer, v: World| #[trigger] step(Ask::Exists(p.key), w, a, v) implies upholds(
        then(a),
        v,
        always,
        finally,
    ) by {
        if !w.has(p.key) {
            assert forall|u: World| #[trigger] only_dirs(p, w, u) implies always(u) && (u.has(
                p.dir,
            ) ==> upholds(dir_ready(p, Work::Init), u, always, finally)) by {
                lemma_init_key(p, w, u);
            }
            lemma_make_dir(p, Work::Init, w, always, finally);
        }
    }
}

proof fn lemma_init_key(p: Places, w: World, u: World)
    requires
        p == places_in(p.dir),
        !w.has(p.key),
        only_dirs(p, w, u),
    ensures
        makes_vault(p, w)(u),
        u.has(p.dir) ==> upholds(
            dir_ready(p, Work::Init),
            u,
            makes_vault(p, w),
            ends_init(p, w),
        ),
{
    let always = makes_vault(p, w);
    let finally = ends_init(p, w);
    law_files_lie_apart(p.dir, w.process);
    assert(spares(w, u, set![p.key, p.store, temp_store(p, w.process)]));
    assert(same_file(w, u, p.store));
    let made = dir_ready(p, Work::Init)->Generate_0;
    assert forall|identity: Seq<char>| #[trigger]
        is_key_pair(identity) && u.has(p.dir) implies upholds(
        made(identity),
        u,
        always,
        finally,
    ) by {
        let text = key_file(identity);
        let ask = Ask::WritePrivate(p.key, encode_utf8(text));
        let wrote = write_key(p, text, Some(identity))->Ask_1;
        assert forall|a: Answer, v: World| #[trigger] step(ask, u, a, v) implies upholds(
            wrote(a),
            v,
            always,
            finally,
        ) by {
            match a->Written_0 {
                Ok(_) => {
                    lemma_init_store(p, w, u, identity, v);
                },
                Err(e) => {
                    assert forall|path: Seq<u8>|
                        !set![p.key, p.store, temp_store(p, w.process)].contains(
                            path,
                        ) implies #[trigger] same_file(w, v, path) by {
                        assert(same_at(u, v, path));
                    }
                    assert(same_at(u, v, p.store));
                    assert(same_file(w, v, p.store));
                },
            }
        }
    }
}

proof fn lemma_init_store(p: Places, w: World, u: World, identity: Seq<char>, v: World)
    requires
        p == places_in(p.dir),
        !w.has(p.key),
        only_dirs(p, w, u),
        u.has(p.dir),
        is_key_pair(identity),
        v == (World {
            files: u.files.insert(p.key, encode_utf8(key_file(identity))),
            private: u.private.insert(p.key),
            written: u.written.push(p.key),
            ..u
        }),
    ensures
        upholds(
            save(p, empty_text(), init_notes(p, identity), None),
            v,
            makes_vault(p, w),
            ends_init(p, w),
        ),
{
    let always = makes_vault(p, w);
    let finally = ends_init(p, w);
    let notes = init_notes(p, identity);
    law_files_lie_apart(p.dir, w.process);
    let temp = temp_store(p, w.process);
    let ours = set![p.key, p.store, temp];
    vstd::utf8::encode_utf8_valid_utf8(key_file(identity));
    vstd::utf8::encode_utf8_decode_utf8(key_file(identity));
    law_key_file_reads_back(p.key, identity);
    assert(identity_in(p, v) == Some(identity));
    lemma_saved_secrets(Map::empty());
    assert forall|x: World| #[trigger] is_unsaved(p, v, x) implies always(x) by {
        law_unsaved_is_as_before(p, v, x);
        assert forall|path: Seq<u8>| !ours.contains(path) implies #[trigger] same_file(
            w,
            x,
            path,
        ) by {
            assert(same_at(v, x, path));
        }
        assert(same_file(w, x, p.store));
    }
    assert forall|x: World| #[trigger] is_saved(p, v, empty_text(), x) implies always(x) by {
        law_saved_is_found(p, v, empty_text(), x);
        assert forall|path: Seq<u8>| !ours.contains(path) implies #[trigger] same_file(
            w,
            x,
            path,
        ) by {}
    }
    assert forall|f: Fault, x: World|
        #![trigger cannot_save(p, v, f), is_unsaved(p, v, x)]
        cannot_save(p, v, f) && is_unsaved(p, v, x) implies upholds(
        finish(None, Err(f)),
        x,
        always,
        finally,
    ) by {}
    assert forall|x: World| #[trigger]
        is_saved(p, v, empty_text(), x) && x.said == v.said + notes implies upholds(
        finish(None, Ok(Product::Nothing)),
        x,
        always,
        finally,
    ) by {
        law_saved_is_found(p, v, empty_text(), x);
        lemma_saved_frame(p, v, empty_text(), x);
        assert(same_at(v, x, p.key));
    }
    lemma_save(p, empty_text(), notes, None, v, always, finally);
}

// Backups of the key.

/// Whether a key that is there is left alone, and else nothing changes but the
/// key, which is its owner's alone.
pub open spec fn installs_key(p: Places, w: World) -> Always {
    |v: World|
        {
            &&& w.has(p.key) ==> v == w
            &&& !w.has(p.key) && v.files.contains_key(p.key) ==> v.private.contains(p.key)
            &&& spares(w, v, set![p.key])
            &&& v.said == w.said
            &&& is_quiet(p, w, v)
        }
}

/// Whether a backup can come out as `data` for a passphrase, and `data` is text
/// with an identity in it or not, as `has_key` says.
pub open spec fn may_restore(
    file: Seq<u8>,
    passphrase: Seq<char>,
    data: Seq<u8>,
    has_key: bool,
) -> bool {
    &&& may_open(Locked::Passphrase(passphrase), file, Ok(data))
    &&& valid_utf8(data)
    &&& first_key(lines(decode_utf8(data))) is Some == has_key
}

/// Whether a failure says that a backup was refused for the work that it asks
/// for.
pub open spec fn is_refused(file: Seq<u8>, f: Fault) -> bool {
    exists|words: Seq<char>| #[trigger]
        is_refusal(file, words) && f == backup_fault(DecryptStep::Work, words)
}

/// How the import of a key ends: the key file holds the very bytes that the
/// backup held, which are text with an identity in it; or else it failed, and
/// where there was a key, or the backup is of no use, nothing has changed. That
/// a backup does not open is only said where it holds nothing for the
/// passphrase, or was refused for the work that it asks for.
pub open spec fn ends_import(
    p: Places,
    file: Seq<u8>,
    passphrase: Seq<char>,
    w: World,
) -> Finally {
    |r: Result<Product, Fault>, v: World|
        match r {
            Ok(_) => {
                &&& !w.has(p.key)
                &&& v.files.contains_key(p.key)
                &&& may_restore(file, passphrase, v.files[p.key], true)
                &&& v.private.contains(p.key)
                &&& !w.has(p.dir) ==> v.private_dirs.contains(p.dir)
            },
            Err(f) => if w.has(p.key) {
                f == key_exists(p) && v == w
            } else {
                ||| f.kind == ErrorKind::BackupNotDecrypted && v == w && (held_for_passphrase(
                    passphrase,
                    file,
                ) is None || is_refused(file, f))
                ||| f.kind == ErrorKind::BackupNotText && v == w && exists|data: Seq<u8>|
                    #[trigger]
                    may_open(Locked::Passphrase(passphrase), file, Ok(data)) && !valid_utf8(data)
                ||| f.kind == ErrorKind::BackupWithoutKey && v == w && exists|data: Seq<u8>|
                    #[trigger]
                    may_restore(file, passphrase, data, false)
                ||| f.kind == ErrorKind::DirectoryNotCreated
                ||| f.kind == ErrorKind::FileNotWritten
            },
        }
}

/// Importing a key leaves a key that is there alone. Else the key file holds
/// the very bytes that the backup held for the passphrase, which are text with
/// an identity in it, or the import fails; no file but the key changes, and it
/// is its owner's alone at every point, as is the directory if it was not there.
/// A backup that holds such a text for the passphrase is installed, unless it
/// is refused for the work that it asks for, or something cannot be written.
pub proof fn law_import(p: Places, file: Seq<u8>, passphrase: Seq<char>, w: World)
    ensures
        upholds(
            begin(p, Command::Import(file, passphrase)),
            w,
            installs_key(p, w),
            ends_import(p, file, passphrase, w),
        ),
{
    let always = installs_key(p, w);
    let finally = ends_import(p, file, passphrase, w);
    let lock = Locked::Passphrase(passphrase);
    let then = begin(p, Command::Import(file, passphrase))->Ask_1;
    assert forall|a: Answer, v: World| #[trigger] step(Ask::Exists(p.key), w, a, v) implies upholds(
        then(a),
        v,
        always,
        finally,
    ) by {
        if !w.has(p.key) {
            let next = then(a)->Open_2;
            assert forall|out| #[trigger] may_open(lock, file, out) implies upholds(
                next(out),
                w,
                always,
                finally,
            ) by {
                if let Ok(data) = out {
                    if valid_utf8(data) {
                        let has_key = first_key(lines(decode_utf8(data))) is Some;
                        assert(may_restore(file, passphrase, data, has_key));
                        if has_key {
                            lemma_install(p, file, passphrase, data, w);
                        }
                    }
                }
            }
        }
    }
}

proof fn lemma_install(
    p: Places,
    file: Seq<u8>,
    passphrase: Seq<char>,
    data: Seq<u8>,
    w: World,
)
    requires
        !w.has(p.key),
        may_restore(file, passphrase, data, true),
    ensures
        upholds(
            make_dir(p, Work::Install(decode_utf8(data))),
            w,
            installs_key(p, w),
            ends_import(p, file, passphrase, w),
        ),
{
    let always = installs_key(p, w);
    let finally = ends_import(p, file, passphrase, w);
    let text = decode_utf8(data);
    let work = Work::Install(text);
    vstd::utf8::decode_utf8_encode_utf8(data);
    assert forall|u: World| #[trigger] only_dirs(p, w, u) implies always(u) && (u.has(p.dir)
        ==> upholds(dir_ready(p, work), u, always, finally)) by {
        assert(spares(w, u, set![p.key]));
        let wrote = write_key(p, text, None)->Ask_1;
        assert forall|a: Answer, v: World| #[trigger]
            step(Ask::WritePrivate(p.key, encode_utf8(text)), u, a, v) && u.has(
                p.dir,
            ) implies upholds(
            wrote(a),
            v,
            always,
            finally,
        ) by {
            assert forall|path: Seq<u8>|
                !set![p.key].contains(path) implies #[trigger] same_file(w, v, path) by {
                assert(a->Written_0 is Err ==> same_at(u, v, path));
            }
        }
    }
    lemma_make_dir(p, work, w, always, finally);
}

/// Whether every way of importing a backup puts `data` into the key file, or
/// fails for a reason that is not in the backup.
pub open spec fn restores(file: Seq<u8>, passphrase: Seq<char>, data: Seq<u8>) -> bool {
    forall|p: Places, w: World|
        #![trigger begin(p, Command::Import(file, passphrase)), w.has(p.key)]
        upholds(
            begin(p, Command::Import(file, passphrase)),
            w,
            anything(),
            ends_restored(p, file, data, w),
        )
}

/// Whatever the world is like.
pub open spec fn anything() -> Always {
    |v: World| true
}

/// How the import of a backup that holds `data` ends: the key file holds the
/// data; or else it failed, because there is a key, because the file was refused
/// for the work that it asks for, because something could not be written, or
/// because the data is no key file.
pub open spec fn ends_restored(p: Places, file: Seq<u8>, data: Seq<u8>, w: World) -> Finally {
    |r: Result<Product, Fault>, v: World|
        match r {
            Ok(_) => v.files.contains_key(p.key) && v.files[p.key] == data,
            Err(f) => {
                ||| w.has(p.key) && f == key_exists(p)
                ||| is_refused(file, f)
                ||| f.kind == ErrorKind::DirectoryNotCreated
                ||| f.kind == ErrorKind::FileNotWritten
                ||| f.kind == ErrorKind::BackupNotText && !valid_utf8(data)
                ||| f.kind == ErrorKind::BackupWithoutKey && valid_utf8(data) && first_key(
                    lines(decode_utf8(data)),
                ) is None
            },
        }
}

/// How the export of a key ends, if all went well: with a backup that restores
/// the key file.
pub open spec fn exports_key(p: Places, passphrase: Seq<char>, w: World) -> Finally {
    |r: Result<Product, Fault>, v: World|
        r matches Ok(o) ==> o matches Product::Data(file) && restores(
            file,
            passphrase,
            w.files[p.key],
        )
}

/// A key comes back as it was: an import with the same passphrase, anywhere,
/// puts in place what was exported. It fails only where there is a key already,
/// where the backup is refused for the work that it asks for, where something
/// cannot be written, or where what was exported was no key file.
pub proof fn law_backup_restores_key(p: Places, passphrase: Seq<char>, w: World)
    ensures
        upholds(
            begin(p, Command::Export(passphrase)),
            w,
            stays(w),
            exports_key(p, passphrase, w),
        ),
{
    law_export(p, passphrase, w);
    let ends = ends_export(p, passphrase, w);
    let finally = exports_key(p, passphrase, w);
    assert forall|r: Result<Product, Fault>, v: World| #[trigger]
        ends(r, v) && stays(w)(v) implies finally(r, v) by {
        if let Ok(Product::Data(file)) = r {
            let data = w.files[p.key];
            assert forall|q: Places, x: World|
                #![trigger begin(q, Command::Import(file, passphrase)), x.has(q.key)]
                upholds(
                    begin(q, Command::Import(file, passphrase)),
                    x,
                    anything(),
                    ends_restored(q, file, data, x),
                ) by {
                law_import(q, file, passphrase, x);
                let imported = ends_import(q, file, passphrase, x);
                let done = ends_restored(q, file, data, x);
                assert forall|s: Result<Product, Fault>, y: World| #[trigger]
                    imported(s, y) && installs_key(q, x)(y) implies done(s, y) by {
                    assert(held_for_passphrase(passphrase, file) == Some(data));
                }
                law_weakening(
                    begin(q, Command::Import(file, passphrase)),
                    x,
                    installs_key(q, x),
                    imported,
                    anything(),
                    done,
                );
            }
            assert(restores(file, passphrase, data));
        }
    }
    law_weakening(begin(p, Command::Export(passphrase)), w, stays(w), ends, stays(w), finally);
}

} // verus!
