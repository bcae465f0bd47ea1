//! What holds of the work with remotes, whatever the world answers.

use vstd::prelude::*;
use vstd::utf8::{decode_utf8, valid_utf8};

use crate::command::notice;
use crate::fault::{ErrorKind, Fault};
use crate::law_key::anything;
use crate::law_read::stays;
use crate::path::shown;
use crate::plan::{Answer, Ask, Product};
use crate::remote::{
    arguments, backup_path, get_command, law_adding_keeps_names_apart, law_commands_differ,
    law_place, law_removing, make_command, names_differ, parent, place_of, problem, put_command,
    without, RemoteType, Site,
};
use crate::sync::{
    add_remote, fetch, get_fault, key_note, load_remotes, not_implemented, parse_remotes, protect,
    pull_course, pull_key_course, pull_temp, pull_write, push_course, push_dir, push_key,
    push_key_told, push_look, push_read, push_store, push_told, put_fault, read_remotes,
    remote_exists, remote_not_found, remote_unknown, remotes_loaded, run_fault, save_remotes,
    store_note, write_remotes, Intent, Use,
};
use crate::world::{
    far_step, law_weakening, ran_well, same_at, same_far, same_file, spares, step, upholds, Always,
    Call, Far, Finally, World,
};

verus! {

// Pushing.

/// Whether a call of ssh went well.
pub open spec fn went_well(c: Call) -> bool {
    ran_well(c.ran)
}

/// The file of a remote at a path.
pub open spec fn far_file(site: Site, path: Seq<char>) -> Far {
    (arguments(site, path).drop_last(), path)
}

/// What the files on remotes hold after a push.
pub open spec fn far_after_push(
    site: Site,
    store: Seq<u8>,
    key: Option<Seq<u8>>,
    w: World,
) -> Map<Far, Seq<u8>> {
    let more = w.far.insert(far_file(site, site.path), w.files[store]);
    match key {
        Some(file) => more.insert(far_file(site, backup_path(site.path)), file),
        None => more,
    }
}

proof fn lemma_put(
    site: Site,
    path: Seq<char>,
    c: Call,
    far: Map<Far, Seq<u8>>,
    more: Map<Far, Seq<u8>>,
)
    requires
        far_step(c, far, more),
        c.args == arguments(site, put_command(path)),
    ensures
        went_well(c) && c.input is Some ==> more == far.insert(
            far_file(site, path),
            c.input.unwrap(),
        ),
        forall|place: Far| place != far_file(site, path) ==> #[trigger] same_far(far, more, place),
{
    assert(c.args.last() == put_command(path));
    assert(c.args.drop_last() =~= arguments(site, path).drop_last());
}

proof fn lemma_no_put(c: Call, far: Map<Far, Seq<u8>>, more: Map<Far, Seq<u8>>)
    requires
        far_step(c, far, more),
        forall|path: Seq<char>| c.args.last() != #[trigger] put_command(path),
    ensures
        more == far,
{
}

proof fn lemma_get(
    site: Site,
    path: Seq<char>,
    c: Call,
    far: Map<Far, Seq<u8>>,
    more: Map<Far, Seq<u8>>,
)
    requires
        far_step(c, far, more),
        c.args == arguments(site, get_command(path)) && c.taken,
    ensures
        more == far,
        went_well(c) && far.contains_key(far_file(site, path)) ==> (c.ran->Ok_0).1 == far[far_file(
            site,
            path,
        )],
{
    assert(c.args.last() == get_command(path));
    assert(c.args.drop_last() =~= arguments(site, path).drop_last());
    assert forall|other: Seq<char>| c.args.last() != #[trigger] put_command(other) by {
        law_commands_differ(other, path);
    }
}

/// The call that makes the directory on a remote.
pub open spec fn is_make_call(site: Site, c: Call) -> bool {
    c.args == arguments(site, make_command(parent(site.path))) && c.input is None && !c.taken
}

/// The call that puts `data` to a path on a remote.
pub open spec fn is_put_call(site: Site, path: Seq<char>, data: Seq<u8>, c: Call) -> bool {
    c.args == arguments(site, put_command(path)) && c.input == Some(data) && !c.taken
}

/// Whether a call is one that a push makes: it makes the directory, puts the
/// very bytes of the store to the path of the remote, or puts the key backup
/// next to it.
pub open spec fn is_push_call(
    site: Site,
    store: Seq<u8>,
    key: Option<Seq<u8>>,
    w: World,
    c: Call,
) -> bool {
    ||| is_make_call(site, c)
    ||| w.files.contains_key(store) && is_put_call(site, site.path, w.files[store], c)
    ||| key matches Some(file) && is_put_call(site, backup_path(site.path), file, c)
}

/// Whether nothing has changed but what was printed, which calls were made, and
/// what the files of the store and of the key backup on the remote hold, and
/// the calls are those of a push.
pub open spec fn only_pushes(
    site: Site,
    store: Seq<u8>,
    key: Option<Seq<u8>>,
    w: World,
) -> Always {
    |v: World|
        {
            &&& v == (World { said: v.said, calls: v.calls, far: v.far, ..w })
            &&& forall|place: Far|
                place != far_file(site, site.path) && place != far_file(
                    site,
                    backup_path(site.path),
                ) ==> #[trigger] same_far(w.far, v.far, place)
            &&& w.calls.is_prefix_of(v.calls)
            &&& forall|i: int|
                w.calls.len() <= i < v.calls.len() ==> is_push_call(
                    site,
                    store,
                    key,
                    w,
                    #[trigger] v.calls[i],
                )
        }
}

/// Whether a failure is one of reading the store or of a call of ssh.
pub open spec fn is_push_fault(f: Fault) -> bool {
    ||| f.kind == ErrorKind::StoreFileNotRead
    ||| f.kind == ErrorKind::RemoteDirectoryNotCreated
    ||| f.kind == ErrorKind::SshFailed
    ||| f.kind == ErrorKind::SshNotStarted
    ||| f.kind == ErrorKind::SshNotFed
    ||| f.kind == ErrorKind::SshNotAwaited
}

/// Whether a failure tells of the last call of a push, that of the directory
/// with all that is told of the call; one to read the store comes after the
/// call for the directory.
pub open spec fn tells_last_call(site: Site, w: World, v: World, f: Fault) -> bool {
    let n = w.calls.len();
    match f.kind {
        ErrorKind::StoreFileNotRead => v.calls.len() == n + 1,
        ErrorKind::RemoteDirectoryNotCreated => {
            &&& v.calls.len() == n + 1
            &&& run_fault(site, v.calls.last().ran) matches Some(g)
            &&& f.chain == seq![
                "Failed to create remote directory on '"@ + site.name + "'"@,
            ] + g.chain
        },
        _ => v.calls.len() > n + 1 && put_fault(site, v.calls.last().ran) == Some(f),
    }
}

/// How a push ends: all of its calls were made, in order, and went well, and a
/// word was said of each file; or else it failed, and said no word of what did
/// not arrive.
pub open spec fn ends_push(
    site: Site,
    store: Seq<u8>,
    key: Option<Seq<u8>>,
    w: World,
) -> Finally {
    |r: Result<Product, Fault>, v: World|
        {
            let n = w.calls.len() as int;
            match r {
                Ok(_) => {
                    &&& site.remote_type == RemoteType::Ssh
                    &&& w.files.contains_key(store)
                    &&& v.calls.len() == n + (if key is Some {
                        3int
                    } else {
                        2int
                    })
                    &&& forall|i: int|
                        n <= i < v.calls.len() ==> went_well(#[trigger] v.calls[i])
                    &&& is_make_call(site, v.calls[n])
                    &&& is_put_call(site, site.path, w.files[store], v.calls[n + 1])
                    &&& key matches Some(file) ==> is_put_call(
                        site,
                        backup_path(site.path),
                        file,
                        v.calls[n + 2],
                    )
                    &&& v.said == w.said + (if key is Some {
                        seq![notice(store_note(site)), notice(key_note(site))]
                    } else {
                        seq![notice(store_note(site))]
                    })
                    &&& v.far == far_after_push(site, store, key, w)
                },
                Err(f) => {
                    &&& site.remote_type == RemoteType::Ftp ==> f == not_implemented() && v == w
                    &&& site.remote_type == RemoteType::Ssh && !w.has(store) ==> f.kind
                        == ErrorKind::StoreMissing && f.chain == seq![
                        "Encrypted store not found at "@ + shown(store)
                            + ". Run `vault init` first."@,
                    ] && v == w
                    &&& site.remote_type == RemoteType::Ssh && w.has(store) ==> is_push_fault(f)
                        && tells_last_call(site, w, v, f)
                    &&& v.said == w.said || v.said == w.said + seq![notice(store_note(site))]
                        && v.calls.len() == n + 3 && went_well(v.calls[n + 1]) && is_put_call(
                        site,
                        site.path,
                        w.files[store],
                        v.calls[n + 1],
                    )
                },
            }
        }
}

/// A push changes nothing here, and sends nothing but the store as it is, and
/// the key backup if there is one. If it ends well, all of its calls were made,
/// in order, and went well, and a word was said of each file; where it fails,
/// no word was said of what did not arrive.
pub proof fn law_push(site: Site, store: Seq<u8>, key: Option<Seq<u8>>, w: World)
    ensures
        upholds(
            push_course(site, store, key),
            w,
            only_pushes(site, store, key, w),
            ends_push(site, store, key, w),
        ),
{
    let always = only_pushes(site, store, key, w);
    let finally = ends_push(site, store, key, w);
    assert(always(w));
    if site.remote_type == RemoteType::Ssh {
        let looked = push_look(site, store, key)->Ask_1;
        assert forall|a: Answer, v: World| #[trigger]
            step(Ask::Exists(store), w, a, v) implies upholds(
            looked(a),
            v,
            always,
            finally,
        ) by {
            if w.has(store) {
                let made = push_dir(site, store, key)->Ask_1;
                let ask = push_dir(site, store, key)->Ask_0;
                assert forall|b: Answer, u: World| #[trigger] step(ask, w, b, u) implies upholds(
                    made(b),
                    u,
                    always,
                    finally,
                ) by {
                    lemma_push_read(site, store, key, w, u, b);
                }
            }
        }
    }
}

proof fn lemma_push_read(
    site: Site,
    store: Seq<u8>,
    key: Option<Seq<u8>>,
    w: World,
    u: World,
    b: Answer,
)
    requires
        site.remote_type == RemoteType::Ssh,
        w.has(store),
        step(push_dir(site, store, key)->Ask_0, w, b, u),
    ensures
        upholds(
            (push_dir(site, store, key)->Ask_1)(b),
            u,
            only_pushes(site, store, key, w),
            ends_push(site, store, key, w),
        ),
{
    let always = only_pushes(site, store, key, w);
    let finally = ends_push(site, store, key, w);
    let n = w.calls.len() as int;
    assert(is_push_call(site, store, key, w, u.calls[n]));
    assert(u.far == w.far) by {
        let c = u.calls[n];
        assert(c.args.last() == make_command(parent(site.path)));
        assert forall|path: Seq<char>| c.args.last() != #[trigger] put_command(path) by {
            law_commands_differ(path, parent(site.path));
        }
        lemma_no_put(c, w.far, u.far);
    }
    assert(always(u));
    if run_fault(site, b->Ran_0) is None {
        assert(went_well(u.calls[n]));
        let read = push_read(site, store, key)->Ask_1;
        assert forall|c: Answer, x: World| #[trigger]
            step(Ask::ReadData(store), u, c, x) implies upholds(
            read(c),
            x,
            always,
            finally,
        ) by {
            if let Ok(data) = c->Data_0 {
                let put = push_store(site, data, key)->Ask_1;
                let ask = push_store(site, data, key)->Ask_0;
                assert forall|d: Answer, y: World| #[trigger] step(ask, u, d, y) implies upholds(
                    put(d),
                    y,
                    always,
                    finally,
                ) by {
                    assert(y.calls[n] == u.calls[n]);
                    assert(is_put_call(site, site.path, w.files[store], y.calls[n + 1]));
                    assert(is_push_call(site, store, key, w, y.calls[n + 1]));
                    lemma_put(site, site.path, y.calls[n + 1], w.far, y.far);
                    assert(always(y));
                    if put_fault(site, d->Ran_0) is None {
                        assert(went_well(y.calls[n + 1]));
                        lemma_push_told(site, store, key, w, y);
                    }
                }
            }
        }
    }
}

proof fn lemma_push_told(
    site: Site,
    store: Seq<u8>,
    key: Option<Seq<u8>>,
    w: World,
    y: World,
)
    requires
        site.remote_type == RemoteType::Ssh,
        w.files.contains_key(store),
        only_pushes(site, store, key, w)(y),
        y.said == w.said,
        y.calls.len() == w.calls.len() + 2,
        is_make_call(site, y.calls[w.calls.len() as int]),
        went_well(y.calls[w.calls.len() as int]),
        is_put_call(site, site.path, w.files[store], y.calls[w.calls.len() as int + 1]),
        went_well(y.calls[w.calls.len() as int + 1]),
        y.far == w.far.insert(far_file(site, site.path), w.files[store]),
    ensures
        upholds(
            push_told(site, key),
            y,
            only_pushes(site, store, key, w),
            ends_push(site, store, key, w),
        ),
{
    let always = only_pushes(site, store, key, w);
    let finally = ends_push(site, store, key, w);
    let n = w.calls.len() as int;
    let lines = seq![notice(store_note(site))];
    let told = push_told(site, key)->Ask_1;
    assert forall|a: Answer, v: World| #[trigger] step(Ask::Say(lines), y, a, v) implies upholds(
        told(a),
        v,
        always,
        finally,
    ) by {
        assert(always(v));
        match key {
            None => {
                assert forall|i: int| n <= i < v.calls.len() implies went_well(
                    #[trigger] v.calls[i],
                ) by {
                    assert(i == n || i == n + 1);
                }
            },
            Some(file) => {
                let put = push_key(site, file)->Ask_1;
                let ask = push_key(site, file)->Ask_0;
                assert forall|b: Answer, u: World| #[trigger] step(ask, v, b, u) implies upholds(
                    put(b),
                    u,
                    always,
                    finally,
                ) by {
                    assert(u.calls[n] == y.calls[n]);
                    assert(u.calls[n + 1] == y.calls[n + 1]);
                    assert(is_put_call(site, backup_path(site.path), file, u.calls[n + 2]));
                    assert(is_push_call(site, store, key, w, u.calls[n + 2]));
                    lemma_put(site, backup_path(site.path), u.calls[n + 2], v.far, u.far);
                    assert(always(u)) by {
                        assert forall|place: Far|
                            place != far_file(site, site.path) && place != far_file(
                                site,
                                backup_path(site.path),
                            ) implies #[trigger] same_far(w.far, u.far, place) by {
                            assert(same_far(v.far, u.far, place));
                        }
                        assert forall|i: int| n <= i < u.calls.len() implies is_push_call(
                            site,
                            store,
                            key,
                            w,
                            #[trigger] u.calls[i],
                        ) by {
                            if i < n + 2 {
                                assert(u.calls[i] == y.calls[i]);
                            }
                        }
                        assert(w.calls =~= u.calls.take(n));
                    }
                    if put_fault(site, b->Ran_0) is None {
                        assert(went_well(u.calls[n + 2]));
                        let more = seq![notice(key_note(site))];
                        let done = push_key_told(site)->Ask_1;
                        assert forall|c: Answer, x: World| #[trigger]
                            step(Ask::Say(more), u, c, x) implies upholds(
                            done(c),
                            x,
                            always,
                            finally,
                        ) by {
                            assert(x.said =~= w.said + seq![
                                notice(store_note(site)),
                                notice(key_note(site)),
                            ]);
                            assert forall|i: int| n <= i < x.calls.len() implies went_well(
                                #[trigger] x.calls[i],
                            ) by {
                                assert(i == n || i == n + 1 || i == n + 2);
                            }
                        }
                    }
                }
            },
        }
    }
}

// Pulling.

/// Whether a call is one that reads a path on a remote.
pub open spec fn is_get_call(site: Site, path: Seq<char>, c: Call) -> bool {
    c.args == arguments(site, get_command(path)) && c.input is None && c.taken
}

/// Whether `v` differs from `w` in one call of ssh, which reads a path on a
/// remote.
pub open spec fn has_called(site: Site, path: Seq<char>, w: World, v: World) -> bool {
    &&& v.calls.len() == w.calls.len() + 1
    &&& v.calls.drop_last() == w.calls
    &&& is_get_call(site, path, v.calls.last())
}

/// Whether a pull has changed no file but the one that it writes.
pub open spec fn only_pulls(store: Seq<u8>, w: World) -> Always {
    |v: World|
        {
            &&& spares(w, v, set![pull_temp(store)])
            &&& v.said == w.said && v.dirs == w.dirs && v.far == w.far
            &&& v.private_dirs == w.private_dirs && v.shell == w.shell && v.forms == w.forms
            &&& v.stuck == w.stuck && v.reach == w.reach && v.process == w.process
        }
}

/// How a pull ends: the file holds just what ssh printed, is its owner's alone,
/// and ssh went well; or else it failed, and where ssh did not go well, no file
/// has changed.
pub open spec fn ends_pull(site: Site, store: Seq<u8>, w: World) -> Finally {
    |r: Result<Product, Fault>, v: World|
        match r {
            Ok(o) => {
                &&& o == Product::Path(pull_temp(store))
                &&& has_called(site, site.path, w, v)
                &&& v.calls.last().ran matches Ok((code, data))
                &&& code == Some(0i32)
                &&& v.files == w.files.insert(pull_temp(store), data)
                &&& v.private.contains(pull_temp(store))
                &&& w.far.contains_key(far_file(site, site.path)) ==> data == w.far[far_file(
                    site,
                    site.path,
                )]
            },
            Err(f) => if site.remote_type == RemoteType::Ftp {
                f == not_implemented() && v == w
            } else {
                &&& has_called(site, site.path, w, v)
                &&& if went_well(v.calls.last()) {
                    f.kind == ErrorKind::FileNotWritten
                } else {
                    get_fault(site, v.calls.last().ran) == Some(f) && v.files == w.files
                }
            },
        }
}

/// A pull changes no file but the one that it writes. If it ends well, that
/// file holds just what ssh printed, ssh went well, and the file is its owner's
/// alone; where ssh did not go well, it fails and no file has changed, so that
/// what a failed call printed is never taken for the store.
pub proof fn law_pull(site: Site, store: Seq<u8>, w: World)
    ensures
        upholds(pull_course(site, store), w, only_pulls(store, w), ends_pull(site, store, w)),
{
    let always = only_pulls(store, w);
    let finally = ends_pull(site, store, w);
    let temp = pull_temp(store);
    assert(spares(w, w, set![temp]));
    if site.remote_type == RemoteType::Ssh {
        let plan = fetch(site, site.path, Use::Keep(temp));
        let called = plan->Ask_1;
        assert forall|a: Answer, v: World| #[trigger] step(plan->Ask_0, w, a, v) implies upholds(
            called(a),
            v,
            always,
            finally,
        ) by {
            assert(v.calls.drop_last() =~= w.calls);
            lemma_get(site, site.path, v.calls.last(), w.far, v.far);
            assert(spares(w, v, set![temp]));
            if get_fault(site, a->Ran_0) is None {
                let data = (a->Ran_0->Ok_0).1;
                let wrote = pull_write(temp, data)->Ask_1;
                assert forall|b: Answer, u: World| #[trigger]
                    step(Ask::WritePrivate(temp, data), v, b, u) implies upholds(
                    wrote(b),
                    u,
                    always,
                    finally,
                ) by {
                    assert forall|path: Seq<u8>| !set![temp].contains(path) implies #[trigger]
                    same_file(w, u, path) by {
                        assert(b->Written_0 is Err ==> same_at(v, u, path));
                    }
                }
            }
        }
    }
}

/// Whether nothing has changed but which calls were made.
pub open spec fn only_calls(w: World) -> Always {
    |v: World| v == (World { calls: v.calls, ..w })
}

/// How a pull of the key backup ends: with just what ssh printed, and ssh went
/// well; or else it failed.
pub open spec fn ends_pull_key(site: Site, w: World) -> Finally {
    |r: Result<Product, Fault>, v: World|
        match r {
            Ok(o) => {
                &&& has_called(site, backup_path(site.path), w, v)
                &&& v.calls.last().ran matches Ok((code, data))
                &&& code == Some(0i32)
                &&& o == Product::Data(data)
                &&& w.far.contains_key(far_file(site, backup_path(site.path))) ==> data
                    == w.far[far_file(site, backup_path(site.path))]
            },
            Err(f) => if site.remote_type == RemoteType::Ftp {
                f == not_implemented() && v == w
            } else {
                &&& has_called(site, backup_path(site.path), w, v)
                &&& get_fault(site, v.calls.last().ran) == Some(f)
            },
        }
}

/// A pull of the key backup changes nothing here. If it ends well, it comes to
/// just what ssh printed, and ssh went well; where ssh did not go well, it
/// fails.
pub proof fn law_pull_key(site: Site, w: World)
    ensures
        upholds(pull_key_course(site), w, only_calls(w), ends_pull_key(site, w)),
{
    let always = only_calls(w);
    let finally = ends_pull_key(site, w);
    if site.remote_type == RemoteType::Ssh {
        let plan = fetch(site, backup_path(site.path), Use::Hand);
        let called = plan->Ask_1;
        assert forall|a: Answer, v: World| #[trigger] step(plan->Ask_0, w, a, v) implies upholds(
            called(a),
            v,
            always,
            finally,
        ) by {
            assert(v.calls.drop_last() =~= w.calls);
            lemma_get(site, backup_path(site.path), v.calls.last(), w.far, v.far);
        }
    }
}

/// Whether, if all went well, the file that a pull writes holds `data`.
pub open spec fn then_pulled(store: Seq<u8>, data: Seq<u8>) -> Finally {
    |r: Result<Product, Fault>, v: World|
        r is Ok ==> v.files.contains_key(pull_temp(store)) && v.files[pull_temp(store)] == data
}

/// Whether, if all went well, a pull of the key backup comes to `data`.
pub open spec fn then_handed(data: Seq<u8>) -> Finally {
    |r: Result<Product, Fault>, v: World| r matches Ok(o) ==> o == Product::Data(data)
}

/// Whether, if all went well, what can be pulled next to any store is the store
/// that was pushed, and the key backup that can be pulled is the one that was
/// pushed, if one was.
pub open spec fn then_pulls(site: Site, data: Seq<u8>, key: Option<Seq<u8>>) -> Finally {
    |r: Result<Product, Fault>, v: World|
        r is Ok ==> {
            &&& forall|to: Seq<u8>|
                upholds(
                    #[trigger] pull_course(site, to),
                    v,
                    anything(),
                    then_pulled(to, data),
                )
            &&& key matches Some(file) ==> upholds(
                pull_key_course(site),
                v,
                anything(),
                then_handed(file),
            )
        }
}

/// What was pushed is what is pulled: after a push has ended well, a pull from
/// the same remote that ends well has written the very bytes of the store, and
/// a pull of the key backup comes to the one that was pushed.
pub proof fn law_pushed_is_pulled(site: Site, store: Seq<u8>, key: Option<Seq<u8>>, w: World)
    ensures
        upholds(
            push_course(site, store, key),
            w,
            anything(),
            then_pulls(site, w.files[store], key),
        ),
{
    let just = only_pushes(site, store, key, w);
    let ends = ends_push(site, store, key, w);
    let finally = then_pulls(site, w.files[store], key);
    law_push(site, store, key, w);
    assert forall|r: Result<Product, Fault>, v: World| #[trigger]
        ends(r, v) && just(v) implies finally(r, v) by {
        if r is Ok {
            let data = w.files[store];
            reveal_strlit(".key.age");
            assert(backup_path(site.path).len() > site.path.len());
            assert(v.far.contains_key(far_file(site, site.path)));
            assert(v.far[far_file(site, site.path)] == data);
            assert forall|to: Seq<u8>|
                upholds(
                    #[trigger] pull_course(site, to),
                    v,
                    anything(),
                    then_pulled(to, data),
                ) by {
                law_pull(site, to, v);
                let pulled = ends_pull(site, to, v);
                let done = then_pulled(to, data);
                assert forall|s: Result<Product, Fault>, x: World| #[trigger]
                    pulled(s, x) && only_pulls(to, v)(x) implies done(s, x) by {}
                law_weakening(
                    pull_course(site, to),
                    v,
                    only_pulls(to, v),
                    pulled,
                    anything(),
                    done,
                );
            }
            if let Some(file) = key {
                law_pull_key(site, v);
                let pulled = ends_pull_key(site, v);
                let done = then_handed(file);
                assert forall|s: Result<Product, Fault>, x: World| #[trigger]
                    pulled(s, x) && only_calls(v)(x) implies done(s, x) by {}
                law_weakening(
                    pull_key_course(site),
                    v,
                    only_calls(v),
                    pulled,
                    anything(),
                    done,
                );
            }
        }
    }
    law_weakening(push_course(site, store, key), w, just, ends, anything(), finally);
}

// The configuration.

/// The remotes that a configuration holds, where it was put down as text in
/// this world. One that is not there holds none.
pub open spec fn configured(path: Seq<u8>, w: World) -> Option<Seq<Site>> {
    if !w.has(path) {
        Some(Seq::empty())
    } else if w.files.contains_key(path) && valid_utf8(w.files[path]) && w.forms.contains_key(
        decode_utf8(w.files[path]),
    ) {
        Some(w.forms[decode_utf8(w.files[path])])
    } else {
        None
    }
}

/// Whether the configured remotes can fail to load in this way.
pub open spec fn cannot_configure(path: Seq<u8>, w: World, f: Fault) -> bool {
    ||| f.kind == ErrorKind::RemotesNotRead
    ||| f.kind == ErrorKind::RemotesInvalid && configured(path, w) is None
}

/// Whether a configuration can load as these remotes.
pub open spec fn may_load(path: Seq<u8>, w: World, all: Seq<Site>) -> bool {
    configured(path, w) matches Some(c) ==> all == c
}

proof fn lemma_load_remotes(
    path: Seq<u8>,
    intent: Intent,
    w: World,
    always: Always,
    finally: Finally,
)
    requires
        always(w),
        forall|f: Fault| #[trigger] cannot_configure(path, w, f) ==> finally(Err(f), w),
        forall|all: Seq<Site>| #[trigger]
            may_load(path, w, all) ==> upholds(
                remotes_loaded(path, intent, all),
                w,
                always,
                finally,
            ),
    ensures
        upholds(load_remotes(path, intent), w, always, finally),
{
    let looked = load_remotes(path, intent)->Ask_1;
    assert forall|a: Answer, v: World| #[trigger] step(Ask::Exists(path), w, a, v) implies upholds(
        looked(a),
        v,
        always,
        finally,
    ) by {
        if !w.has(path) {
            assert(may_load(path, w, Seq::empty()));
        } else {
            let read = read_remotes(path, intent)->Ask_1;
            assert forall|b: Answer, u: World| #[trigger]
                step(Ask::ReadText(path), w, b, u) implies upholds(
                read(b),
                u,
                always,
                finally,
            ) by {
                match b->Text_0 {
                    Ok(text) => {
                        vstd::utf8::encode_utf8_valid_utf8(text);
                        vstd::utf8::encode_utf8_decode_utf8(text);
                        let parsed = parse_remotes(path, intent, text)->Ask_1;
                        assert forall|c: Answer, x: World| #[trigger]
                            step(Ask::ParseRemotes(text), w, c, x) implies upholds(
                            parsed(c),
                            x,
                            always,
                            finally,
                        ) by {
                            match c->Remotes_0 {
                                Ok(all) => {
                                    assert(may_load(path, w, all));
                                },
                                Err(_) => {
                                    let f = parsed(c)->End_0->Err_0;
                                    assert(cannot_configure(path, w, f));
                                },
                            }
                        }
                    },
                    Err(_) => {
                        let f = read(b)->End_0->Err_0;
                        assert(cannot_configure(path, w, f));
                    },
                }
            }
        }
    }
}

/// How a look-up of a remote ends: with the first remote that has the name.
pub open spec fn ends_find(path: Seq<u8>, name: Seq<char>, w: World) -> Finally {
    |r: Result<Product, Fault>, v: World|
        match r {
            Ok(o) => exists|all: Seq<Site>| #[trigger]
                may_load(path, w, all) && (place_of(all, name) matches Some(i) && o
                    == Product::Remote(all[i])),
            Err(f) => {
                ||| cannot_configure(path, w, f)
                ||| f == remote_unknown(name) && exists|all: Seq<Site>| #[trigger]
                    may_load(path, w, all) && place_of(all, name) is None
            },
        }
}

/// Looking a remote up changes nothing. It comes to the first configured remote
/// that has the name, and fails only where there is none or the configuration
/// does not load.
pub proof fn law_find(path: Seq<u8>, name: Seq<char>, w: World)
    ensures
        upholds(
            load_remotes(path, Intent::Find(name)),
            w,
            stays(w),
            ends_find(path, name, w),
        ),
{
    lemma_load_remotes(path, Intent::Find(name), w, stays(w), ends_find(path, name, w));
}

/// How the loading of the remotes ends: with those that are configured.
pub open spec fn ends_load(path: Seq<u8>, w: World) -> Finally {
    |r: Result<Product, Fault>, v: World|
        match r {
            Ok(o) => o matches Product::Remotes(all) && may_load(path, w, all),
            Err(f) => cannot_configure(path, w, f),
        }
}

/// Loading the remotes changes nothing. It comes to those that are configured,
/// and fails only where the configuration does not load.
pub proof fn law_load(path: Seq<u8>, w: World)
    ensures
        upholds(load_remotes(path, Intent::Show), w, stays(w), ends_load(path, w)),
{
    lemma_load_remotes(path, Intent::Show, w, stays(w), ends_load(path, w));
}

/// Whether nothing has changed but the configuration.
pub open spec fn only_configures(path: Seq<u8>, w: World) -> Always {
    |v: World|
        v == (World { files: v.files, private: v.private, forms: v.forms, ..w }) && spares(
            w,
            v,
            set![path],
        )
}

/// Whether a configuration holds just these remotes, and is its owner's alone.
pub open spec fn is_configured(path: Seq<u8>, all: Seq<Site>, v: World) -> bool {
    configured(path, v) == Some(all) && v.files.contains_key(path) && v.private.contains(path)
}

/// Whether the writing of a configuration can fail in this way: the remotes
/// cannot be put down as text, and nothing has changed; or the file cannot be
/// written, and nothing is known of it; or it cannot be made its owner's alone,
/// and holds the remotes.
pub open spec fn cannot_write_remotes(
    path: Seq<u8>,
    all: Seq<Site>,
    w: World,
    f: Fault,
    v: World,
) -> bool {
    ||| f.kind == ErrorKind::RemotesNotFormatted && v == w
    ||| f.kind == ErrorKind::RemotesNotWritten
    ||| f.kind == ErrorKind::RemotesNotProtected && configured(path, v) == Some(all)
}

/// How the writing of a configuration ends: it holds the remotes, and is its
/// owner's alone.
pub open spec fn ends_save(path: Seq<u8>, all: Seq<Site>, w: World) -> Finally {
    |r: Result<Product, Fault>, v: World|
        match r {
            Ok(_) => is_configured(path, all, v),
            Err(f) => cannot_write_remotes(path, all, w, f, v),
        }
}

/// Writing a configuration changes nothing else. If it ends well, the
/// configuration holds just the remotes, and is its owner's alone. Where it
/// fails, the configuration is as it was or holds the remotes, unless it was the
/// writing itself that failed.
pub proof fn law_save(path: Seq<u8>, all: Seq<Site>, w: World)
    ensures
        upholds(save_remotes(path, all), w, only_configures(path, w), ends_save(path, all, w)),
{
    let always = only_configures(path, w);
    let finally = ends_save(path, all, w);
    assert(spares(w, w, set![path]));
    let formed = save_remotes(path, all)->Ask_1;
    assert forall|a: Answer, v: World| #[trigger]
        step(Ask::FormatRemotes(all), w, a, v) implies upholds(
        formed(a),
        v,
        always,
        finally,
    ) by {
        assert(spares(w, v, set![path]));
        if let Ok(text) = a->Text_0 {
            vstd::utf8::encode_utf8_valid_utf8(text);
            vstd::utf8::encode_utf8_decode_utf8(text);
            let wrote = write_remotes(path, text)->Ask_1;
            assert forall|b: Answer, u: World| #[trigger]
                step(Ask::WriteText(path, text), v, b, u) implies upholds(
                wrote(b),
                u,
                always,
                finally,
            ) by {
                assert forall|q: Seq<u8>| !set![path].contains(q) implies #[trigger] same_file(
                    w,
                    u,
                    q,
                ) by {
                    assert(same_at(v, u, q));
                }
                assert(always(u));
                if b->Done_0 is Ok {
                    let made = protect(path)->Ask_1;
                    assert forall|c: Answer, x: World| #[trigger]
                        step(Ask::MakePrivate(path), u, c, x) implies upholds(
                        made(c),
                        x,
                        always,
                        finally,
                    ) by {
                        assert forall|q: Seq<u8>| !set![path].contains(q) implies #[trigger]
                        same_file(w, x, q) by {
                            assert(same_file(w, u, q));
                        }
                        assert(always(x));
                        assert(configured(path, x) == Some(all));
                    }
                }
            }
        }
    }
}

/// How the configuring of a remote ends: the remotes are those that were there
/// and the new one; or else it failed, and where the remote is unsound or its
/// name is taken, nothing has changed.
pub open spec fn ends_add_remote(path: Seq<u8>, site: Site, w: World) -> Finally {
    |r: Result<Product, Fault>, v: World|
        match r {
            Ok(_) => problem(site) is None && exists|all: Seq<Site>| #[trigger]
                may_load(path, w, all) && place_of(all, site.name) is None && is_configured(
                    path,
                    all.push(site),
                    v,
                ),
            Err(f) => match problem(site) {
                Some(g) => f == g && v == w,
                None => {
                    ||| cannot_configure(path, w, f) && v == w
                    ||| exists|all: Seq<Site>| #[trigger]
                        may_load(path, w, all) && match place_of(all, site.name) {
                            Some(_) => f == remote_exists(site.name) && v == w,
                            None => cannot_write_remotes(path, all.push(site), w, f, v),
                        }
                },
            },
        }
}

/// Configuring a remote changes nothing but the configuration. If it ends well,
/// the remotes are those that were there and the new one. Where the remote is
/// unsound or its name is taken, it fails and nothing has changed.
pub proof fn law_add_remote(path: Seq<u8>, site: Site, w: World)
    ensures
        upholds(
            add_remote(path, site),
            w,
            only_configures(path, w),
            ends_add_remote(path, site, w),
        ),
{
    let always = only_configures(path, w);
    let finally = ends_add_remote(path, site, w);
    assert(spares(w, w, set![path]));
    if problem(site) is None {
        assert forall|all: Seq<Site>| #[trigger] may_load(path, w, all) implies upholds(
            remotes_loaded(path, Intent::Add(site), all),
            w,
            always,
            finally,
        ) by {
            if place_of(all, site.name) is None {
                law_save(path, all.push(site), w);
                let ends = ends_save(path, all.push(site), w);
                assert forall|r: Result<Product, Fault>, v: World| #[trigger]
                    ends(r, v) && always(v) implies finally(r, v) by {
                    assert(may_load(path, w, all));
                }
                law_weakening(
                    save_remotes(path, all.push(site)),
                    w,
                    always,
                    ends,
                    always,
                    finally,
                );
            }
        }
        lemma_load_remotes(path, Intent::Add(site), w, always, finally);
    }
}

/// How the removal of a remote ends: the remotes are those that were there but
/// for those of the name, of which there was one; or else it failed, and where
/// there was none, nothing has changed.
pub open spec fn ends_remove_remote(path: Seq<u8>, name: Seq<char>, w: World) -> Finally {
    |r: Result<Product, Fault>, v: World|
        match r {
            Ok(_) => exists|all: Seq<Site>| #[trigger]
                may_load(path, w, all) && place_of(all, name) is Some && is_configured(
                    path,
                    without(all, name),
                    v,
                ),
            Err(f) => {
                ||| cannot_configure(path, w, f) && v == w
                ||| exists|all: Seq<Site>| #[trigger]
                    may_load(path, w, all) && match place_of(all, name) {
                        Some(_) => cannot_write_remotes(path, without(all, name), w, f, v),
                        None => f == remote_not_found(name) && v == w,
                    }
            },
        }
}

/// Removing a remote changes nothing but the configuration. If it ends well,
/// the remotes are those that were there but for those of the name, of which
/// there was one. Where there was none, it fails and nothing has changed.
pub proof fn law_remove_remote(path: Seq<u8>, name: Seq<char>, w: World)
    ensures
        upholds(
            load_remotes(path, Intent::Remove(name)),
            w,
            only_configures(path, w),
            ends_remove_remote(path, name, w),
        ),
{
    let always = only_configures(path, w);
    let finally = ends_remove_remote(path, name, w);
    assert(spares(w, w, set![path]));
    assert forall|all: Seq<Site>| #[trigger] may_load(path, w, all) implies upholds(
        remotes_loaded(path, Intent::Remove(name), all),
        w,
        always,
        finally,
    ) by {
        law_removing(all, name);
        let rest = without(all, name);
        if rest.len() != all.len() {
            law_save(path, rest, w);
            let ends = ends_save(path, rest, w);
            assert forall|r: Result<Product, Fault>, v: World| #[trigger]
                ends(r, v) && always(v) implies finally(r, v) by {
                assert(may_load(path, w, all));
            }
            law_weakening(save_remotes(path, rest), w, always, ends, always, finally);
        }
    }
    lemma_load_remotes(path, Intent::Remove(name), w, always, finally);
}

/// Whether the names of the configured remotes are apart, or nothing has
/// changed. Where the writing of the file itself failed, nothing is known of it.
pub open spec fn ends_apart(path: Seq<u8>, w: World) -> Finally {
    |r: Result<Product, Fault>, v: World|
        {
            ||| configured(path, v) matches Some(all) && names_differ(all)
            ||| r is Err && v == w
            ||| r matches Err(f) && f.kind == ErrorKind::RemotesNotWritten
        }
}

/// Names stay apart: where a configuration was read as remotes with different
/// names, however it was made, the configuration has different names after one
/// is added or removed, and nothing has changed where that was refused.
pub proof fn law_names_stay_apart(path: Seq<u8>, intent: Intent, all: Seq<Site>, w: World)
    requires
        intent is Add || intent is Remove,
        names_differ(all),
    ensures
        upholds(
            remotes_loaded(path, intent, all),
            w,
            only_configures(path, w),
            ends_apart(path, w),
        ),
{
    let always = only_configures(path, w);
    let finally = ends_apart(path, w);
    assert(spares(w, w, set![path]));
    let more = match intent {
        Intent::Add(site) => all.push(site),
        Intent::Remove(name) => without(all, name),
        _ => all,
    };
    match intent {
        Intent::Add(site) => {
            if place_of(all, site.name) is None {
                law_adding_keeps_names_apart(all, site);
            }
        },
        Intent::Remove(name) => {
            law_removing(all, name);
        },
        _ => {},
    }
    if remotes_loaded(path, intent, all) !is End {
        law_save(path, more, w);
        let ends = ends_save(path, more, w);
        assert forall|r: Result<Product, Fault>, v: World| #[trigger]
            ends(r, v) && always(v) implies finally(r, v) by {}
        law_weakening(save_remotes(path, more), w, always, ends, always, finally);
    }
}

/// Remotes that were configured with different names have different names after
/// any addition, whether it ended well or was refused.
pub proof fn law_adding_a_remote_keeps_names_apart(
    path: Seq<u8>,
    site: Site,
    all: Seq<Site>,
    w: World,
)
    requires
        configured(path, w) == Some(all),
        names_differ(all),
    ensures
        upholds(add_remote(path, site), w, only_configures(path, w), ends_apart(path, w)),
{
    let always = only_configures(path, w);
    let finally = ends_apart(path, w);
    assert(spares(w, w, set![path]));
    if problem(site) is None {
        assert forall|c: Seq<Site>| #[trigger] may_load(path, w, c) implies upholds(
            remotes_loaded(path, Intent::Add(site), c),
            w,
            always,
            finally,
        ) by {
            law_names_stay_apart(path, Intent::Add(site), all, w);
        }
        lemma_load_remotes(path, Intent::Add(site), w, always, finally);
    }
}

/// Remotes that were configured with different names have different names after
/// any removal, whether it ended well or was refused.
pub proof fn law_removing_a_remote_keeps_names_apart(
    path: Seq<u8>,
    name: Seq<char>,
    all: Seq<Site>,
    w: World,
)
    requires
        configured(path, w) == Some(all),
        names_differ(all),
    ensures
        upholds(
            load_remotes(path, Intent::Remove(name)),
            w,
            only_configures(path, w),
            ends_apart(path, w),
        ),
{
    let always = only_configures(path, w);
    let finally = ends_apart(path, w);
    assert(spares(w, w, set![path]));
    assert forall|c: Seq<Site>| #[trigger] may_load(path, w, c) implies upholds(
        remotes_loaded(path, Intent::Remove(name), c),
        w,
        always,
        finally,
    ) by {
        law_names_stay_apart(path, Intent::Remove(name), all, w);
    }
    lemma_load_remotes(path, Intent::Remove(name), w, always, finally);
}

/// Whether a remote was found, or the configuration could not be read.
pub open spec fn ends_finding(site: Site) -> Finally {
    |r: Result<Product, Fault>, v: World|
        match r {
            Ok(o) => o == Product::Remote(site),
            Err(f) => f.kind == ErrorKind::RemotesNotRead,
        }
}

/// Whether, if all went well, the remote is found by its name.
pub open spec fn then_finds(path: Seq<u8>, site: Site) -> Finally {
    |r: Result<Product, Fault>, v: World|
        r is Ok ==> upholds(
            load_remotes(path, Intent::Find(site.name)),
            v,
            stays(v),
            ends_finding(site),
        )
}

/// A remote that was added is found by its name, as it was added, unless the
/// configuration cannot be read.
pub proof fn law_added_remote_is_found(path: Seq<u8>, site: Site, w: World)
    ensures
        upholds(add_remote(path, site), w, anything(), then_finds(path, site)),
{
    let just = only_configures(path, w);
    let ends = ends_add_remote(path, site, w);
    let finally = then_finds(path, site);
    law_add_remote(path, site, w);
    assert forall|r: Result<Product, Fault>, v: World| #[trigger]
        ends(r, v) && just(v) implies finally(r, v) by {
        if r is Ok {
            let all = choose|all: Seq<Site>| #[trigger]
                may_load(path, w, all) && place_of(all, site.name) is None && is_configured(
                    path,
                    all.push(site),
                    v,
                );
            let more = all.push(site);
            law_place(all, site.name);
            law_place(more, site.name);
            assert(more[all.len() as int] == site);
            assert forall|j: int| 0 <= j < all.len() implies (#[trigger] more[j]).name
                != site.name by {
                assert(more[j] == all[j]);
            }
            assert(place_of(more, site.name) == Some(all.len() as int));
            law_find(path, site.name, v);
            let found = ends_find(path, site.name, v);
            let sought = ends_finding(site);
            assert forall|s: Result<Product, Fault>, u: World| #[trigger]
                found(s, u) && stays(v)(u) implies sought(s, u) by {
                assert(forall|c: Seq<Site>| #[trigger] may_load(path, v, c) ==> c == more);
            }
            law_weakening(
                load_remotes(path, Intent::Find(site.name)),
                v,
                stays(v),
                found,
                stays(v),
                sought,
            );
        }
    }
    law_weakening(add_remote(path, site), w, just, ends, anything(), finally);
}

/// Whether a remote was not known, or the configuration could not be read.
pub open spec fn ends_seeking(name: Seq<char>) -> Finally {
    |r: Result<Product, Fault>, v: World|
        r matches Err(f) && (f == remote_unknown(name) || f.kind == ErrorKind::RemotesNotRead)
}

/// Whether, if all went well, no remote is found by the name.
pub open spec fn then_seeks(path: Seq<u8>, name: Seq<char>) -> Finally {
    |r: Result<Product, Fault>, v: World|
        r is Ok ==> upholds(
            load_remotes(path, Intent::Find(name)),
            v,
            stays(v),
            ends_seeking(name),
        )
}

/// A remote that was removed is not found any more.
pub proof fn law_removed_remote_is_not_found(path: Seq<u8>, name: Seq<char>, w: World)
    ensures
        upholds(
            load_remotes(path, Intent::Remove(name)),
            w,
            anything(),
            then_seeks(path, name),
        ),
{
    let just = only_configures(path, w);
    let ends = ends_remove_remote(path, name, w);
    let finally = then_seeks(path, name);
    law_remove_remote(path, name, w);
    assert forall|r: Result<Product, Fault>, v: World| #[trigger]
        ends(r, v) && just(v) implies finally(r, v) by {
        if r is Ok {
            let all = choose|all: Seq<Site>| #[trigger]
                may_load(path, w, all) && place_of(all, name) is Some && is_configured(
                    path,
                    without(all, name),
                    v,
                );
            let rest = without(all, name);
            law_removing(all, name);
            law_find(path, name, v);
            let found = ends_find(path, name, v);
            let sought = ends_seeking(name);
            assert forall|s: Result<Product, Fault>, u: World| #[trigger]
                found(s, u) && stays(v)(u) implies sought(s, u) by {
                assert(forall|c: Seq<Site>| #[trigger] may_load(path, v, c) ==> c == rest);
            }
            law_weakening(
                load_remotes(path, Intent::Find(name)),
                v,
                stays(v),
                found,
                stays(v),
                sought,
            );
        }
    }
    law_weakening(
        load_remotes(path, Intent::Remove(name)),
        w,
        just,
        ends,
        anything(),
        finally,
    );
}

} // verus!
