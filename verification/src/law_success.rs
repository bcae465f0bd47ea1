//! A command whose requests are all met does what it is for.

use vstd::prelude::*;
use vstd::utf8::encode_utf8;

use crate::command::{ask_value, begin, notice, Command, Goal};
use crate::crypto::{held_for_passphrase, is_key_pair, may_open, may_seal};
use crate::fault::{ErrorKind, Fault};
use crate::format::serialized;
use crate::law_blame::{
    has_cause, has_causes, is_bad, law_failures_have_causes, law_pull_failures_have_causes,
    law_push_failures_have_causes, law_remote_failures_have_causes, lemma_load,
};
use crate::law_edit::{
    editor_spares, ends_edit, ends_idle, is_edited, keeps_to_edit, law_edit, law_idle_shell,
    plain_path,
};
use crate::law_key::{
    ends_ensure_dir, ends_import, ends_init, installs_key, is_refused, law_ensure_dir, law_import,
    law_init, makes_dir, makes_vault,
};
use crate::law_print::{
    are_names, are_settings, law_env_prints_the_settings, law_get_prints_the_value,
    law_list_prints_the_names, lemma_output, prints_names, prints_settings, prints_value,
};
use crate::law_read::{
    data_at, ends_cat, ends_env, ends_export, ends_list, ends_verify, identity_in, is_read_fault,
    law_cat, law_env, law_export, law_list, law_verify, only_says, secrets_in, stays, text_at,
};
use crate::law_remote::{law_sound_remote, wrong_with};
use crate::law_sync::{
    configured, ends_add_remote, ends_find, ends_pull, ends_pull_key, ends_push, ends_remove_remote,
    far_after_push, far_file, is_push_fault, law_add_remote, law_find, law_pull, law_pull_key,
    law_push, law_remove_remote, may_load, only_calls, only_configures, only_pulls, only_pushes,
};
use crate::law_text::{is_shell_name, law_env_key, law_storable_value};
use crate::law_vault::{lemma_text_with, lemma_text_without};
use crate::law_write::{
    add_text, ends_add, ends_remove, keeps_store_whole, law_add, law_remove, law_saved_is_found,
    law_typed_is_added, remove_text, text_with, text_without,
};
use crate::plan::{Answer, Ask, Plan, Product, Stream};
use crate::remote::{law_place, place_of, without, RemoteType, Site};
use crate::secrets::listing;
use crate::store::{first_key, places_in, Places};
use crate::sync::{add_remote, load_remotes, pull_course, pull_key_course, push_course, Intent};
use crate::text::{is_white, lines};
use crate::world::{same_file, step, upholds, Always, Finally, World};

verus! {

/// Whether a course that is taken in a world ends as `finally` says, where each
/// of its requests is met, whatever else the world answers.
pub open spec fn succeeds(p: Plan, w: World, finally: Finally) -> bool
    decreases p,
{
    match p {
        Plan::Ask(ask, then) => forall|a: Answer, v: World| #[trigger]
            step(ask, w, a, v) && !is_bad(ask, a) ==> succeeds(then(a), v, finally),
        Plan::Seal(lock, data, then) => forall|out| #[trigger]
            may_seal(lock, data, out) ==> succeeds(then(out), w, finally),
        Plan::Open(lock, file, then) => forall|out| #[trigger]
            may_open(lock, file, out) ==> succeeds(then(out), w, finally),
        Plan::Generate(then) => forall|identity: Seq<char>| #[trigger]
            is_key_pair(identity) ==> succeeds(then(identity), w, finally),
        Plan::End(result) => finally(result, w),
    }
}

proof fn lemma_succeeds(
    plan: Plan,
    w: World,
    always: Always,
    ends: Finally,
    finally: Finally,
    p: Places,
    file: Seq<u8>,
)
    requires
        upholds(plan, w, always, ends),
        has_causes(plan, p, file, Set::empty()),
        forall|r: Result<Product, Fault>, v: World| #[trigger]
            ends(r, v) && always(v) && (r matches Err(f) ==> has_cause(p, file, f, Set::empty()))
                ==> finally(r, v),
    ensures
        succeeds(plan, w, finally),
    decreases plan,
{
    match plan {
        Plan::Ask(ask, then) => {
            assert forall|a: Answer, v: World| #[trigger]
                step(ask, w, a, v) && !is_bad(ask, a) implies succeeds(then(a), v, finally) by {
                lemma_succeeds(then(a), v, always, ends, finally, p, file);
            }
        },
        Plan::Seal(lock, data, then) => {
            assert forall|out| #[trigger] may_seal(lock, data, out) implies succeeds(
                then(out),
                w,
                finally,
            ) by {
                lemma_succeeds(then(out), w, always, ends, finally, p, file);
            }
        },
        Plan::Open(lock, data, then) => {
            assert forall|out| #[trigger] may_open(lock, data, out) implies succeeds(
                then(out),
                w,
                finally,
            ) by {
                lemma_succeeds(then(out), w, always, ends, finally, p, file);
            }
        },
        Plan::Generate(then) => {
            assert forall|identity: Seq<char>| #[trigger] is_key_pair(identity) implies succeeds(
                then(identity),
                w,
                finally,
            ) by {
                lemma_succeeds(then(identity), w, always, ends, finally, p, file);
            }
        },
        Plan::End(_) => {},
    }
}

/// Whether a vault can be used: there is a key file with an identity, and the
/// secrets `m`.
pub open spec fn has_secrets(p: Places, m: Map<Seq<char>, Seq<char>>, w: World) -> bool {
    &&& w.has(p.key)
    &&& identity_in(p, w) is Some
    &&& secrets_in(p, w) == Some(m)
}

/// Whether all went well, and the vault has the secrets `m`.
pub open spec fn well_with(p: Places, m: Map<Seq<char>, Seq<char>>) -> Finally {
    |r: Result<Product, Fault>, v: World| r is Ok && secrets_in(p, v) == Some(m)
}

/// `add` does what it is for: where a vault can be used, the name is letters,
/// digits and underscores and starts with no digit, the value is a single line
/// without white space at its ends, and every request is met, it succeeds, and
/// the vault has the secret besides the others; however much is in it.
pub proof fn law_add_succeeds(
    p: Places,
    m: Map<Seq<char>, Seq<char>>,
    name: Seq<char>,
    value: Seq<char>,
    w: World,
)
    requires
        p == places_in(p.dir),
        has_secrets(p, m, w),
        is_shell_name(name),
        !value.contains('\n'),
        value.len() > 0 ==> !is_white(value[0]) && !is_white(value[value.len() - 1]),
    ensures
        succeeds(
            begin(p, Command::Add(name, Some(value))),
            w,
            well_with(p, m.insert(name, value)),
        ),
{
    let c = Command::Add(name, Some(value));
    let plan = begin(p, c);
    let just = keeps_store_whole(p, w, add_text(p, name, value, w));
    let ends = ends_add(p, name, value, w);
    let all = m.insert(name, value);
    let finally = well_with(p, all);
    law_env_key(name);
    law_storable_value(value);
    law_add(p, name, value, w);
    law_failures_have_causes(p, c);
    assert forall|r: Result<Product, Fault>, v: World| #[trigger]
        ends(r, v) && just(v) && (r matches Err(f) ==> has_cause(p, p.store, f, Set::empty()))
        implies finally(r, v) by {
        lemma_no_cause(p, p.store);
        if r is Ok {
            lemma_text_with(p, w, m, name, value);
            law_saved_is_found(
                p,
                w,
                text_with(m, name, value),
                v,
            );
        }
    }
    lemma_succeeds(plan, w, just, ends, finally, p, p.store);
}

/// A value that is typed is added as one that is given: once the prompt has been
/// answered with it, and every other request is met, `add` succeeds, and the
/// vault has the secret besides the others.
pub proof fn law_typed_succeeds(
    p: Places,
    m: Map<Seq<char>, Seq<char>>,
    name: Seq<char>,
    value: Seq<char>,
    w: World,
)
    requires
        p == places_in(p.dir),
        has_secrets(p, m, w),
        is_shell_name(name),
        !value.contains('\n'),
        value.len() > 0 ==> !is_white(value[0]) && !is_white(value[value.len() - 1]),
    ensures
        ask_value(p, name) matches Plan::Ask(_, then) && succeeds(
            then(Answer::Text(Ok(value))),
            w,
            well_with(p, m.insert(name, value)),
        ),
{
    let then = ask_value(p, name)->Ask_1;
    let plan = then(Answer::Text(Ok(value)));
    let just = keeps_store_whole(p, w, add_text(p, name, value, w));
    let ends = ends_add(p, name, value, w);
    let finally = well_with(p, m.insert(name, value));
    law_env_key(name);
    law_storable_value(value);
    law_typed_is_added(p, name, value, w);
    lemma_load(p, Goal::Add(name, value), Set::empty());
    assert forall|r: Result<Product, Fault>, v: World| #[trigger]
        ends(r, v) && just(v) && (r matches Err(f) ==> has_cause(p, p.store, f, Set::empty()))
        implies finally(r, v) by {
        lemma_no_cause(p, p.store);
        if r is Ok {
            lemma_text_with(p, w, m, name, value);
            law_saved_is_found(
                p,
                w,
                text_with(m, name, value),
                v,
            );
        }
    }
    lemma_succeeds(plan, w, just, ends, finally, p, p.store);
}

proof fn lemma_no_cause(p: Places, file: Seq<u8>)
    ensures
        forall|f: Fault| #[trigger]
            has_cause(p, file, f, Set::empty()) ==> !is_read_fault(f) && f.kind
                != crate::fault::ErrorKind::FileNotWritten && f.kind
                != crate::fault::ErrorKind::StoreNotReplaced,
{
}

/// `remove` does what it is for: where a vault can be used, the name has a
/// value, and every request is met, it succeeds, and the vault has the other
/// secrets.
pub proof fn law_remove_succeeds(
    p: Places,
    m: Map<Seq<char>, Seq<char>>,
    name: Seq<char>,
    w: World,
)
    requires
        p == places_in(p.dir),
        has_secrets(p, m, w),
        m.contains_key(name),
    ensures
        succeeds(begin(p, Command::Remove(name)), w, well_with(p, m.remove(name))),
{
    let c = Command::Remove(name);
    let just = keeps_store_whole(p, w, remove_text(p, name, w));
    let ends = ends_remove(p, name, w);
    let finally = well_with(p, m.remove(name));
    law_remove(p, name, w);
    law_failures_have_causes(p, c);
    assert forall|r: Result<Product, Fault>, v: World| #[trigger]
        ends(r, v) && just(v) && (r matches Err(f) ==> has_cause(p, p.store, f, Set::empty()))
        implies finally(r, v) by {
        lemma_no_cause(p, p.store);
        if r is Ok {
            lemma_text_without(p, w, m, name);
            law_saved_is_found(
                p,
                w,
                text_without(m, name),
                v,
            );
        }
    }
    lemma_succeeds(begin(p, c), w, just, ends, finally, p, p.store);
}

/// Whether all went well, and one text was printed on the standard output.
pub open spec fn well_printed(text: Seq<char>, w: World) -> Finally {
    |r: Result<Product, Fault>, v: World|
        r is Ok && v.said == w.said.push((Stream::Output, text))
}

/// `get` does what it is for: where a vault can be used, the name has a value,
/// and every request is met, it prints the whole value and an end of the line.
pub proof fn law_get_succeeds(p: Places, m: Map<Seq<char>, Seq<char>>, name: Seq<char>, w: World)
    requires
        has_secrets(p, m, w),
        m.contains_key(name),
    ensures
        succeeds(begin(p, Command::Get(name)), w, well_printed(m[name].push('\n'), w)),
{
    let c = Command::Get(name);
    let ends = prints_value(p, name, w);
    let finally = well_printed(m[name].push('\n'), w);
    law_get_prints_the_value(p, name, w);
    law_failures_have_causes(p, c);
    assert forall|r: Result<Product, Fault>, v: World| #[trigger]
        ends(r, v) && only_says(w)(v) && (r matches Err(f) ==> has_cause(
            p,
            p.store,
            f,
            Set::empty(),
        )) implies finally(r, v) by {
        lemma_no_cause(p, p.store);
        if r is Ok {
            let line = v.said.last();
            assert(line.1 =~= m[name].push('\n')) by {
                assert forall|i: int| 0 <= i < line.1.len() implies line.1[i] == m[name].push(
                    '\n',
                )[i] by {
                    if i < m[name].len() {
                        assert(v.said.last().1[i] == m[name][i]);
                    }
                }
            }
            assert(line == (Stream::Output, m[name].push('\n')));
            assert(v.said =~= v.said.drop_last().push(line));
        }
    }
    lemma_succeeds(begin(p, c), w, only_says(w), ends, finally, p, p.store);
}

/// Whether all went well, and the names of a map were printed.
pub open spec fn well_listed(m: Map<Seq<char>, Seq<char>>, w: World) -> Finally {
    |r: Result<Product, Fault>, v: World|
        {
            &&& r is Ok
            &&& v.said.len() >= w.said.len() && v.said.take(w.said.len() as int) == w.said
            &&& m.len() > 0 ==> are_names(m, v.said.skip(w.said.len() as int))
        }
}

/// `list` does what it is for: where a vault can be used and every request is
/// met, it prints all names.
pub proof fn law_list_succeeds(p: Places, m: Map<Seq<char>, Seq<char>>, w: World)
    requires
        has_secrets(p, m, w),
    ensures
        succeeds(begin(p, Command::List), w, well_listed(m, w)),
{
    let c = Command::List;
    let finally = well_listed(m, w);
    let ends = |r: Result<Product, Fault>, v: World|
        prints_names(p, w)(r, v) && ends_list(p, w)(r, v);
    law_list_prints_the_names(p, w);
    law_list(p, w);
    lemma_both(begin(p, c), w, only_says(w), prints_names(p, w), ends_list(p, w), ends);
    law_failures_have_causes(p, c);
    assert forall|r: Result<Product, Fault>, v: World| #[trigger]
        ends(r, v) && only_says(w)(v) && (r matches Err(f) ==> has_cause(
            p,
            p.store,
            f,
            Set::empty(),
        )) implies finally(r, v) by {
        lemma_no_cause(p, p.store);
    }
    lemma_succeeds(begin(p, c), w, only_says(w), ends, finally, p, p.store);
}

proof fn lemma_both(
    plan: Plan,
    w: World,
    always: Always,
    one: Finally,
    two: Finally,
    both: Finally,
)
    requires
        upholds(plan, w, always, one),
        upholds(plan, w, always, two),
        forall|r: Result<Product, Fault>, v: World|
            #![trigger both(r, v)]
            one(r, v) && two(r, v) ==> both(r, v),
    ensures
        upholds(plan, w, always, both),
    decreases plan,
{
    match plan {
        Plan::Ask(ask, then) => {
            assert forall|a: Answer, v: World| #[trigger] step(ask, w, a, v) implies upholds(
                then(a),
                v,
                always,
                both,
            ) by {
                lemma_both(then(a), v, always, one, two, both);
            }
        },
        Plan::Seal(lock, data, then) => {
            assert forall|out| #[trigger] may_seal(lock, data, out) implies upholds(
                then(out),
                w,
                always,
                both,
            ) by {
                lemma_both(then(out), w, always, one, two, both);
            }
        },
        Plan::Open(lock, data, then) => {
            assert forall|out| #[trigger] may_open(lock, data, out) implies upholds(
                then(out),
                w,
                always,
                both,
            ) by {
                lemma_both(then(out), w, always, one, two, both);
            }
        },
        Plan::Generate(then) => {
            assert forall|identity: Seq<char>| #[trigger] is_key_pair(identity) implies upholds(
                then(identity),
                w,
                always,
                both,
            ) by {
                lemma_both(then(identity), w, always, one, two, both);
            }
        },
        Plan::End(_) => {},
    }
}

/// Whether all went well, and a line was printed for every secret of a map.
pub open spec fn well_set(m: Map<Seq<char>, Seq<char>>, w: World) -> Finally {
    |r: Result<Product, Fault>, v: World|
        {
            &&& r is Ok
            &&& v.said.len() >= w.said.len() && v.said.take(w.said.len() as int) == w.said
            &&& are_settings(m, v.said.skip(w.said.len() as int))
        }
}

/// `env` does what it is for: where a vault can be used, there is a store, and
/// every request is met, it prints a line for every secret.
pub proof fn law_env_succeeds(p: Places, m: Map<Seq<char>, Seq<char>>, w: World)
    requires
        has_secrets(p, m, w),
        w.has(p.store),
    ensures
        succeeds(begin(p, Command::Env), w, well_set(m, w)),
{
    let c = Command::Env;
    let finally = well_set(m, w);
    let ends = |r: Result<Product, Fault>, v: World|
        prints_settings(p, w)(r, v) && ends_env(p, w)(r, v);
    law_env_prints_the_settings(p, w);
    law_env(p, w);
    lemma_both(begin(p, c), w, only_says(w), prints_settings(p, w), ends_env(p, w), ends);
    law_failures_have_causes(p, c);
    assert forall|r: Result<Product, Fault>, v: World| #[trigger]
        ends(r, v) && only_says(w)(v) && (r matches Err(f) ==> has_cause(
            p,
            p.store,
            f,
            Set::empty(),
        )) implies finally(r, v) by {
        lemma_no_cause(p, p.store);
    }
    lemma_succeeds(begin(p, c), w, only_says(w), ends, finally, p, p.store);
}

/// `cat` does what it is for: where the identity of the vault finds a text in
/// the store, and every request is met, it prints just this text.
pub proof fn law_cat_succeeds(p: Places, text: Seq<char>, w: World)
    requires
        w.has(p.key),
        text_at(p, w, p.store) == Some(text),
    ensures
        succeeds(begin(p, Command::Cat), w, well_printed(text, w)),
{
    let c = Command::Cat;
    let ends = ends_cat(p, w);
    let finally = well_printed(text, w);
    law_cat(p, w);
    law_failures_have_causes(p, c);
    assert forall|r: Result<Product, Fault>, v: World| #[trigger]
        ends(r, v) && only_says(w)(v) && (r matches Err(f) ==> has_cause(
            p,
            p.store,
            f,
            Set::empty(),
        )) implies finally(r, v) by {
        lemma_no_cause(p, p.store);
        if r is Ok {
            assert(v.said =~= w.said.push((Stream::Output, text)));
        }
    }
    lemma_succeeds(begin(p, c), w, only_says(w), ends, finally, p, p.store);
}

/// Whether all went well, and nothing has changed.
pub open spec fn well_unchanged(w: World) -> Finally {
    |r: Result<Product, Fault>, v: World| r is Ok && v == w
}

/// Checking a file does what it is for: where the identity of the vault opens
/// the file, and every request is met, it succeeds, whatever is in the file and
/// however much.
pub proof fn law_verify_succeeds(p: Places, path: Seq<u8>, w: World)
    requires
        data_at(p, w, path) is Some,
    ensures
        succeeds(begin(p, Command::Verify(path)), w, well_unchanged(w)),
{
    let c = Command::Verify(path);
    let ends = ends_verify(p, path, w);
    let finally = well_unchanged(w);
    law_verify(p, path, w);
    law_failures_have_causes(p, c);
    assert forall|r: Result<Product, Fault>, v: World| #[trigger]
        ends(r, v) && stays(w)(v) && (r matches Err(f) ==> has_cause(p, path, f, Set::empty()))
        implies finally(r, v) by {
        lemma_no_cause(p, path);
    }
    lemma_succeeds(begin(p, c), w, stays(w), ends, finally, p, path);
}

/// Whether all went well, with a file that holds the very bytes of the key file
/// for the passphrase.
pub open spec fn well_exported(p: Places, passphrase: Seq<char>, w: World) -> Finally {
    |r: Result<Product, Fault>, v: World|
        {
            &&& v == w
            &&& r matches Ok(Product::Data(file))
            &&& held_for_passphrase(passphrase, file) == Some(w.files[p.key])
        }
}

/// Exporting the key does what it is for: where every request is met, it
/// succeeds, with a file that holds the very bytes of the key file for the
/// passphrase.
pub proof fn law_export_succeeds(p: Places, passphrase: Seq<char>, w: World)
    ensures
        succeeds(begin(p, Command::Export(passphrase)), w, well_exported(p, passphrase, w)),
{
    let c = Command::Export(passphrase);
    let ends = ends_export(p, passphrase, w);
    let finally = well_exported(p, passphrase, w);
    law_export(p, passphrase, w);
    law_failures_have_causes(p, c);
    assert forall|r: Result<Product, Fault>, v: World| #[trigger]
        ends(r, v) && stays(w)(v) && (r matches Err(f) ==> has_cause(
            p,
            p.store,
            f,
            Set::empty(),
        )) implies finally(r, v) by {
        lemma_no_cause(p, p.store);
    }
    lemma_succeeds(begin(p, c), w, stays(w), ends, finally, p, p.store);
}

/// Whether all went well, with a key file that holds `data`; or the file was
/// refused for the work that it asks for.
pub open spec fn well_imported(p: Places, file: Seq<u8>, data: Seq<u8>) -> Finally {
    |r: Result<Product, Fault>, v: World|
        match r {
            Ok(_) => v.files.contains_key(p.key) && v.files[p.key] == data && v.private.contains(
                p.key,
            ),
            Err(f) => is_refused(file, f),
        }
}

/// Importing a key does what it is for: where there is no key, the backup holds
/// a text for the passphrase one of whose lines starts as an identity does, and
/// every request is met, the text is the key file; unless the backup is refused
/// for the work that it asks for.
pub proof fn law_import_succeeds(
    p: Places,
    file: Seq<u8>,
    passphrase: Seq<char>,
    data: Seq<u8>,
    i: int,
    w: World,
)
    requires
        !w.has(p.key),
        held_for_passphrase(passphrase, file) == Some(data),
        vstd::utf8::valid_utf8(data),
        0 <= i < lines(vstd::utf8::decode_utf8(data)).len(),
        "AGE-SECRET-KEY-"@.is_prefix_of(lines(vstd::utf8::decode_utf8(data))[i]),
    ensures
        succeeds(
            begin(p, Command::Import(file, passphrase)),
            w,
            well_imported(p, file, data),
        ),
{
    let c = Command::Import(file, passphrase);
    let ends = ends_import(p, file, passphrase, w);
    let finally = well_imported(p, file, data);
    law_import(p, file, passphrase, w);
    law_failures_have_causes(p, c);
    lemma_has_key(lines(vstd::utf8::decode_utf8(data)), i);
    assert forall|r: Result<Product, Fault>, v: World| #[trigger]
        ends(r, v) && installs_key(p, w)(v) && (r matches Err(f) ==> has_cause(
            p,
            p.store,
            f,
            Set::empty(),
        )) implies finally(r, v) by {
        lemma_no_cause(p, p.store);
    }
    lemma_succeeds(begin(p, c), w, installs_key(p, w), ends, finally, p, p.store);
}

proof fn lemma_has_key(ls: Seq<Seq<char>>, i: int)
    requires
        0 <= i < ls.len(),
        "AGE-SECRET-KEY-"@.is_prefix_of(ls[i]),
    ensures
        first_key(ls) is Some,
    decreases ls.len(),
{
    if i > 0 {
        assert(ls.drop_first()[i - 1] == ls[i]);
        lemma_has_key(ls.drop_first(), i - 1);
    }
}

/// Whether all went well, with a key file for some identity and a store without
/// secrets.
pub open spec fn well_made(p: Places) -> Finally {
    |r: Result<Product, Fault>, v: World|
        {
            &&& r is Ok
            &&& identity_in(p, v) is Some
            &&& v.files.contains_key(p.key) && v.files.contains_key(p.store)
            &&& secrets_in(p, v) == Some(Map::<Seq<char>, Seq<char>>::empty())
        }
}

/// `init` does what it is for: where there is no key and every request is met,
/// there is a key file with an identity and a store without secrets.
pub proof fn law_init_succeeds(p: Places, w: World)
    requires
        p == places_in(p.dir),
        !w.has(p.key),
    ensures
        succeeds(begin(p, Command::Init), w, well_made(p)),
{
    let c = Command::Init;
    let ends = ends_init(p, w);
    let finally = well_made(p);
    law_init(p, w);
    law_failures_have_causes(p, c);
    assert forall|r: Result<Product, Fault>, v: World| #[trigger]
        ends(r, v) && makes_vault(p, w)(v) && (r matches Err(f) ==> has_cause(
            p,
            p.store,
            f,
            Set::empty(),
        )) implies finally(r, v) by {
        lemma_no_cause(p, p.store);
    }
    lemma_succeeds(begin(p, c), w, makes_vault(p, w), ends, finally, p, p.store);
}

/// Whether all went well, and the directory is there.
pub open spec fn well_placed(p: Places) -> Finally {
    |r: Result<Product, Fault>, v: World| r is Ok && v.has(p.dir)
}

/// Making the directory does what it is for: where every request is met, the
/// directory is there.
pub proof fn law_ensure_dir_succeeds(p: Places, w: World)
    ensures
        succeeds(begin(p, Command::EnsureDir), w, well_placed(p)),
{
    let c = Command::EnsureDir;
    let ends = ends_ensure_dir(p, w);
    let finally = well_placed(p);
    law_ensure_dir(p, w);
    law_failures_have_causes(p, c);
    assert forall|r: Result<Product, Fault>, v: World| #[trigger]
        ends(r, v) && makes_dir(p, w)(v) && (r matches Err(f) ==> has_cause(
            p,
            p.store,
            f,
            Set::empty(),
        )) implies finally(r, v) by {
        lemma_no_cause(p, p.store);
    }
    lemma_succeeds(begin(p, c), w, makes_dir(p, w), ends, finally, p, p.store);
}

// Editing.

/// Whether all went well, and what the editor left decides.
pub open spec fn well_edited(p: Places, m: Map<Seq<char>, Seq<char>>, w: World) -> Finally {
    |r: Result<Product, Fault>, v: World| r is Ok && is_edited(p, m, w, v)
}

/// `edit` does what it is for: where a vault can be used, the editor leaves its
/// files alone, and every request is met, it succeeds, and the store is for the
/// text that the editor left, or as it was where this text has not changed.
pub proof fn law_edit_succeeds(p: Places, m: Map<Seq<char>, Seq<char>>, w: World)
    requires
        p == places_in(p.dir),
        has_secrets(p, m, w),
        editor_spares(p, w),
    ensures
        succeeds(begin(p, Command::Edit), w, well_edited(p, m, w)),
{
    let c = Command::Edit;
    let ends = ends_edit(p, w);
    let finally = well_edited(p, m, w);
    law_edit(p, w);
    law_failures_have_causes(p, c);
    assert forall|r: Result<Product, Fault>, v: World| #[trigger]
        ends(r, v) && keeps_to_edit(p, w)(v) && (r matches Err(f) ==> has_cause(
            p,
            p.store,
            f,
            Set::empty(),
        )) implies finally(r, v) by {
        lemma_no_cause(p, p.store);
    }
    lemma_succeeds(begin(p, c), w, keeps_to_edit(p, w), ends, finally, p, p.store);
}

/// Whether all went well, the store is as it was, and the only word that was
/// said is that nothing has changed.
pub open spec fn well_untouched(p: Places, w: World) -> Finally {
    |r: Result<Product, Fault>, v: World|
        {
            &&& r is Ok
            &&& same_file(w, v, p.store)
            &&& v.said == w.said.push(
                (Stream::Notice, "No changes — store not updated."@ + seq!['\n']),
            )
        }
}

/// An editor that changes nothing changes nothing: where a vault can be used and
/// every request is met, the store is as it was, and `edit` says that nothing
/// has changed, however much is in the vault.
pub proof fn law_idle_editor(p: Places, m: Map<Seq<char>, Seq<char>>, w: World)
    requires
        p == places_in(p.dir),
        has_secrets(p, m, w),
        w.reach == Set::<Seq<u8>>::empty(),
    ensures
        succeeds(begin(p, Command::Edit), w, well_untouched(p, w)),
{
    let c = Command::Edit;
    let ends = |r: Result<Product, Fault>, v: World|
        ends_edit(p, w)(r, v) && ends_idle(w)(r, v);
    let finally = well_untouched(p, w);
    law_edit(p, w);
    law_idle_shell(p, w);
    lemma_both(begin(p, c), w, keeps_to_edit(p, w), ends_edit(p, w), ends_idle(w), ends);
    law_failures_have_causes(p, c);
    assert forall|r: Result<Product, Fault>, v: World| #[trigger]
        ends(r, v) && keeps_to_edit(p, w)(v) && (r matches Err(f) ==> has_cause(
            p,
            p.store,
            f,
            Set::empty(),
        )) implies finally(r, v) by {
        lemma_no_cause(p, p.store);
        if r is Ok {
            let s = v.shell->Some_0;
            let temp = plain_path(w);
            let text = serialized(listing(m));
            vstd::utf8::encode_utf8_valid_utf8(text);
            vstd::utf8::encode_utf8_decode_utf8(text);
            let words = "No changes — store not updated."@;
            lemma_output(words);
            assert(words.push('\n') =~= words + seq!['\n']);
            assert(v.said =~= w.said.push(notice(words)));
        }
    }
    lemma_succeeds(begin(p, c), w, keeps_to_edit(p, w), ends, finally, p, p.store);
}

// Remotes.

/// Whether all went well, and the remote has the very bytes of the store, and of
/// the key backup if there is one.
pub open spec fn well_pushed(
    site: Site,
    store: Seq<u8>,
    key: Option<Seq<u8>>,
    w: World,
) -> Finally {
    |r: Result<Product, Fault>, v: World|
        r is Ok && v.far == far_after_push(site, store, key, w)
}

/// A push does what it is for: where there is a store and every call goes well,
/// the remote has the very bytes of the store at the path, and of the key backup
/// next to it, however many they are.
pub proof fn law_push_succeeds(site: Site, store: Seq<u8>, key: Option<Seq<u8>>, w: World)
    requires
        site.remote_type == RemoteType::Ssh,
        w.files.contains_key(store),
    ensures
        succeeds(push_course(site, store, key), w, well_pushed(site, store, key, w)),
{
    let p = places_in(store);
    let just = only_pushes(site, store, key, w);
    let ends = ends_push(site, store, key, w);
    let finally = well_pushed(site, store, key, w);
    law_push(site, store, key, w);
    law_push_failures_have_causes(site, store, key, p);
    lemma_no_ssh_cause(p, store);
    assert forall|r: Result<Product, Fault>, v: World| #[trigger]
        ends(r, v) && just(v) && (r matches Err(f) ==> has_cause(p, store, f, Set::empty()))
        implies finally(r, v) by {}
    lemma_succeeds(push_course(site, store, key), w, just, ends, finally, p, store);
}

proof fn lemma_no_ssh_cause(p: Places, file: Seq<u8>)
    ensures
        forall|f: Fault| #[trigger]
            has_cause(p, file, f, Set::empty()) ==> !is_push_fault(f) && f.kind
                != ErrorKind::FileNotWritten && f.kind != ErrorKind::SshNotRead && f.kind
                != ErrorKind::RemotesNotRead && f.kind != ErrorKind::RemotesNotFormatted && f.kind
                != ErrorKind::RemotesNotWritten && f.kind != ErrorKind::RemotesNotProtected,
{
}

/// Whether all went well, and a file next to the store holds `data`, for its
/// owner alone.
pub open spec fn well_pulled(store: Seq<u8>, data: Seq<u8>) -> Finally {
    |r: Result<Product, Fault>, v: World|
        {
            let temp = store + encode_utf8(".pull-tmp"@);
            &&& r == Ok::<Product, Fault>(Product::Path(temp))
            &&& v.files.contains_key(temp) && v.files[temp] == data && v.private.contains(temp)
        }
}

/// A pull does what it is for: where the remote has a file and every request is
/// met, its very bytes are in a file next to the store; and a pull of the key
/// backup comes to its very bytes.
pub proof fn law_pull_succeeds(site: Site, store: Seq<u8>, w: World)
    requires
        site.remote_type == RemoteType::Ssh,
    ensures
        w.far.contains_key(far_file(site, site.path)) ==> succeeds(
            pull_course(site, store),
            w,
            well_pulled(store, w.far[far_file(site, site.path)]),
        ),
        w.far.contains_key(far_file(site, site.path + ".key.age"@)) ==> succeeds(
            pull_key_course(site),
            w,
            well_handed(w.far[far_file(site, site.path + ".key.age"@)]),
        ),
{
    let p = places_in(store);
    law_pull_failures_have_causes(site, store, p);
    lemma_no_ssh_cause(p, store);
    if w.far.contains_key(far_file(site, site.path)) {
        let just = only_pulls(store, w);
        let ends = ends_pull(site, store, w);
        let finally = well_pulled(store, w.far[far_file(site, site.path)]);
        law_pull(site, store, w);
        assert forall|r: Result<Product, Fault>, v: World| #[trigger]
            ends(r, v) && just(v) && (r matches Err(f) ==> has_cause(p, store, f, Set::empty()))
            implies finally(r, v) by {}
        lemma_succeeds(pull_course(site, store), w, just, ends, finally, p, store);
    }
    if w.far.contains_key(far_file(site, site.path + ".key.age"@)) {
        let just = only_calls(w);
        let ends = ends_pull_key(site, w);
        let finally = well_handed(w.far[far_file(site, site.path + ".key.age"@)]);
        law_pull_key(site, w);
        assert forall|r: Result<Product, Fault>, v: World| #[trigger]
            ends(r, v) && just(v) && (r matches Err(f) ==> has_cause(p, store, f, Set::empty()))
            implies finally(r, v) by {}
        lemma_succeeds(pull_key_course(site), w, just, ends, finally, p, store);
    }
}

/// Whether all went well, with `data`.
pub open spec fn well_handed(data: Seq<u8>) -> Finally {
    |r: Result<Product, Fault>, v: World| r == Ok::<Product, Fault>(Product::Data(data))
}

/// Whether all went well, and a configuration holds just these remotes.
pub open spec fn well_configured(path: Seq<u8>, all: Seq<Site>) -> Finally {
    |r: Result<Product, Fault>, v: World|
        r is Ok && configured(path, v) == Some(all) && v.private.contains(path)
}

/// Configuring a remote does what it is for: where it is sound, no configured
/// remote has its name, and every request is met, it stands behind the others,
/// however many there are.
pub proof fn law_add_remote_succeeds(path: Seq<u8>, site: Site, all: Seq<Site>, w: World)
    requires
        wrong_with(site.name) is None && wrong_with(site.host) is None,
        wrong_with(site.user) is None,
        !site.host.contains('@') && !site.user.contains('@'),
        site.path.len() > 0,
        configured(path, w) == Some(all),
        forall|i: int| 0 <= i < all.len() ==> (#[trigger] all[i]).name != site.name,
    ensures
        succeeds(add_remote(path, site), w, well_configured(path, all.push(site))),
{
    let p = places_in(path);
    let just = only_configures(path, w);
    let ends = ends_add_remote(path, site, w);
    let finally = well_configured(path, all.push(site));
    law_sound_remote(site);
    law_place(all, site.name);
    law_add_remote(path, site, w);
    law_remote_failures_have_causes(path, Intent::Add(site), p);
    lemma_no_ssh_cause(p, path);
    assert forall|r: Result<Product, Fault>, v: World| #[trigger]
        ends(r, v) && just(v) && (r matches Err(f) ==> has_cause(p, path, f, Set::empty()))
        implies finally(r, v) by {
        assert(forall|c: Seq<Site>| #[trigger] may_load(path, w, c) ==> c == all);
    }
    lemma_succeeds(add_remote(path, site), w, just, ends, finally, p, path);
}

/// Removing a remote does what it is for: where one has the name and every
/// request is met, the configuration holds just the others, in their order.
pub proof fn law_remove_remote_succeeds(
    path: Seq<u8>,
    name: Seq<char>,
    all: Seq<Site>,
    i: int,
    w: World,
)
    requires
        configured(path, w) == Some(all),
        0 <= i < all.len() && all[i].name == name,
    ensures
        succeeds(
            load_remotes(path, Intent::Remove(name)),
            w,
            well_configured(path, all.filter(|site: Site| site.name != name)),
        ),
{
    let p = places_in(path);
    let just = only_configures(path, w);
    let ends = ends_remove_remote(path, name, w);
    let rest = all.filter(|site: Site| site.name != name);
    let finally = well_configured(path, rest);
    assert(without(all, name) == rest);
    law_place(all, name);
    law_remove_remote(path, name, w);
    law_remote_failures_have_causes(path, Intent::Remove(name), p);
    lemma_no_ssh_cause(p, path);
    assert forall|r: Result<Product, Fault>, v: World| #[trigger]
        ends(r, v) && just(v) && (r matches Err(f) ==> has_cause(p, path, f, Set::empty()))
        implies finally(r, v) by {
        assert(forall|c: Seq<Site>| #[trigger] may_load(path, w, c) ==> c == all);
    }
    lemma_succeeds(
        load_remotes(path, Intent::Remove(name)),
        w,
        just,
        ends,
        finally,
        p,
        path,
    );
}

/// Whether all went well, with a remote.
pub open spec fn well_found(site: Site) -> Finally {
    |r: Result<Product, Fault>, v: World| r == Ok::<Product, Fault>(Product::Remote(site))
}

/// Looking a remote up does what it is for: where every request is met, it comes
/// to the first one that has the name, wherever it stands.
pub proof fn law_find_succeeds(path: Seq<u8>, all: Seq<Site>, i: int, w: World)
    requires
        configured(path, w) == Some(all),
        0 <= i < all.len(),
        forall|j: int| 0 <= j < i ==> (#[trigger] all[j]).name != all[i].name,
    ensures
        succeeds(load_remotes(path, Intent::Find(all[i].name)), w, well_found(all[i])),
{
    let p = places_in(path);
    let name = all[i].name;
    let ends = ends_find(path, name, w);
    let finally = well_found(all[i]);
    law_place(all, name);
    law_find(path, name, w);
    law_remote_failures_have_causes(path, Intent::Find(name), p);
    lemma_no_ssh_cause(p, path);
    assert forall|r: Result<Product, Fault>, v: World| #[trigger]
        ends(r, v) && stays(w)(v) && (r matches Err(f) ==> has_cause(p, path, f, Set::empty()))
        implies finally(r, v) by {
        assert(forall|c: Seq<Site>| #[trigger] may_load(path, w, c) ==> c == all);
        assert(may_load(path, w, all));
        assert(place_of(all, name) == Some(i));
    }
    lemma_succeeds(
        load_remotes(path, Intent::Find(name)),
        w,
        stays(w),
        ends,
        finally,
        p,
        path,
    );
}

} // verus!
