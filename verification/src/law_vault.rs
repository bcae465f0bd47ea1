//! What holds between the commands on a vault, and of all of them.

use vstd::prelude::*;

use crate::command::{begin, edit_path, env_lines, list_lines, output, unknown_name, Command, Goal};
use crate::fault::Fault;
use crate::format::{is_storable, is_storable_name, is_storable_value, parsed};
use crate::law_edit::{
    editor_spares, ends_edit, keeps_to_edit, law_edit, law_plain_text_lies_apart, plain_text,
};
use crate::law_key::{
    anything, ends_ensure_dir, ends_import, ends_init, installs_key, law_ensure_dir, law_import,
    law_init, makes_dir, makes_vault, only_dirs,
};
use crate::law_read::{
    ends_cat, ends_ensure_init, ends_env, ends_export, ends_get, ends_list, ends_verify,
    is_read_fault, law_cat, law_ensure_init, law_env, law_export, law_get, law_list, law_verify,
    lemma_load, lemma_needs_key, only_says, secrets_in, stays, told,
};
use crate::law_write::{
    add_text, ends_add, ends_ask, ends_remove, is_unsaved, keeps_store_whole,
    keeps_store_whole_for_any, law_add, law_add_asking, law_files_lie_apart, law_remove,
    law_saved_is_found, law_secrets_are_storable, law_unsaved_is_as_before, lemma_saved_secrets,
    remove_text, text_with, text_without,
};
use crate::plan::{Product, Stream};
use crate::secrets::{
    is_ascending, law_listing, law_listing_is_unique, lemma_map_of, listing, map_of,
};
use crate::shell::{is_env_key, law_env_key_is_plain, law_quoting, quoted, word};
use crate::store::{places_in, Places};
use crate::text::precedes;
use crate::world::{law_weakening, same_file, upholds, Always, Finally, World};

verus! {

// What one command leaves for the next.

/// Whether, if all went well, the vault has the secrets `m`.
pub open spec fn then_has(p: Places, m: Map<Seq<char>, Seq<char>>) -> Finally {
    |r: Result<Product, Fault>, v: World| r is Ok ==> secrets_in(p, v) == Some(m)
}

/// Whether the vault still has the secrets that it had, or has the secrets `m`.
pub open spec fn has_old_or(p: Places, w: World, m: Map<Seq<char>, Seq<char>>) -> Always {
    |v: World| secrets_in(p, v) == secrets_in(p, w) || secrets_in(p, v) == Some(m)
}

proof fn lemma_env_key_is_storable(name: Seq<char>)
    requires
        is_env_key(name),
    ensures
        is_storable_name(name),
{
    law_env_key_is_plain(name);
    assert forall|i: int| 0 <= i < name.len() implies name[i] != '=' && name[i] != '\n' by {}
}

pub(crate) proof fn lemma_text_with(
    p: Places,
    w: World,
    m: Map<Seq<char>, Seq<char>>,
    name: Seq<char>,
    value: Seq<char>,
)
    requires
        secrets_in(p, w) == Some(m),
        is_env_key(name),
        is_storable_value(value),
    ensures
        parsed(text_with(m, name, value)) == m.insert(name, value),
{
    law_secrets_are_storable(p, w);
    lemma_env_key_is_storable(name);
    let all = m.insert(name, value);
    assert(is_storable(all)) by {
        assert forall|k: Seq<char>| #[trigger] all.contains_key(k) implies is_storable_name(k)
            && is_storable_value(all[k]) by {
            if k != name {
                assert(m.contains_key(k));
            }
        }
    }
    lemma_saved_secrets(all);
}

pub(crate) proof fn lemma_text_without(
    p: Places,
    w: World,
    m: Map<Seq<char>, Seq<char>>,
    name: Seq<char>,
)
    requires
        secrets_in(p, w) == Some(m),
    ensures
        parsed(text_without(m, name)) == m.remove(name),
{
    law_secrets_are_storable(p, w);
    let rest = m.remove(name);
    assert(is_storable(rest)) by {
        assert forall|k: Seq<char>| #[trigger] rest.contains_key(k) implies is_storable_name(k)
            && is_storable_value(rest[k]) by {
            assert(m.contains_key(k));
        }
    }
    lemma_saved_secrets(rest);
}

/// A secret that is added is there, with the others as they were: after `add`
/// has ended well, the vault has its old secrets and the new one. At every
/// point before it has the old ones or these.
pub proof fn law_add_inserts(
    p: Places,
    m: Map<Seq<char>, Seq<char>>,
    name: Seq<char>,
    value: Seq<char>,
    w: World,
)
    requires
        p == places_in(p.dir),
        secrets_in(p, w) == Some(m),
    ensures
        upholds(
            begin(p, Command::Add(name, Some(value))),
            w,
            has_old_or(p, w, m.insert(name, value)),
            then_has(p, m.insert(name, value)),
        ),
{
    let c = Command::Add(name, Some(value));
    let all = m.insert(name, value);
    let always = has_old_or(p, w, all);
    let finally = then_has(p, all);
    let text = text_with(m, name, value);
    if is_env_key(name) && is_storable_value(value) {
        let just = keeps_store_whole(p, w, add_text(p, name, value, w));
        let ends = ends_add(p, name, value, w);
        law_add(p, name, value, w);
        lemma_text_with(p, w, m, name, value);
        assert forall|v: World| #[trigger] just(v) implies always(v) by {
            if is_unsaved(p, w, v) {
                law_unsaved_is_as_before(p, w, v);
            } else {
                law_saved_is_found(p, w, text, v);
            }
        }
        assert forall|r: Result<Product, Fault>, v: World| #[trigger]
            ends(r, v) && just(v) implies finally(r, v) by {
            if r is Ok {
                law_saved_is_found(p, w, text, v);
            }
        }
        law_weakening(begin(p, c), w, just, ends, always, finally);
    } else {
        let ends = |r: Result<Product, Fault>, v: World| r is Err && v == w;
        lemma_needs_key(p, c, w, stays(w), ends);
        assert forall|v: World| #[trigger] stays(w)(v) implies always(v) by {}
        assert forall|r: Result<Product, Fault>, v: World| #[trigger]
            ends(r, v) && stays(w)(v) implies finally(r, v) by {}
        law_weakening(begin(p, c), w, stays(w), ends, always, finally);
    }
}

/// A secret that is removed is gone, and the others are as they were. At every
/// point before the vault has the old secrets or these.
pub proof fn law_remove_removes(
    p: Places,
    m: Map<Seq<char>, Seq<char>>,
    name: Seq<char>,
    w: World,
)
    requires
        p == places_in(p.dir),
        secrets_in(p, w) == Some(m),
    ensures
        upholds(
            begin(p, Command::Remove(name)),
            w,
            has_old_or(p, w, m.remove(name)),
            then_has(p, m.remove(name)),
        ),
{
    let rest = m.remove(name);
    let always = has_old_or(p, w, rest);
    let finally = then_has(p, rest);
    let text = text_without(m, name);
    let just = keeps_store_whole(p, w, remove_text(p, name, w));
    let ends = ends_remove(p, name, w);
    law_remove(p, name, w);
    lemma_text_without(p, w, m, name);
    assert forall|v: World| #[trigger] just(v) implies always(v) by {
        if is_unsaved(p, w, v) {
            law_unsaved_is_as_before(p, w, v);
        } else {
            law_saved_is_found(p, w, text, v);
        }
    }
    assert forall|r: Result<Product, Fault>, v: World| #[trigger]
        ends(r, v) && just(v) implies finally(r, v) by {
        if r is Ok {
            law_saved_is_found(p, w, text, v);
        }
    }
    law_weakening(begin(p, Command::Remove(name)), w, just, ends, always, finally);
}

/// Whether some text was printed, or a file could not be read.
pub open spec fn ends_printing(value: Seq<char>, w: World) -> Finally {
    |r: Result<Product, Fault>, v: World|
        match r {
            Ok(_) => v == told(w, seq![output(value)]),
            Err(f) => v == w && is_read_fault(f),
        }
}

/// Whether all that can happen to `get` in a world is that it prints `value`,
/// or that a file cannot be read.
pub open spec fn gets(p: Places, name: Seq<char>, value: Seq<char>, w: World) -> bool {
    upholds(begin(p, Command::Get(name)), w, only_says(w), ends_printing(value, w))
}

/// Whether, if all went well, `get` prints `value`.
pub open spec fn then_gets(p: Places, name: Seq<char>, value: Seq<char>) -> Finally {
    |r: Result<Product, Fault>, v: World| r is Ok ==> gets(p, name, value, v)
}

/// What was added is what is got: after `add` has ended well, `get` prints the
/// value, unless a file cannot be read.
pub proof fn law_added_is_got(p: Places, name: Seq<char>, value: Seq<char>, w: World)
    requires
        p == places_in(p.dir),
    ensures
        upholds(
            begin(p, Command::Add(name, Some(value))),
            w,
            anything(),
            then_gets(p, name, value),
        ),
{
    let just = keeps_store_whole(p, w, add_text(p, name, value, w));
    let ends = ends_add(p, name, value, w);
    let finally = then_gets(p, name, value);
    law_add(p, name, value, w);
    assert forall|r: Result<Product, Fault>, v: World| #[trigger]
        ends(r, v) && just(v) implies finally(r, v) by {
        if r is Ok {
            let m = secrets_in(p, w)->Some_0;
            lemma_text_with(p, w, m, name, value);
            law_saved_is_found(p, w, text_with(m, name, value), v);
            assert(v.has(p.key));
            lemma_gets(p, name, value, v);
        }
    }
    law_weakening(
        begin(p, Command::Add(name, Some(value))),
        w,
        just,
        ends,
        anything(),
        finally,
    );
}

proof fn lemma_gets(p: Places, name: Seq<char>, value: Seq<char>, w: World)
    requires
        w.has(p.key),
        secrets_in(p, w) matches Some(m) && m.contains_key(name) && m[name] == value,
    ensures
        gets(p, name, value, w),
{
    let ends = ends_get(p, name, w);
    let finally = ends_printing(value, w);
    law_get(p, name, w);
    assert forall|r: Result<Product, Fault>, v: World| #[trigger]
        ends(r, v) && only_says(w)(v) implies finally(r, v) by {}
    law_weakening(begin(p, Command::Get(name)), w, only_says(w), ends, only_says(w), finally);
}

/// Whether a name was not known, or a file could not be read.
pub open spec fn ends_missing(name: Seq<char>) -> Finally {
    |r: Result<Product, Fault>, v: World|
        r matches Err(f) && (f == unknown_name(name) || is_read_fault(f))
}

/// Whether all that can happen to `get` in a world is that it does not know the
/// name, or that a file cannot be read.
pub open spec fn misses(p: Places, name: Seq<char>, w: World) -> bool {
    upholds(begin(p, Command::Get(name)), w, stays(w), ends_missing(name))
}

/// Whether, if all went well, `get` does not know the name.
pub open spec fn then_misses(p: Places, name: Seq<char>) -> Finally {
    |r: Result<Product, Fault>, v: World| r is Ok ==> misses(p, name, v)
}

/// What was removed is not got any more: after `remove` has ended well, `get`
/// does not know the name.
pub proof fn law_removed_is_missed(p: Places, name: Seq<char>, w: World)
    requires
        p == places_in(p.dir),
    ensures
        upholds(begin(p, Command::Remove(name)), w, anything(), then_misses(p, name)),
{
    let just = keeps_store_whole(p, w, remove_text(p, name, w));
    let ends = ends_remove(p, name, w);
    let finally = then_misses(p, name);
    law_remove(p, name, w);
    assert forall|r: Result<Product, Fault>, v: World| #[trigger]
        ends(r, v) && just(v) implies finally(r, v) by {
        if r is Ok {
            let m = secrets_in(p, w)->Some_0;
            lemma_text_without(p, w, m, name);
            law_saved_is_found(p, w, text_without(m, name), v);
            assert(v.has(p.key));
            lemma_misses(p, name, v);
        }
    }
    law_weakening(begin(p, Command::Remove(name)), w, just, ends, anything(), finally);
}

proof fn lemma_misses(p: Places, name: Seq<char>, w: World)
    requires
        w.has(p.key),
        secrets_in(p, w) matches Some(m) && !m.contains_key(name),
    ensures
        misses(p, name, w),
{
    let always = stays(w);
    let finally = ends_missing(name);
    lemma_load(p, Goal::Get(name), w, always, finally);
    lemma_needs_key(p, Command::Get(name), w, always, finally);
}

// What holds of every command.

/// Whether the key and the store, as far as they are there, are their owner's
/// alone.
pub open spec fn is_private(p: Places, w: World) -> bool {
    &&& w.files.contains_key(p.key) ==> w.private.contains(p.key)
    &&& w.files.contains_key(p.store) ==> w.private.contains(p.store)
}

/// Whether a key that was there is as it was, and the key and the store are
/// their owner's alone, if they were before.
pub open spec fn guards_files(p: Places, w: World) -> Always {
    |v: World|
        {
            &&& w.has(p.key) ==> same_file(w, v, p.key)
            &&& is_private(p, w) ==> is_private(p, v)
        }
}

/// However a command ends.
pub open spec fn anyhow() -> Finally {
    |r: Result<Product, Fault>, v: World| true
}

proof fn lemma_guards(p: Places, c: Command, w: World, just: Always, ends: Finally)
    requires
        upholds(begin(p, c), w, just, ends),
        forall|v: World| #[trigger] just(v) ==> guards_files(p, w)(v),
    ensures
        upholds(begin(p, c), w, guards_files(p, w), anyhow()),
{
    let finally = anyhow();
    assert forall|r: Result<Product, Fault>, v: World| #[trigger]
        ends(r, v) && just(v) implies finally(r, v) by {}
    law_weakening(begin(p, c), w, just, ends, guards_files(p, w), finally);
}

proof fn lemma_whole_guards(p: Places, w: World, text: Option<Seq<char>>, v: World)
    requires
        p == places_in(p.dir),
        keeps_store_whole(p, w, text)(v),
    ensures
        guards_files(p, w)(v),
{
    if is_unsaved(p, w, v) {
        law_unsaved_is_as_before(p, w, v);
    } else {
        law_saved_is_found(p, w, text->Some_0, v);
    }
}

/// No command ever changes a key that is there, at any point; and none leaves
/// the key or the store open to others than their owner, even for a moment. An
/// editor must leave the files of the vault alone.
pub proof fn law_files_are_guarded(p: Places, c: Command, w: World)
    requires
        p == places_in(p.dir),
        c is Edit ==> editor_spares(p, w),
    ensures
        upholds(begin(p, c), w, guards_files(p, w), anyhow()),
{
    let guards = guards_files(p, w);
    law_files_lie_apart(p.dir, w.process);
    match c {
        Command::Init => {
            law_init(p, w);
            let just = makes_vault(p, w);
            assert forall|v: World| #[trigger] just(v) implies guards(v) by {}
            lemma_guards(p, c, w, just, ends_init(p, w));
        },
        Command::Edit => {
            law_edit(p, w);
            let just = keeps_to_edit(p, w);
            assert forall|v: World| #[trigger] just(v) implies guards(v) by {
                if let Some(temp) = plain_text(w, v) {
                    let base = choose|base: Seq<u8>| temp == #[trigger] edit_path(base, w.process);
                    law_plain_text_lies_apart(p.dir, base, w.process, w.process);
                }
                assert(same_file(w, v, p.key));
            }
            lemma_guards(p, c, w, just, ends_edit(p, w));
        },
        Command::Add(name, Some(value)) => {
            law_add(p, name, value, w);
            let just = keeps_store_whole(p, w, add_text(p, name, value, w));
            assert forall|v: World| #[trigger] just(v) implies guards(v) by {
                lemma_whole_guards(p, w, add_text(p, name, value, w), v);
            }
            lemma_guards(p, c, w, just, ends_add(p, name, value, w));
        },
        Command::Add(name, None) => {
            law_add_asking(p, name, w);
            let just = keeps_store_whole_for_any(p, name, w);
            assert forall|v: World| #[trigger] just(v) implies guards(v) by {
                let value = choose|value: Seq<char>| #[trigger]
                    keeps_store_whole(p, w, add_text(p, name, value, w))(v);
                lemma_whole_guards(p, w, add_text(p, name, value, w), v);
            }
            lemma_guards(p, c, w, just, ends_ask(p, name, w));
        },
        Command::Get(name) => {
            law_get(p, name, w);
            assert forall|v: World| #[trigger] only_says(w)(v) implies guards(v) by {}
            lemma_guards(p, c, w, only_says(w), ends_get(p, name, w));
        },
        Command::List => {
            law_list(p, w);
            assert forall|v: World| #[trigger] only_says(w)(v) implies guards(v) by {}
            lemma_guards(p, c, w, only_says(w), ends_list(p, w));
        },
        Command::Remove(name) => {
            law_remove(p, name, w);
            let just = keeps_store_whole(p, w, remove_text(p, name, w));
            assert forall|v: World| #[trigger] just(v) implies guards(v) by {
                lemma_whole_guards(p, w, remove_text(p, name, w), v);
            }
            lemma_guards(p, c, w, just, ends_remove(p, name, w));
        },
        Command::Env => {
            law_env(p, w);
            assert forall|v: World| #[trigger] only_says(w)(v) implies guards(v) by {}
            lemma_guards(p, c, w, only_says(w), ends_env(p, w));
        },
        Command::Cat => {
            law_cat(p, w);
            assert forall|v: World| #[trigger] only_says(w)(v) implies guards(v) by {}
            lemma_guards(p, c, w, only_says(w), ends_cat(p, w));
        },
        Command::Verify(path) => {
            law_verify(p, path, w);
            assert forall|v: World| #[trigger] stays(w)(v) implies guards(v) by {}
            lemma_guards(p, c, w, stays(w), ends_verify(p, path, w));
        },
        Command::Export(passphrase) => {
            law_export(p, passphrase, w);
            assert forall|v: World| #[trigger] stays(w)(v) implies guards(v) by {}
            lemma_guards(p, c, w, stays(w), ends_export(p, passphrase, w));
        },
        Command::Import(file, passphrase) => {
            law_import(p, file, passphrase, w);
            let just = installs_key(p, w);
            assert forall|v: World| #[trigger] just(v) implies guards(v) by {
                assert(same_file(w, v, p.store));
            }
            lemma_guards(p, c, w, just, ends_import(p, file, passphrase, w));
        },
        Command::EnsureInit => {
            law_ensure_init(p, w);
            assert forall|v: World| #[trigger] stays(w)(v) implies guards(v) by {}
            lemma_guards(p, c, w, stays(w), ends_ensure_init(p, w));
        },
        Command::EnsureDir => {
            law_ensure_dir(p, w);
            let just = makes_dir(p, w);
            assert forall|v: World| #[trigger] just(v) implies guards(v) by {
                assert(only_dirs(p, w, v));
            }
            lemma_guards(p, c, w, just, ends_ensure_dir(p, w));
        },
    }
}

// What is printed.

/// What `env` prints sets the secrets: each line on the standard output names a
/// secret that is an environment variable's name, and a shell reads its value
/// from the word behind the `=`; and there is such a line for each of them.
pub proof fn law_env_sets_secrets(m: Map<Seq<char>, Seq<char>>)
    requires
        m.dom().finite(),
    ensures
        forall|i: int|
            #![trigger env_lines(listing(m))[i]]
            0 <= i < env_lines(listing(m)).len() && env_lines(listing(m))[i].0 == Stream::Output
                ==> exists|k: Seq<char>, q: Seq<char>| #[trigger]
                is_setting(m, k, q) && env_lines(listing(m))[i] == output(
                    "export "@ + k + "="@ + q,
                ),
        forall|k: Seq<char>| #[trigger]
            m.contains_key(k) && is_env_key(k) ==> exists|i: int, q: Seq<char>|
                #![trigger env_lines(listing(m))[i], is_setting(m, k, q)]
                0 <= i < env_lines(listing(m)).len() && is_setting(m, k, q) && env_lines(
                    listing(m),
                )[i] == output("export "@ + k + "="@ + q),
{
    let pairs = listing(m);
    law_listing(m);
    lemma_map_of(pairs);
    assert forall|i: int|
        #![trigger env_lines(pairs)[i]]
        0 <= i < env_lines(pairs).len() && env_lines(pairs)[i].0 == Stream::Output implies exists|
        k: Seq<char>,
        q: Seq<char>,
    | #[trigger]
        is_setting(m, k, q) && env_lines(pairs)[i] == output("export "@ + k + "="@ + q) by {
        let pair = pairs[i];
        law_quoting(pair.1);
        assert(is_setting(m, pair.0, quoted(pair.1)));
    }
    assert forall|k: Seq<char>| #[trigger] m.contains_key(k) && is_env_key(k) implies exists|
        i: int,
        q: Seq<char>,
    |
        #![trigger env_lines(pairs)[i], is_setting(m, k, q)]
        0 <= i < env_lines(pairs).len() && is_setting(m, k, q) && env_lines(pairs)[i] == output(
            "export "@ + k + "="@ + q,
        ) by {
        assert(map_of(pairs).contains_key(k));
        let i = choose|i: int| 0 <= i < pairs.len() && (#[trigger] pairs[i]).0 == k;
        let q = quoted(pairs[i].1);
        law_quoting(pairs[i].1);
        assert(is_setting(m, k, q));
        assert(env_lines(pairs)[i] == output("export "@ + k + "="@ + q));
    }
}

/// Whether `q` is a word from which a shell reads the value of a secret that is
/// an environment variable's name.
pub open spec fn is_setting(m: Map<Seq<char>, Seq<char>>, k: Seq<char>, q: Seq<char>) -> bool {
    m.contains_key(k) && is_env_key(k) && word(q) == Some(m[k])
}

/// What `list` prints tells nothing of the values: it is the same for any two
/// sets of secrets with the same names.
pub proof fn law_list_hides_values(m: Map<Seq<char>, Seq<char>>, n: Map<Seq<char>, Seq<char>>)
    requires
        m.dom().finite(),
        m.dom() == n.dom(),
    ensures
        list_lines(listing(m)) == list_lines(listing(n)),
{
    let a = listing(m);
    let b = listing(n);
    law_listing(m);
    law_listing(n);
    lemma_map_of(a);
    lemma_map_of(b);
    let c = Seq::new(a.len(), |i: int| (a[i].0, n[a[i].0]));
    assert(is_ascending(c)) by {
        assert forall|i: int, j: int|
            #![trigger c[i], c[j]]
            0 <= i < j < c.len() implies precedes(c[i].0, c[j].0) by {
            assert(precedes(a[i].0, a[j].0));
        }
    }
    lemma_map_of(c);
    assert forall|k: Seq<char>|
        #![trigger map_of(c).dom().contains(k)]
        #![trigger n.dom().contains(k)]
        map_of(c).dom().contains(k) == n.dom().contains(k) && (n.dom().contains(k) ==> map_of(c)[k]
            == n[k]) by {
        if map_of(c).contains_key(k) {
            let i = choose|i: int| 0 <= i < c.len() && (#[trigger] c[i]).0 == k;
            assert(map_of(a).contains_key(a[i].0));
        }
        if n.dom().contains(k) {
            assert(map_of(a).contains_key(k));
            let i = choose|i: int| 0 <= i < a.len() && (#[trigger] a[i]).0 == k;
            assert(c[i].0 == k);
        }
    }
    assert(map_of(c) =~= n);
    law_listing_is_unique(b, c);
    assert(list_lines(a) =~= list_lines(b));
}

} // verus!
