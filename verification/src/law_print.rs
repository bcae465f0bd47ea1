//! What the commands print, character by character, whatever the world answers.

use vstd::prelude::*;

use crate::command::{begin, env_line, env_lines, list_lines, notice, output, Command};
use crate::fault::{ErrorKind, Fault};
use crate::law_read::{
    cannot_load, ends_env, ends_get, ends_list, law_env, law_get, law_list, only_says, secrets_in,
};
use crate::law_text::{comes_before, is_shell_name, law_env_key, law_name_order};
use crate::law_write::{
    add_text, ends_add, ends_remove, keeps_store_whole, law_add, law_remove,
    law_secrets_are_storable, remove_text,
};
use crate::plan::{Product, Stream};
use crate::secrets::{law_listing, lemma_map_of, listing, map_of};
use crate::shell::quoted;
use crate::store::{places_in, Places};
use crate::text::precedes;
use crate::world::{law_weakening, upholds, Finally, World};

verus! {

/// How `get` prints: the whole value, an end of the line, and nothing else, on
/// the standard output. A name that has no value is what it says was not found.
pub open spec fn prints_value(p: Places, name: Seq<char>, w: World) -> Finally {
    |r: Result<Product, Fault>, v: World|
        match r {
            Ok(_) => {
                &&& secrets_in(p, w) matches Some(m)
                &&& m.contains_key(name)
                &&& v.said.len() == w.said.len() + 1
                &&& v.said.drop_last() == w.said
                &&& v.said.last().0 == Stream::Output
                &&& v.said.last().1.len() == m[name].len() + 1
                &&& forall|i: int|
                    0 <= i < m[name].len() ==> #[trigger] v.said.last().1[i] == m[name][i]
                &&& v.said.last().1[m[name].len() as int] == '\n'
            },
            Err(f) => {
                &&& v.said == w.said
                &&& w.has(p.key) && !cannot_load(p, w, f) ==> {
                    &&& secrets_in(p, w) matches Some(m)
                    &&& !m.contains_key(name)
                    &&& f.kind == ErrorKind::UnknownName
                    &&& f.chain == seq!["Key '"@ + name + "' not found"@]
                }
            },
        }
}

pub(crate) proof fn lemma_output(text: Seq<char>)
    ensures
        output(text) == (Stream::Output, text.push('\n')),
        notice(text) == (Stream::Notice, text.push('\n')),
{
    reveal_strlit("\n");
    assert(text + "\n"@ =~= text.push('\n'));
}

/// `get` prints the value as it is, however long it is, with one end of the
/// line behind it and nothing else, and no word on the standard error.
pub proof fn law_get_prints_the_value(p: Places, name: Seq<char>, w: World)
    ensures
        upholds(begin(p, Command::Get(name)), w, only_says(w), prints_value(p, name, w)),
{
    let ends = ends_get(p, name, w);
    let finally = prints_value(p, name, w);
    law_get(p, name, w);
    assert forall|r: Result<Product, Fault>, v: World| #[trigger]
        ends(r, v) && only_says(w)(v) implies finally(r, v) by {
        if r is Ok {
            let m = secrets_in(p, w)->Some_0;
            lemma_output(m[name]);
            assert(v.said =~= w.said.push(output(m[name])));
            assert(v.said.drop_last() =~= w.said);
        }
    }
    law_weakening(begin(p, Command::Get(name)), w, only_says(w), ends, only_says(w), finally);
}

/// Whether one of some lines is a name.
pub open spec fn has_line(lines: Seq<(Stream, Seq<char>)>, name: Seq<char>) -> bool {
    exists|i: int| 0 <= i < lines.len() && (#[trigger] lines[i]).1 == name.push('\n')
}

/// Whether some lines are the names of a map on the standard output: as many
/// lines as there are names, each a name with an end of the line, each name in
/// one of them, in the order of their characters.
pub open spec fn are_names(
    m: Map<Seq<char>, Seq<char>>,
    lines: Seq<(Stream, Seq<char>)>,
) -> bool {
    &&& lines.len() == m.len()
    &&& forall|i: int|
        #![trigger lines[i]]
        0 <= i < lines.len() ==> lines[i].0 == Stream::Output && lines[i].1.len() > 0
            && lines[i].1.last() == '\n' && m.contains_key(lines[i].1.drop_last())
    &&& forall|name: Seq<char>| m.contains_key(name) ==> #[trigger] has_line(lines, name)
    &&& forall|i: int, j: int|
        #![trigger lines[i], lines[j]]
        0 <= i < j < lines.len() ==> comes_before(lines[i].1.drop_last(), lines[j].1.drop_last())
}

/// Whether some names are those of a map, each once, in the order of their
/// characters.
pub open spec fn are_all_names(m: Map<Seq<char>, Seq<char>>, names: Seq<Seq<char>>) -> bool {
    &&& names.len() == m.len()
    &&& forall|i: int| 0 <= i < names.len() ==> m.contains_key(#[trigger] names[i])
    &&& forall|name: Seq<char>| #[trigger] m.contains_key(name) ==> names.contains(name)
    &&& forall|i: int, j: int|
        #![trigger names[i], names[j]]
        0 <= i < j < names.len() ==> comes_before(names[i], names[j])
}

spec fn names_of(m: Map<Seq<char>, Seq<char>>) -> Seq<Seq<char>> {
    Seq::new(listing(m).len(), |i: int| listing(m)[i].0)
}

proof fn lemma_names(m: Map<Seq<char>, Seq<char>>)
    requires
        m.dom().finite(),
    ensures
        are_all_names(m, names_of(m)),
        forall|i: int|
            #![trigger listing(m)[i]]
            0 <= i < listing(m).len() ==> m[listing(m)[i].0] == listing(m)[i].1,
{
    let pairs = listing(m);
    let names = names_of(m);
    law_listing(m);
    lemma_map_of(pairs);
    assert forall|i: int| 0 <= i < names.len() implies m.contains_key(#[trigger] names[i]) by {
        assert(map_of(pairs).contains_key(pairs[i].0));
    }
    assert forall|name: Seq<char>| #[trigger] m.contains_key(name) implies names.contains(
        name,
    ) by {
        assert(map_of(pairs).contains_key(name));
        let i = choose|i: int| 0 <= i < pairs.len() && (#[trigger] pairs[i]).0 == name;
        assert(names[i] == name);
    }
    assert forall|i: int, j: int|
        #![trigger names[i], names[j]]
        0 <= i < j < names.len() implies comes_before(names[i], names[j]) by {
        assert(precedes(pairs[i].0, pairs[j].0));
        law_name_order(pairs[i].0, pairs[j].0);
    }
}

proof fn lemma_are_names(
    m: Map<Seq<char>, Seq<char>>,
    names: Seq<Seq<char>>,
    lines: Seq<(Stream, Seq<char>)>,
)
    requires
        are_all_names(m, names),
        lines.len() == names.len(),
        forall|i: int|
            #![trigger lines[i]]
            0 <= i < lines.len() ==> lines[i] == (Stream::Output, names[i].push('\n')),
    ensures
        are_names(m, lines),
{
    assert forall|i: int| #![trigger lines[i]] 0 <= i < lines.len() implies lines[i].0
        == Stream::Output && lines[i].1.len() > 0 && lines[i].1.last() == '\n' && m.contains_key(
        lines[i].1.drop_last(),
    ) by {
        assert(lines[i].1.drop_last() =~= names[i]);
    }
    assert forall|name: Seq<char>| m.contains_key(name) implies #[trigger] has_line(
        lines,
        name,
    ) by {
        assert(names.contains(name));
        let i = choose|i: int| 0 <= i < names.len() && names[i] == name;
        assert(lines[i].1 == name.push('\n'));
    }
    assert forall|i: int, j: int|
        #![trigger lines[i], lines[j]]
        0 <= i < j < lines.len() implies comes_before(
        lines[i].1.drop_last(),
        lines[j].1.drop_last(),
    ) by {
        assert(lines[i].1.drop_last() =~= names[i]);
        assert(lines[j].1.drop_last() =~= names[j]);
        assert(comes_before(names[i], names[j]));
    }
}

/// `list` prints every name, once, on a line of its own, in the order of their
/// characters, and nothing else, however many there are.
pub proof fn law_list_names_all(m: Map<Seq<char>, Seq<char>>)
    requires
        m.dom().finite(),
        m.len() > 0,
    ensures
        are_names(m, list_lines(listing(m))),
{
    let names = names_of(m);
    let lines = list_lines(listing(m));
    lemma_names(m);
    assert forall|i: int| #![trigger lines[i]] 0 <= i < lines.len() implies lines[i] == (
        Stream::Output,
        names[i].push('\n'),
    ) by {
        lemma_output(names[i]);
    }
    lemma_are_names(m, names, lines);
}

/// How `list` prints: the names, and where there are none, a word on the
/// standard error.
pub open spec fn prints_names(p: Places, w: World) -> Finally {
    |r: Result<Product, Fault>, v: World|
        match r {
            Ok(_) => {
                &&& secrets_in(p, w) matches Some(m)
                &&& v.said.len() >= w.said.len()
                &&& v.said.take(w.said.len() as int) == w.said
                &&& if m.len() == 0 {
                    v.said.skip(w.said.len() as int) == seq![
                        (
                            Stream::Notice,
                            "No secrets stored. Use `vault add` or `vault edit`."@ + seq!['\n'],
                        ),
                    ]
                } else {
                    are_names(m, v.said.skip(w.said.len() as int))
                }
            },
            Err(_) => v.said == w.said,
        }
}

/// What `list` prints is every name of the vault, and no value; where there is
/// none, it says so on the standard error.
pub proof fn law_list_prints_the_names(p: Places, w: World)
    ensures
        upholds(begin(p, Command::List), w, only_says(w), prints_names(p, w)),
{
    let ends = ends_list(p, w);
    let finally = prints_names(p, w);
    law_list(p, w);
    law_secrets_are_storable(p, w);
    assert forall|r: Result<Product, Fault>, v: World| #[trigger]
        ends(r, v) && only_says(w)(v) implies finally(r, v) by {
        if r is Ok {
            let m = secrets_in(p, w)->Some_0;
            let pairs = listing(m);
            law_listing(m);
            lemma_map_of(pairs);
            assert(v.said.take(w.said.len() as int) =~= w.said);
            assert(v.said.skip(w.said.len() as int) =~= list_lines(pairs));
            if m.len() == 0 {
                let words = "No secrets stored. Use `vault add` or `vault edit`."@;
                lemma_output(words);
                assert(words.push('\n') =~= words + seq!['\n']);
            } else {
                law_list_names_all(m);
            }
        }
    }
    law_weakening(begin(p, Command::List), w, only_says(w), ends, only_says(w), finally);
}

/// Whether a line is what `env` prints for a secret: a name of letters, digits
/// and underscores that starts with no digit is exported with its value, as a
/// shell reads it; any other is left out, and that is said.
pub open spec fn is_line_for(
    m: Map<Seq<char>, Seq<char>>,
    name: Seq<char>,
    line: (Stream, Seq<char>),
) -> bool {
    &&& m.contains_key(name)
    &&& if is_shell_name(name) {
        line == (
            Stream::Output,
            "export "@ + name + "="@ + quoted(m[name]) + seq!['\n'],
        )
    } else {
        line == (
            Stream::Notice,
            "⚠ Skipping '"@ + name + "' — not a valid environment variable name"@ + seq!['\n'],
        )
    }
}

/// Whether some lines are what `env` prints for the secrets of a map: as many
/// lines as there are secrets, each for one of them, one for each of them, in
/// the order of the names.
pub open spec fn are_settings(
    m: Map<Seq<char>, Seq<char>>,
    lines: Seq<(Stream, Seq<char>)>,
) -> bool {
    exists|names: Seq<Seq<char>>| #[trigger]
        are_all_names(m, names) && names.len() == lines.len() && forall|i: int|
            #![trigger lines[i]]
            0 <= i < lines.len() ==> is_line_for(m, names[i], lines[i])
}

/// `env` prints a line for every secret, however many there are and however
/// long their names and values are.
pub proof fn law_env_lines_all(m: Map<Seq<char>, Seq<char>>)
    requires
        m.dom().finite(),
    ensures
        are_settings(m, env_lines(listing(m))),
{
    let pairs = listing(m);
    let lines = env_lines(pairs);
    let names = names_of(m);
    lemma_names(m);
    assert forall|i: int| #![trigger lines[i]] 0 <= i < lines.len() implies is_line_for(
        m,
        names[i],
        lines[i],
    ) by {
        let pair = pairs[i];
        assert(m[pair.0] == pair.1);
        assert(m.contains_key(names[i]));
        law_env_key(pair.0);
        let set = "export "@ + pair.0 + "="@ + quoted(pair.1);
        let skip = "⚠ Skipping '"@ + pair.0 + "' — not a valid environment variable name"@;
        lemma_output(set);
        lemma_output(skip);
        assert(set.push('\n') =~= set + seq!['\n']);
        assert(skip.push('\n') =~= skip + seq!['\n']);
        assert(lines[i] == env_line(pair));
    }
}

/// How `env` prints: a line for every secret, and nothing where there is no
/// store.
pub open spec fn prints_settings(p: Places, w: World) -> Finally {
    |r: Result<Product, Fault>, v: World|
        match r {
            Ok(_) => if w.has(p.store) {
                &&& secrets_in(p, w) matches Some(m)
                &&& v.said.len() >= w.said.len()
                &&& v.said.take(w.said.len() as int) == w.said
                &&& are_settings(m, v.said.skip(w.said.len() as int))
            } else {
                v.said == w.said
            },
            Err(_) => v.said == w.said,
        }
}

/// What `env` prints is a line for every secret of the vault: each name that is
/// letters, digits and underscores, and starts with no digit, is exported with
/// its value, and each other one is reported.
pub proof fn law_env_prints_the_settings(p: Places, w: World)
    ensures
        upholds(begin(p, Command::Env), w, only_says(w), prints_settings(p, w)),
{
    let ends = ends_env(p, w);
    let finally = prints_settings(p, w);
    law_env(p, w);
    law_secrets_are_storable(p, w);
    assert forall|r: Result<Product, Fault>, v: World| #[trigger]
        ends(r, v) && only_says(w)(v) implies finally(r, v) by {
        if r is Ok && w.has(p.store) {
            let m = secrets_in(p, w)->Some_0;
            law_env_lines_all(m);
            assert(v.said.take(w.said.len() as int) =~= w.said);
            assert(v.said.skip(w.said.len() as int) =~= env_lines(listing(m)));
        }
    }
    law_weakening(begin(p, Command::Env), w, only_says(w), ends, only_says(w), finally);
}

/// Whether, if all went well, one word was said of a name, which tells an
/// addition from a change; and else nothing.
pub open spec fn says_added(p: Places, name: Seq<char>, w: World) -> Finally {
    |r: Result<Product, Fault>, v: World|
        match r {
            Ok(_) => {
                &&& secrets_in(p, w) matches Some(m)
                &&& v.said == w.said.push(
                    (
                        Stream::Notice,
                        (if m.contains_key(name) {
                            "✓ Updated '"@
                        } else {
                            "✓ Added '"@
                        }) + name + "'"@ + seq!['\n'],
                    ),
                )
            },
            Err(_) => v.said == w.said,
        }
}

/// `add` says that the name was added, or changed where it had a value; where
/// it fails it says nothing.
pub proof fn law_add_says(p: Places, name: Seq<char>, value: Seq<char>, w: World)
    requires
        p == places_in(p.dir),
    ensures
        upholds(
            begin(p, Command::Add(name, Some(value))),
            w,
            keeps_store_whole(p, w, add_text(p, name, value, w)),
            says_added(p, name, w),
        ),
{
    let just = keeps_store_whole(p, w, add_text(p, name, value, w));
    let ends = ends_add(p, name, value, w);
    let finally = says_added(p, name, w);
    law_add(p, name, value, w);
    assert forall|r: Result<Product, Fault>, v: World| #[trigger]
        ends(r, v) && just(v) implies finally(r, v) by {
        if r is Ok {
            let m = secrets_in(p, w)->Some_0;
            let words = (if m.contains_key(name) {
                "✓ Updated '"@
            } else {
                "✓ Added '"@
            }) + name + "'"@;
            lemma_output(words);
            assert(words.push('\n') =~= words + seq!['\n']);
            assert(v.said =~= w.said.push(notice(words)));
        }
    }
    law_weakening(begin(p, Command::Add(name, Some(value))), w, just, ends, just, finally);
}

/// Whether, if all went well, one word was said of a name that was removed; and
/// else nothing.
pub open spec fn says_removed(name: Seq<char>, w: World) -> Finally {
    |r: Result<Product, Fault>, v: World|
        match r {
            Ok(_) => v.said == w.said.push(
                (Stream::Notice, "✓ Removed '"@ + name + "'"@ + seq!['\n']),
            ),
            Err(_) => v.said == w.said,
        }
}

/// `remove` says that the name was removed; where it fails it says nothing.
pub proof fn law_remove_says(p: Places, name: Seq<char>, w: World)
    requires
        p == places_in(p.dir),
    ensures
        upholds(
            begin(p, Command::Remove(name)),
            w,
            keeps_store_whole(p, w, remove_text(p, name, w)),
            says_removed(name, w),
        ),
{
    let just = keeps_store_whole(p, w, remove_text(p, name, w));
    let ends = ends_remove(p, name, w);
    let finally = says_removed(name, w);
    law_remove(p, name, w);
    assert forall|r: Result<Product, Fault>, v: World| #[trigger]
        ends(r, v) && just(v) implies finally(r, v) by {
        if r is Ok {
            let words = "✓ Removed '"@ + name + "'"@;
            lemma_output(words);
            assert(words.push('\n') =~= words + seq!['\n']);
            assert(v.said =~= w.said.push(notice(words)));
        }
    }
    law_weakening(begin(p, Command::Remove(name)), w, just, ends, just, finally);
}

} // verus!
