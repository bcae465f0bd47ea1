//! What texts mean, character by character: lines, white space, the text of a
//! store, and the words of a shell.

use vstd::prelude::*;

use crate::format::{
    body, dropped_in, header, hint, is_content, is_dropped, is_storable_value, lemma_lines_of_sum,
    lemma_one_line, line_for, pair_of, pairs_of, parsed, serialized,
};
use crate::secrets::{is_ascending, law_listing, lemma_listing, lemma_map_of, listing, map_of, Pair};
use crate::shell::{escaped, is_digit, is_env_key, is_letter, is_plain, quoted, single_quoted};
use crate::text::{
    decimal, is_control_code, is_trimmed, is_white, law_trim, lemma_first_index, lines, precedes,
    split_once, strip_return, trim,
};

verus! {

// Lines and white space.

/// Whether there is nothing but white space in a text, and no end of a line.
pub open spec fn is_blank(s: Seq<char>) -> bool {
    forall|i: int| 0 <= i < s.len() ==> is_white(#[trigger] s[i]) && s[i] != '\n'
}

/// Whether a text is the start of another one that stops between two lines.
pub open spec fn is_whole(s: Seq<char>) -> bool {
    s.len() == 0 || s[s.len() - 1] == '\n'
}

/// The characters that are white space, and those that are control codes.
pub proof fn law_white_space(c: char)
    ensures
        is_white(c) <==> {
            let n = c as int;
            ||| 9 <= n <= 13 || n == 32 || n == 133 || n == 160 || n == 5760
            ||| 8192 <= n <= 8202 || n == 8232 || n == 8233 || n == 8239 || n == 8287
            ||| n == 12288
        },
        is_control_code(c) <==> c as int <= 31 || 127 <= c as int <= 159,
{
}

/// How a text parts into lines: an empty one has none; one without an end of a
/// line is one line; and what stands before the first end of a line is the
/// first line, without a carriage return at its end, however long it is and
/// whatever follows.
pub proof fn law_lines(l: Seq<char>, rest: Seq<char>)
    requires
        !l.contains('\n'),
    ensures
        lines(Seq::<char>::empty()).len() == 0,
        l.len() > 0 ==> lines(l) == seq![l],
        l.len() > 0 && l[l.len() - 1] == '\r' ==> lines(l + seq!['\n'] + rest) == seq![
            l.take(l.len() - 1),
        ] + lines(rest),
        l.len() == 0 || l[l.len() - 1] != '\r' ==> lines(l + seq!['\n'] + rest) == seq![l] + lines(
            rest,
        ),
{
    lemma_one_line(l);
    lemma_lines_of_sum(l + seq!['\n'], rest);
    l.index_of_first_ensures('\n');
    if l.len() > 0 {
        assert(l.take(l.len() - 1) =~= l.drop_last());
    }
}

proof fn lemma_trim_unique(s: Seq<char>, i: int, j: int)
    requires
        0 <= i <= j <= s.len(),
        forall|k: int| 0 <= k < i || j <= k < s.len() ==> is_white(#[trigger] s[k]),
        is_trimmed(s.subrange(i, j)),
    ensures
        trim(s) == s.subrange(i, j),
{
    law_trim(s);
    let (a, b) = choose|a: int, b: int|
        #![trigger s.subrange(a, b)]
        {
            &&& 0 <= a <= b <= s.len()
            &&& trim(s) == s.subrange(a, b)
            &&& forall|k: int| 0 <= k < a || b <= k < s.len() ==> is_white(s[k])
        };
    let t = s.subrange(a, b);
    let u = s.subrange(i, j);
    if a < b {
        assert(t[0] == s[a]);
        assert(t[b - a - 1] == s[b - 1]);
    }
    if i < j {
        assert(u[0] == s[i]);
        assert(u[j - i - 1] == s[j - 1]);
    }
    assert(t =~= u);
}

/// Trimming takes off the white space at both ends, however much there is, and
/// nothing else.
pub proof fn law_trimming(a: Seq<char>, t: Seq<char>, b: Seq<char>)
    requires
        forall|i: int| 0 <= i < a.len() ==> is_white(#[trigger] a[i]),
        forall|i: int| 0 <= i < b.len() ==> is_white(#[trigger] b[i]),
        t.len() > 0 ==> !is_white(t[0]) && !is_white(t[t.len() - 1]),
    ensures
        trim(a + t + b) == t,
{
    let s = a + t + b;
    let i = a.len() as int;
    let j = i + t.len();
    assert(s.subrange(i, j) =~= t);
    assert forall|k: int| 0 <= k < i || j <= k < s.len() implies is_white(#[trigger] s[k]) by {
        if k < i {
            assert(s[k] == a[k]);
        } else {
            assert(s[k] == b[k - j]);
        }
    }
    lemma_trim_unique(s, i, j);
}

proof fn lemma_strip_return_trims(l: Seq<char>)
    ensures
        trim(strip_return(l)) == trim(l),
        pair_of(strip_return(l)) == pair_of(l),
        is_content(strip_return(l)) == is_content(l),
{
    if l.len() > 0 && l.last() == '\r' {
        let s = l.drop_last();
        law_trim(s);
        let (a, b) = choose|a: int, b: int|
            #![trigger s.subrange(a, b)]
            {
                &&& 0 <= a <= b <= s.len()
                &&& trim(s) == s.subrange(a, b)
                &&& forall|k: int| 0 <= k < a || b <= k < s.len() ==> is_white(s[k])
            };
        assert(l.subrange(a, b) =~= s.subrange(a, b));
        assert forall|k: int| 0 <= k < a || b <= k < l.len() implies is_white(#[trigger] l[k]) by {
            if k < s.len() {
                assert(l[k] == s[k]);
            }
        }
        lemma_trim_unique(l, a, b);
    }
}

// The text of a store.

proof fn lemma_last_line(a: Seq<char>, l: Seq<char>)
    requires
        is_whole(a),
        !l.contains('\n'),
    ensures
        pair_of(l) matches Some(p) ==> parsed(a + l) == parsed(a).insert(p.0, p.1) && parsed(
            a + l + seq!['\n'],
        ) == parsed(a).insert(p.0, p.1),
        pair_of(l) is None ==> parsed(a + l) == parsed(a) && parsed(a + l + seq!['\n']) == parsed(
            a,
        ),
        dropped_in(lines(a + l)) == dropped_in(lines(a)) + if is_dropped(l) {
            1int
        } else {
            0
        },
        dropped_in(lines(a + l + seq!['\n'])) == dropped_in(lines(a)) + if is_dropped(l) {
            1int
        } else {
            0
        },
{
    let none = Seq::<Seq<char>>::empty();
    let m = strip_return(l);
    lemma_strip_return_trims(l);
    lemma_lines_of_sum(a, l);
    lemma_lines_of_sum(a, l + seq!['\n']);
    assert(a + l + seq!['\n'] =~= a + (l + seq!['\n']));
    lemma_one_line(l);
    law_lines(l, Seq::empty());
    let before = lines(a);
    assert((before + seq![m]).drop_last() =~= before);
    assert((before + seq![m]).last() == m);
    if l.len() > 0 {
        assert((before + seq![l]).drop_last() =~= before);
        assert((before + seq![l]).last() == l);
    } else {
        assert(l =~= Seq::<char>::empty());
        assert(a + l =~= a);
        law_trim(l);
        assert(trim(l).len() == 0);
    }
    if let Some(p) = pair_of(l) {
        let pairs = pairs_of(before).push(p);
        assert(pairs.drop_last() =~= pairs_of(before));
    }
}

/// A text without lines holds no secrets.
pub proof fn law_no_lines()
    ensures
        parsed(Seq::empty()) == Map::<Seq<char>, Seq<char>>::empty(),
        dropped_in(lines(Seq::empty())) == 0,
{
    assert(lines(Seq::<char>::empty()) =~= Seq::empty());
    assert(pairs_of(lines(Seq::<char>::empty())) =~= Seq::empty());
}

/// A line `KEY=value` gives the name the value, in place of the one that it may
/// have had, and changes no other secret. White space at the start and the end
/// of the line and around the first `=` does not count; how long the name and
/// the value are does not matter, nor does what characters there are in the
/// value. The line may be the last one, without an end.
pub proof fn law_secret_line(
    a: Seq<char>,
    x: (Seq<char>, Seq<char>, Seq<char>, Seq<char>),
    name: Seq<char>,
    value: Seq<char>,
)
    requires
        is_whole(a),
        is_blank(x.0) && is_blank(x.1) && is_blank(x.2) && is_blank(x.3),
        name.len() > 0 && name[0] != '#',
        !is_white(name[0]) && !is_white(name[name.len() - 1]),
        !name.contains('=') && !name.contains('\n'),
        value.len() > 0 ==> !is_white(value[0]) && !is_white(value[value.len() - 1]),
        !value.contains('\n'),
    ensures
        ({
            let line = x.0 + name + x.1 + seq!['='] + x.2 + value + x.3;
            &&& parsed(a + line) == parsed(a).insert(name, value)
            &&& parsed(a + line + seq!['\n']) == parsed(a).insert(name, value)
            &&& dropped_in(lines(a + line)) == dropped_in(lines(a))
            &&& dropped_in(lines(a + line + seq!['\n'])) == dropped_in(lines(a))
        }),
{
    let line = x.0 + name + x.1 + seq!['='] + x.2 + value + x.3;
    let (p0, p1) = (x.0.len() as int, (x.0.len() + name.len()) as int);
    let p2 = p1 + x.1.len();
    let p3 = p2 + 1 + x.2.len();
    let p4 = p3 + value.len();
    assert forall|k: int| 0 <= k < line.len() implies line[k] != '\n' by {
        if k < p0 {
            assert(line[k] == x.0[k]);
        } else if k < p1 {
            assert(line[k] == name[k - p0]);
        } else if k < p2 {
            assert(line[k] == x.1[k - p1]);
        } else if p2 < k < p3 {
            assert(line[k] == x.2[k - p2 - 1]);
        } else if p3 <= k < p4 {
            assert(line[k] == value[k - p3]);
        } else if p4 <= k {
            assert(line[k] == x.3[k - p4]);
        }
    }
    let end = if value.len() > 0 {
        p4
    } else {
        p2 + 1
    };
    let t = line.subrange(p0, end);
    assert(t[0] == name[0]);
    assert(t[t.len() - 1] == line[end - 1]);
    if value.len() > 0 {
        assert(line[end - 1] == value[value.len() - 1]);
    } else {
        assert(line[end - 1] == '=');
    }
    assert forall|k: int| 0 <= k < p0 || end <= k < line.len() implies is_white(
        #[trigger] line[k],
    ) by {
        if k < p0 {
            assert(line[k] == x.0[k]);
        } else if k < p3 {
            assert(line[k] == x.2[k - p2 - 1]);
        } else {
            assert(line[k] == x.3[k - p4]);
        }
    }
    lemma_trim_unique(line, p0, end);
    let q = p2 - p0;
    assert(t[q] == line[p2] && line[p2] == '=');
    assert forall|k: int| 0 <= k < q implies t[k] != '=' by {
        assert(t[k] == line[p0 + k]);
        if k < name.len() {
            assert(line[p0 + k] == name[k]);
        } else {
            assert(line[p0 + k] == x.1[p0 + k - p1]);
        }
    }
    lemma_first_index(t, '=', q);
    let none = Seq::<char>::empty();
    assert(t.take(q) =~= none + name + x.1);
    law_trimming(none, name, x.1);
    if value.len() > 0 {
        assert(t.skip(q + 1) =~= x.2 + value + none);
        law_trimming(x.2, value, none);
    } else {
        assert(t.skip(q + 1) =~= none + none + none);
        law_trimming(none, none, none);
        assert(value =~= none);
    }
    assert(split_once(t, '=') == Some((t.take(q), t.skip(q + 1))));
    assert(pair_of(line) == Some((name, value)));
    lemma_last_line(a, line);
}

/// A line that is blank, or whose first character but for white space is `#`,
/// changes no secret and is not counted, however long it is.
pub proof fn law_comment_line(a: Seq<char>, x: Seq<char>, comment: Seq<char>)
    requires
        is_whole(a),
        is_blank(x),
        comment.len() > 0 ==> comment[0] == '#',
        !comment.contains('\n'),
    ensures
        parsed(a + (x + comment)) == parsed(a),
        parsed(a + (x + comment) + seq!['\n']) == parsed(a),
        dropped_in(lines(a + (x + comment))) == dropped_in(lines(a)),
        dropped_in(lines(a + (x + comment) + seq!['\n'])) == dropped_in(lines(a)),
{
    let line = x + comment;
    let n = x.len() as int;
    assert forall|k: int| 0 <= k < line.len() implies line[k] != '\n' by {
        if k < n {
            assert(line[k] == x[k]);
        } else {
            assert(line[k] == comment[k - n]);
        }
    }
    lemma_first_kept(x, comment);
    lemma_last_line(a, line);
}

proof fn lemma_first_kept(x: Seq<char>, rest: Seq<char>)
    requires
        is_blank(x),
        rest.len() > 0 ==> !is_white(rest[0]),
    ensures
        rest.len() == 0 ==> trim(x + rest).len() == 0,
        rest.len() > 0 ==> trim(x + rest).len() > 0 && trim(x + rest)[0] == rest[0],
        forall|c: char|
            #![trigger trim(x + rest).contains(c)]
            trim(x + rest).contains(c) ==> rest.contains(c),
{
    let s = x + rest;
    law_trim(s);
    let (a, b) = choose|a: int, b: int|
        #![trigger s.subrange(a, b)]
        {
            &&& 0 <= a <= b <= s.len()
            &&& trim(s) == s.subrange(a, b)
            &&& forall|k: int| 0 <= k < a || b <= k < s.len() ==> is_white(s[k])
        };
    let t = s.subrange(a, b);
    let n = x.len() as int;
    if a < b {
        assert(t[0] == s[a]);
        if a < n {
            assert(s[a] == x[a]);
        }
    }
    if rest.len() > 0 {
        assert(s[n] == rest[0]);
    }
    assert forall|c: char| #![trigger t.contains(c)] t.contains(c) implies rest.contains(c) by {
        let k = choose|k: int| 0 <= k < t.len() && t[k] == c;
        assert(t[k] == s[a + k]);
        assert(s[a + k] == rest[a + k - n]);
    }
}

/// A line that is neither blank nor a comment and has no `=`, or nothing but
/// white space before its first `=`, changes no secret and is counted as
/// dropped, however long it is.
pub proof fn law_dropped_line(a: Seq<char>, x: Seq<char>, rest: Seq<char>)
    requires
        is_whole(a),
        is_blank(x),
        rest.len() > 0 && !is_white(rest[0]) && rest[0] != '#',
        rest[0] == '=' || !rest.contains('='),
        !rest.contains('\n'),
    ensures
        parsed(a + (x + rest)) == parsed(a),
        parsed(a + (x + rest) + seq!['\n']) == parsed(a),
        dropped_in(lines(a + (x + rest))) == dropped_in(lines(a)) + 1,
        dropped_in(lines(a + (x + rest) + seq!['\n'])) == dropped_in(lines(a)) + 1,
{
    let line = x + rest;
    let n = x.len() as int;
    assert forall|k: int| 0 <= k < line.len() implies line[k] != '\n' by {
        if k < n {
            assert(line[k] == x[k]);
        } else {
            assert(line[k] == rest[k - n]);
        }
    }
    lemma_first_kept(x, rest);
    let t = trim(line);
    t.index_of_first_ensures('=');
    if rest[0] == '=' {
        lemma_first_index(t, '=', 0);
        let none = Seq::<char>::empty();
        assert(t.take(0) =~= none + none + none);
        law_trimming(none, none, none);
    } else {
        assert(!t.contains('='));
    }
    assert(pair_of(line) is None);
    lemma_last_line(a, line);
}

// The order of names.

/// Whether a text comes before another one in the order of their characters:
/// they agree up to some place, and there the first one ends or has the smaller
/// character.
pub open spec fn comes_before(a: Seq<char>, b: Seq<char>) -> bool {
    exists|k: int|
        {
            &&& 0 <= k <= a.len() && k < b.len()
            &&& #[trigger] a.take(k) == b.take(k)
            &&& k == a.len() || a[k] < b[k]
        }
}

/// The order of names is that of their characters, place by place.
pub proof fn law_name_order(a: Seq<char>, b: Seq<char>)
    ensures
        precedes(a, b) <==> comes_before(a, b),
    decreases a.len(),
{
    if a.len() == 0 {
        if b.len() > 0 {
            assert(a.take(0) =~= b.take(0));
        }
    } else if b.len() > 0 {
        let (c, d) = (a.drop_first(), b.drop_first());
        law_name_order(c, d);
        if precedes(a, b) {
            if a[0] < b[0] {
                assert(a.take(0) =~= b.take(0));
            } else {
                let k = choose|k: int|
                    {
                        &&& 0 <= k <= c.len() && k < d.len()
                        &&& #[trigger] c.take(k) == d.take(k)
                        &&& k == c.len() || c[k] < d[k]
                    };
                assert(a.take(k + 1) =~= seq![a[0]] + c.take(k));
                assert(b.take(k + 1) =~= seq![b[0]] + d.take(k));
                assert(a.take(k + 1) == b.take(k + 1));
            }
        }
        if comes_before(a, b) {
            let k = choose|k: int|
                {
                    &&& 0 <= k <= a.len() && k < b.len()
                    &&& #[trigger] a.take(k) == b.take(k)
                    &&& k == a.len() || a[k] < b[k]
                };
            if k > 0 {
                assert(a[0] == a.take(k)[0]);
                assert(b[0] == b.take(k)[0]);
                assert(c.take(k - 1) =~= a.take(k).drop_first());
                assert(d.take(k - 1) =~= b.take(k).drop_first());
                assert(comes_before(c, d));
            }
        }
    }
}

/// Whether a name is the last one of a map.
pub open spec fn is_last(m: Map<Seq<char>, Seq<char>>, name: Seq<char>) -> bool {
    &&& m.contains_key(name)
    &&& forall|k: Seq<char>| #[trigger] m.contains_key(k) && k != name ==> comes_before(k, name)
}

proof fn lemma_last(m: Map<Seq<char>, Seq<char>>, name: Seq<char>)
    requires
        m.dom().finite(),
        is_last(m, name),
    ensures
        listing(m) == listing(m.remove(name)).push((name, m[name])),
        listing(m.remove(name)).len() == m.len() - 1,
{
    let rest = m.remove(name);
    let a = listing(rest);
    law_listing(rest);
    lemma_map_of(a);
    let all = a.push((name, m[name]));
    assert(all.drop_last() =~= a);
    assert(map_of(all) =~= m);
    assert(is_ascending(all)) by {
        assert forall|i: int, j: int|
            #![trigger all[i], all[j]]
            0 <= i < j < all.len() implies precedes(all[i].0, all[j].0) by {
            if j < a.len() {
                assert(precedes(a[i].0, a[j].0));
            } else {
                assert(map_of(a).contains_key(a[i].0));
                assert(m.contains_key(a[i].0));
                law_name_order(a[i].0, name);
            }
        }
    }
    lemma_listing(all);
}

/// What the text of a store is: the comment at its top, and behind it, in the
/// order of the names, a line for each secret with its whole name, `=`, and its
/// whole value. One without secrets has a hint in their place.
pub proof fn law_store_text(m: Map<Seq<char>, Seq<char>>, name: Seq<char>)
    requires
        m.dom().finite(),
        is_last(m, name),
    ensures
        serialized(listing(Map::empty()))
            == "# Vault secrets — edit this file, save to encrypt.\n"@
            + "# Format: KEY=value  (one per line, lines starting with # are ignored)\n\n"@
            + "# No secrets yet. Add lines like:\n"@ + "# OPENAI_API_KEY=sk-...\n"@,
        m.len() == 1 ==> serialized(listing(m))
            == "# Vault secrets — edit this file, save to encrypt.\n"@
            + "# Format: KEY=value  (one per line, lines starting with # are ignored)\n\n"@ + name
            + seq!['='] + m[name] + seq!['\n'],
        m.len() > 1 ==> serialized(listing(m)) == serialized(listing(m.remove(name))) + name
            + seq!['='] + m[name] + seq!['\n'],
{
    let none = Seq::<Pair>::empty();
    lemma_listing(none);
    assert(map_of(none) == Map::<Seq<char>, Seq<char>>::empty());
    assert(serialized(none) =~= header() + hint());
    assert(header() + hint() =~= "# Vault secrets — edit this file, save to encrypt.\n"@
        + "# Format: KEY=value  (one per line, lines starting with # are ignored)\n\n"@
        + "# No secrets yet. Add lines like:\n"@ + "# OPENAI_API_KEY=sk-...\n"@);
    lemma_last(m, name);
    let a = listing(m.remove(name));
    let all = listing(m);
    assert(all.drop_last() =~= a);
    assert(body(all) == body(a) + line_for((name, m[name])));
    if m.len() == 1 {
        assert(body(a) =~= Seq::empty());
    }
    assert(serialized(all) =~= header() + body(a) + name + seq!['='] + m[name] + seq!['\n']);
}

// What can be stored.

/// A value can be stored just where it is a single line without white space at
/// its ends, however long it is.
pub proof fn law_storable_value(value: Seq<char>)
    ensures
        is_storable_value(value) <==> !value.contains('\n') && (value.len() == 0 || !is_white(
            value[0],
        ) && !is_white(value[value.len() - 1])),
{
}

// The words of a shell.

/// Whether a character is a letter of ASCII, a digit or an underscore.
pub open spec fn is_name_char(c: char) -> bool {
    'a' <= c <= 'z' || 'A' <= c <= 'Z' || '0' <= c <= '9' || c == '_'
}

/// Whether a text is one or more letters of ASCII, digits and underscores, and
/// the first one is no digit.
pub open spec fn is_shell_name(name: Seq<char>) -> bool {
    &&& name.len() > 0 && !('0' <= name[0] <= '9')
    &&& forall|i: int| 0 <= i < name.len() ==> is_name_char(#[trigger] name[i])
}

/// A name is that of an environment variable just where it is one or more
/// letters of ASCII, digits and underscores, and the first one is no digit,
/// however long it is.
pub proof fn law_env_key(name: Seq<char>)
    ensures
        is_env_key(name) <==> is_shell_name(name),
{
    if is_shell_name(name) {
        assert forall|i: int|
            #![trigger name[i]]
            0 <= i < name.len() implies is_letter(name[i]) || is_digit(
            name[i],
        ) || name[i] == '_' by {
            assert(is_name_char(name[i]));
        }
    }
}

/// Whether a character means nothing to a shell.
pub open spec fn is_safe_char(c: char) -> bool {
    ||| 'a' <= c <= 'z'
    ||| 'A' <= c <= 'Z'
    ||| '0' <= c <= '9'
    ||| c == '_' || c == '-' || c == '.' || c == '/' || c == ':' || c == '+' || c == '@'
}

/// How a value is written for a shell: as it is, if it is not empty and no
/// character in it means anything to a shell; else between single quotes, where
/// each character stands for itself, but for a single quote, which closes them,
/// stands behind a backslash, and opens them again. However long it is, none of
/// it is lost: it is written piece by piece.
pub proof fn law_written_for_shell(s: Seq<char>, t: Seq<char>, c: char)
    ensures
        s.len() > 0 && (forall|i: int| 0 <= i < s.len() ==> is_safe_char(#[trigger] s[i]))
            ==> quoted(s) == s,
        s.len() == 0 || (exists|i: int| 0 <= i < s.len() && !is_safe_char(#[trigger] s[i]))
            ==> quoted(s) == seq!['\''] + escaped(s) + seq!['\''],
        single_quoted(s) == seq!['\''] + escaped(s) + seq!['\''],
        !s.contains('\'') ==> escaped(s) == s,
        escaped(s + t) == escaped(s) + escaped(t),
        escaped(seq!['\'']) == seq!['\'', '\\', '\'', '\''],
        c != '\'' ==> escaped(seq![c]) == seq![c],
{
    if forall|i: int| 0 <= i < s.len() ==> is_safe_char(#[trigger] s[i]) {
        assert forall|i: int| 0 <= i < s.len() implies is_plain(#[trigger] s[i]) by {
            assert(is_safe_char(s[i]));
        }
    }
    if exists|i: int| 0 <= i < s.len() && !is_safe_char(#[trigger] s[i]) {
        let i = choose|i: int| 0 <= i < s.len() && !is_safe_char(#[trigger] s[i]);
        assert(!is_plain(s[i]));
    }
    lemma_escaped_sum(s, t);
    if !s.contains('\'') {
        lemma_escaped_same(s);
    }
    reveal_with_fuel(escaped, 2);
    assert(seq!['\''].drop_first() =~= Seq::<char>::empty());
    assert(seq![c].drop_first() =~= Seq::<char>::empty());
    assert(escaped(seq!['\'']) =~= seq!['\'', '\\', '\'', '\'']);
    if c != '\'' {
        assert(escaped(seq![c]) =~= seq![c]);
    }
}

proof fn lemma_escaped_sum(s: Seq<char>, t: Seq<char>)
    ensures
        escaped(s + t) == escaped(s) + escaped(t),
    decreases s.len(),
{
    if s.len() == 0 {
        assert(s + t =~= t);
        assert(escaped(s) + escaped(t) =~= escaped(t));
    } else {
        lemma_escaped_sum(s.drop_first(), t);
        assert((s + t).drop_first() =~= s.drop_first() + t);
        assert(escaped(s + t) =~= escaped(s) + escaped(t));
    }
}

proof fn lemma_escaped_same(s: Seq<char>)
    requires
        !s.contains('\''),
    ensures
        escaped(s) == s,
    decreases s.len(),
{
    if s.len() > 0 {
        let r = s.drop_first();
        assert forall|i: int| 0 <= i < r.len() implies r[i] != '\'' by {
            assert(r[i] == s[i + 1]);
        }
        lemma_escaped_same(r);
        assert(s[0] != '\'');
        assert(escaped(s) =~= s);
    } else {
        assert(escaped(s) =~= s);
    }
}

// Numbers.

/// The number that some digits stand for.
pub open spec fn digits_value(s: Seq<char>) -> int
    decreases s.len(),
{
    if s.len() == 0 {
        0
    } else {
        digits_value(s.drop_last()) * 10 + (s.last() as int - '0' as int)
    }
}

/// A number is written in digits, which stand for it, without a zero before
/// them.
pub proof fn law_decimal(n: nat)
    ensures
        digits_value(decimal(n)) == n,
        decimal(n).len() > 0,
        forall|i: int| 0 <= i < decimal(n).len() ==> '0' <= #[trigger] decimal(n)[i] <= '9',
        n > 0 ==> decimal(n)[0] != '0',
    decreases n,
{
    if n < 10 {
        reveal_with_fuel(digits_value, 2);
        assert(decimal(n).drop_last() =~= Seq::<char>::empty());
    } else {
        law_decimal(n / 10);
        assert(decimal(n).drop_last() =~= decimal(n / 10));
    }
}

} // verus!
