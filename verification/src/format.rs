//! The text of a store: one `KEY=value` per line, with comments.

use vstd::prelude::*;

use crate::secrets::{is_ascending, lemma_map_of, map_of, Pair};
use crate::text::{
    chars_of, is_trimmed, is_white, law_trim, lemma_first_index, lines, split_once, strip_return,
    trim,
};

verus! {

/// Whether a line is neither blank nor a comment.
pub open spec fn is_content(line: Seq<char>) -> bool {
    trim(line).len() > 0 && trim(line)[0] != '#'
}

/// The secret that a line holds: what stands before the first `=` is its name
/// and what stands after it its value, both trimmed; a name is not empty.
pub open spec fn pair_of(line: Seq<char>) -> Option<Pair> {
    if is_content(line) {
        match split_once(trim(line), '=') {
            Some((name, value)) => if trim(name).len() > 0 {
                Some((trim(name), trim(value)))
            } else {
                None
            },
            None => None,
        }
    } else {
        None
    }
}

/// Whether a line is neither blank nor a comment, and yet holds no secret.
pub open spec fn is_dropped(line: Seq<char>) -> bool {
    is_content(line) && pair_of(line) is None
}

/// The secrets of some lines, in the order of the lines.
pub open spec fn pairs_of(ls: Seq<Seq<char>>) -> Seq<Pair>
    decreases ls.len(),
{
    if ls.len() == 0 {
        Seq::empty()
    } else {
        match pair_of(ls.last()) {
            Some(p) => pairs_of(ls.drop_last()).push(p),
            None => pairs_of(ls.drop_last()),
        }
    }
}

/// The map of secrets that a text holds: of two lines with the same name the
/// later one counts.
pub open spec fn parsed(content: Seq<char>) -> Map<Seq<char>, Seq<char>> {
    map_of(pairs_of(lines(content)))
}

/// How many of some lines are dropped.
pub open spec fn dropped_in(ls: Seq<Seq<char>>) -> nat
    decreases ls.len(),
{
    if ls.len() == 0 {
        0
    } else {
        dropped_in(ls.drop_last()) + if is_dropped(ls.last()) {
            1nat
        } else {
            0nat
        }
    }
}

/// The comment at the top of every store.
pub open spec fn header() -> Seq<char> {
    "# Vault secrets — edit this file, save to encrypt.\n"@
        + "# Format: KEY=value  (one per line, lines starting with # are ignored)\n\n"@
}

/// The comment at the end of a store without secrets.
pub open spec fn hint() -> Seq<char> {
    "# No secrets yet. Add lines like:\n"@ + "# OPENAI_API_KEY=sk-...\n"@
}

/// One line for a secret, with its ending.
pub open spec fn line_for(p: Pair) -> Seq<char> {
    p.0 + seq!['='] + p.1 + seq!['\n']
}

/// One line for each secret.
pub open spec fn body(pairs: Seq<Pair>) -> Seq<char>
    decreases pairs.len(),
{
    if pairs.len() == 0 {
        Seq::empty()
    } else {
        body(pairs.drop_last()) + line_for(pairs.last())
    }
}

/// The text of the store that holds `pairs`.
pub open spec fn serialized(pairs: Seq<Pair>) -> Seq<char> {
    header() + body(pairs) + if pairs.len() == 0 {
        hint()
    } else {
        Seq::empty()
    }
}

/// Whether the text format can hold a name.
pub open spec fn is_storable_name(name: Seq<char>) -> bool {
    &&& name.len() > 0
    &&& is_trimmed(name)
    &&& name[0] != '#'
    &&& !name.contains('=')
    &&& !name.contains('\n')
}

/// Whether the text format can hold a value.
pub open spec fn is_storable_value(value: Seq<char>) -> bool {
    is_trimmed(value) && !value.contains('\n')
}

/// Whether the text format can hold a value.
pub(crate) fn can_hold(value: &str) -> (r: bool)
    ensures
        r == is_storable_value(value@),
{
    let chars = chars_of(value);
    let n: usize = chars.len();
    if n > 0 && (chars[0].is_whitespace() || chars[n - 1].is_whitespace()) {
        return false;
    }
    for i in 0..n
        invariant
            n == chars@.len(),
            chars@ == value@,
            forall|j: int| 0 <= j < i ==> value@[j] != '\n',
    {
        if chars[i] == '\n' {
            assert(value@.contains('\n'));
            return false;
        }
    }
    true
}

/// Whether the text format can hold every secret of a map.
pub open spec fn is_storable(m: Map<Seq<char>, Seq<char>>) -> bool {
    forall|k: Seq<char>| #[trigger]
        m.contains_key(k) ==> is_storable_name(k) && is_storable_value(m[k])
}

// Lines of a text that is put together from parts.

/// Whether a text is made of whole lines.
pub(crate) open spec fn is_closed(s: Seq<char>) -> bool {
    s.len() > 0 ==> s.last() == '\n'
}

pub(crate) proof fn lemma_lines_of_sum(a: Seq<char>, b: Seq<char>)
    requires
        is_closed(a),
    ensures
        lines(a + b) == lines(a) + lines(b),
    decreases a.len(),
{
    if a.len() == 0 {
        assert(a + b =~= b);
        assert(lines(a) + lines(b) =~= lines(b));
    } else {
        a.index_of_first_ensures('\n');
        assert(a.contains('\n')) by {
            assert(a[a.len() - 1] == '\n');
        }
        let i = a.index_of_first('\n').unwrap();
        let s = a + b;
        assert forall|j: int| 0 <= j < i implies s[j] != '\n' by {
            assert(s[j] == a[j]);
        }
        lemma_first_index(s, '\n', i);
        assert(s.take(i) =~= a.take(i));
        assert(s.skip(i + 1) =~= a.skip(i + 1) + b);
        lemma_lines_of_sum(a.skip(i + 1), b);
        assert(lines(s) =~= lines(a) + lines(b));
    }
}

pub(crate) proof fn lemma_one_line(l: Seq<char>)
    requires
        !l.contains('\n'),
    ensures
        lines(l + seq!['\n']) == seq![strip_return(l)],
{
    let s = l + seq!['\n'];
    assert forall|j: int| 0 <= j < l.len() implies s[j] != '\n' by {
        assert(s[j] == l[j]);
    }
    lemma_first_index(s, '\n', l.len() as int);
    assert(s.take(l.len() as int) =~= l);
    assert(s.skip(l.len() as int + 1) =~= Seq::<char>::empty());
    assert(lines(Seq::<char>::empty()) =~= Seq::<Seq<char>>::empty());
    assert(lines(s) =~= seq![strip_return(l)]);
}

proof fn lemma_lines_have_no_break(s: Seq<char>)
    ensures
        forall|i: int| 0 <= i < lines(s).len() ==> !(#[trigger] lines(s)[i]).contains('\n'),
    decreases s.len(),
{
    if s.len() > 0 {
        s.index_of_first_ensures('\n');
        if let Some(i) = s.index_of_first('\n') {
            lemma_lines_have_no_break(s.skip(i + 1));
            assert forall|k: int| 0 <= k < lines(s).len() implies !(#[trigger] lines(
                s,
            )[k]).contains('\n') by {
                if k > 0 {
                    assert(lines(s)[k] == lines(s.skip(i + 1))[k - 1]);
                } else {
                    assert(lines(s)[0] == strip_return(s.take(i)));
                }
            }
        }
    }
}

proof fn lemma_pairs_of_sum(a: Seq<Seq<char>>, b: Seq<Seq<char>>)
    ensures
        pairs_of(a + b) == pairs_of(a) + pairs_of(b),
        dropped_in(a + b) == dropped_in(a) + dropped_in(b),
    decreases b.len(),
{
    if b.len() == 0 {
        assert(a + b =~= a);
        assert(pairs_of(a) + pairs_of(b) =~= pairs_of(a));
    } else {
        assert((a + b).drop_last() =~= a + b.drop_last());
        lemma_pairs_of_sum(a, b.drop_last());
        assert(pairs_of(a + b) =~= pairs_of(a) + pairs_of(b));
    }
}

/// Whether `c` does not occur in `s` at or after `i`.
pub(crate) open spec fn is_free_from(s: Seq<char>, c: char, i: int) -> bool
    decreases s.len() - i,
{
    0 <= i < s.len() ==> s[i] != c && is_free_from(s, c, i + 1)
}

pub(crate) proof fn lemma_free(s: Seq<char>, c: char, i: int)
    requires
        0 <= i,
        is_free_from(s, c, i),
    ensures
        forall|j: int| i <= j < s.len() ==> s[j] != c,
    decreases s.len() - i,
{
    if i < s.len() {
        lemma_free(s, c, i + 1);
    }
}

/// A line that starts with `#` holds no secret and is not dropped.
proof fn lemma_comment(l: Seq<char>)
    requires
        l.len() > 0,
        l[0] == '#',
        is_free_from(l, '\n', 0),
    ensures
        lines(l + seq!['\n']).len() == 1,
        pairs_of(lines(l + seq!['\n'])) == Seq::<Pair>::empty(),
        dropped_in(lines(l + seq!['\n'])) == 0,
{
    lemma_free(l, '\n', 0);
    lemma_one_line(l);
    let line = strip_return(l);
    lemma_trim_keeps_first(line);
    let ls = seq![line];
    assert(ls.drop_last() =~= Seq::<Seq<char>>::empty());
    reveal_with_fuel(pairs_of, 2);
    reveal_with_fuel(dropped_in, 2);
}

/// Trimming keeps a first character that is not white.
proof fn lemma_trim_keeps_first(s: Seq<char>)
    requires
        s.len() > 0,
        !is_white(s[0]),
    ensures
        trim(s).len() > 0,
        trim(s)[0] == s[0],
{
    let (i, j) = lemma_trim_range(s);
    if i > 0 {
        assert(is_white(s[0]));
    }
    if j == 0 {
        assert(is_white(s[0]));
    }
}

proof fn lemma_trim_range(s: Seq<char>) -> (r: (int, int))
    ensures
        0 <= r.0 <= r.1 <= s.len(),
        trim(s) == s.subrange(r.0, r.1),
        forall|k: int| 0 <= k < r.0 || r.1 <= k < s.len() ==> is_white(s[k]),
{
    law_trim(s);
    choose|i: int, j: int|
        #![trigger s.subrange(i, j)]
        {
            &&& 0 <= i <= j <= s.len()
            &&& trim(s) == s.subrange(i, j)
            &&& forall|k: int| 0 <= k < i || j <= k < s.len() ==> is_white(s[k])
        }
}

proof fn lemma_header()
    ensures
        is_closed(header()),
        pairs_of(lines(header())) == Seq::<Pair>::empty(),
        dropped_in(lines(header())) == 0,
{
    reveal_strlit("# Vault secrets — edit this file, save to encrypt.\n");
    reveal_strlit("# Format: KEY=value  (one per line, lines starting with # are ignored)\n\n");
    let a = "# Vault secrets — edit this file, save to encrypt.\n"@;
    let b = "# Format: KEY=value  (one per line, lines starting with # are ignored)\n\n"@;
    let la = a.drop_last();
    let lb = b.drop_last().drop_last();
    reveal_with_fuel(is_free_from, 80);
    lemma_comment(la);
    lemma_comment(lb);
    assert(a =~= la + seq!['\n']);
    let empty = Seq::<char>::empty();
    assert(b =~= (lb + seq!['\n']) + (empty + seq!['\n']));
    lemma_one_line(empty);
    let blank = seq![strip_return(empty)];
    assert(blank.drop_last() =~= Seq::<Seq<char>>::empty());
    assert(pairs_of(blank) == Seq::<Pair>::empty() && dropped_in(blank) == 0) by {
        reveal_with_fuel(pairs_of, 2);
        reveal_with_fuel(dropped_in, 2);
    }
    lemma_lines_of_sum(lb + seq!['\n'], empty + seq!['\n']);
    lemma_pairs_of_sum(lines(lb + seq!['\n']), blank);
    lemma_lines_of_sum(a, b);
    lemma_pairs_of_sum(lines(a), lines(b));
    assert(pairs_of(lines(b)) =~= Seq::<Pair>::empty());
    assert(pairs_of(lines(header())) =~= Seq::<Pair>::empty());
}

proof fn lemma_hint()
    ensures
        pairs_of(lines(hint())) == Seq::<Pair>::empty(),
        dropped_in(lines(hint())) == 0,
{
    reveal_strlit("# No secrets yet. Add lines like:\n");
    reveal_strlit("# OPENAI_API_KEY=sk-...\n");
    let a = "# No secrets yet. Add lines like:\n"@;
    let b = "# OPENAI_API_KEY=sk-...\n"@;
    reveal_with_fuel(is_free_from, 40);
    lemma_comment(a.drop_last());
    lemma_comment(b.drop_last());
    assert(a =~= a.drop_last() + seq!['\n']);
    assert(b =~= b.drop_last() + seq!['\n']);
    lemma_lines_of_sum(a, b);
    lemma_pairs_of_sum(lines(a), lines(b));
    assert(pairs_of(lines(hint())) =~= Seq::<Pair>::empty());
}

/// What a line holds can be stored.
proof fn lemma_pair_is_storable(line: Seq<char>)
    requires
        !line.contains('\n'),
    ensures
        match pair_of(line) {
            Some(p) => is_storable_name(p.0) && is_storable_value(p.1),
            None => true,
        },
{
    if pair_of(line) is Some {
        let whole = trim(line);
        let (a, b) = lemma_trim_range(line);
        assert forall|k: int| 0 <= k < whole.len() implies whole[k] != '\n' by {
            assert(whole[k] == line[a + k]);
        }
        law_trim(line);
        whole.index_of_first_ensures('=');
        let i = whole.index_of_first('=').unwrap();
        let left = whole.take(i);
        let right = whole.skip(i + 1);
        let (c, d) = lemma_trim_range(left);
        let (e, f) = lemma_trim_range(right);
        law_trim(left);
        law_trim(right);
        let name = trim(left);
        let value = trim(right);
        assert forall|k: int| 0 <= k < name.len() implies name[k] != '\n' && name[k] != '=' by {
            assert(name[k] == whole[c + k]);
        }
        assert forall|k: int| 0 <= k < value.len() implies value[k] != '\n' by {
            assert(value[k] == whole[i + 1 + e + k]);
        }
        assert(left.len() > 0);
        assert(left[0] == whole[0]);
        lemma_trim_keeps_first(left);
    }
}

/// A name and a value that can be stored are what their line holds.
proof fn lemma_pair_reads_back(p: Pair, l: Seq<char>)
    requires
        is_storable_name(p.0),
        is_storable_value(p.1),
        l == p.0 + seq!['='] + p.1,
    ensures
        !l.contains('\n'),
        strip_return(l) == l,
        pair_of(l) == Some(p),
{
    let n = p.0.len() as int;
    assert(l[n] == '=');
    assert forall|k: int| 0 <= k < l.len() implies l[k] != '\n' by {
        if k < n {
            assert(l[k] == p.0[k]);
        } else if k > n {
            assert(l[k] == p.1[k - n - 1]);
        }
    }
    assert(l[0] == p.0[0]);
    assert(!is_white(l.last())) by {
        if p.1.len() > 0 {
            assert(l.last() == p.1.last());
        }
    }
    assert(trim(l) == l) by {
        law_trim(l);
    }
    assert forall|k: int| 0 <= k < n implies l[k] != '=' by {
        assert(l[k] == p.0[k]);
    }
    lemma_first_index(l, '=', n);
    assert(l.take(n) =~= p.0);
    assert(l.skip(n + 1) =~= p.1);
    assert(trim(p.0) == p.0) by {
        law_trim(p.0);
    }
    assert(trim(p.1) == p.1) by {
        law_trim(p.1);
    }
}

proof fn lemma_line_reads_back(p: Pair)
    requires
        is_storable_name(p.0),
        is_storable_value(p.1),
    ensures
        is_closed(line_for(p)),
        pairs_of(lines(line_for(p))) == seq![p],
        dropped_in(lines(line_for(p))) == 0,
{
    let l = p.0 + seq!['='] + p.1;
    lemma_pair_reads_back(p, l);
    lemma_one_line(l);
    let ls = seq![l];
    assert(ls.drop_last() =~= Seq::<Seq<char>>::empty());
    assert(pairs_of(ls.drop_last()) == Seq::<Pair>::empty());
    assert(dropped_in(ls.drop_last()) == 0);
    assert(pairs_of(ls) =~= seq![p]);
}

proof fn lemma_body_reads_back(pairs: Seq<Pair>)
    requires
        forall|i: int|
            #![trigger pairs[i]]
            0 <= i < pairs.len() ==> is_storable_name(pairs[i].0) && is_storable_value(pairs[i].1),
    ensures
        is_closed(body(pairs)),
        pairs_of(lines(body(pairs))) == pairs,
        dropped_in(lines(body(pairs))) == 0,
    decreases pairs.len(),
{
    if pairs.len() > 0 {
        let init = pairs.drop_last();
        assert forall|i: int| #![trigger init[i]] 0 <= i < init.len() implies is_storable_name(
            init[i].0,
        ) && is_storable_value(init[i].1) by {
            assert(init[i] == pairs[i]);
        }
        lemma_body_reads_back(init);
        lemma_line_reads_back(pairs.last());
        lemma_lines_of_sum(body(init), line_for(pairs.last()));
        lemma_pairs_of_sum(lines(body(init)), lines(line_for(pairs.last())));
        assert(pairs_of(lines(body(pairs))) =~= pairs);
    } else {
        assert(lines(body(pairs)) =~= Seq::<Seq<char>>::empty());
        assert(pairs_of(lines(body(pairs))) =~= pairs);
    }
}

proof fn lemma_pairs_are_storable(ls: Seq<Seq<char>>)
    requires
        forall|i: int| 0 <= i < ls.len() ==> !(#[trigger] ls[i]).contains('\n'),
    ensures
        is_storable(map_of(pairs_of(ls))),
    decreases ls.len(),
{
    if ls.len() > 0 {
        let init = ls.drop_last();
        assert forall|i: int| 0 <= i < init.len() implies !(#[trigger] init[i]).contains('\n') by {
            assert(init[i] == ls[i]);
        }
        lemma_pairs_are_storable(init);
        lemma_pair_is_storable(ls.last());
        if let Some(p) = pair_of(ls.last()) {
            assert(pairs_of(ls).drop_last() =~= pairs_of(init));
        }
    }
}

/// Whatever a text holds can be stored again.
pub proof fn law_parsed_is_storable(content: Seq<char>)
    ensures
        is_storable(parsed(content)),
{
    lemma_lines_have_no_break(content);
    lemma_pairs_are_storable(lines(content));
}

/// Reading gives back what was written: the text of a store holds exactly the
/// secrets that it was made of, and none of its lines is dropped, if and only
/// if the format can hold each of them.
pub proof fn law_reading_back(pairs: Seq<Pair>)
    requires
        is_ascending(pairs),
    ensures
        is_storable(map_of(pairs)) <==> parsed(serialized(pairs)) == map_of(pairs),
        is_storable(map_of(pairs)) ==> dropped_in(lines(serialized(pairs))) == 0,
{
    law_parsed_is_storable(serialized(pairs));
    if is_storable(map_of(pairs)) {
        lemma_map_of(pairs);
        assert forall|i: int| #![trigger pairs[i]] 0 <= i < pairs.len() implies is_storable_name(
            pairs[i].0,
        ) && is_storable_value(pairs[i].1) by {
            assert(map_of(pairs).contains_key(pairs[i].0));
        }
        lemma_body_reads_back(pairs);
        lemma_header();
        lemma_hint();
        let tail = if pairs.len() == 0 {
            hint()
        } else {
            Seq::empty()
        };
        assert(pairs_of(lines(tail)) =~= Seq::<Pair>::empty() && dropped_in(lines(tail)) == 0);
        let top = header() + body(pairs);
        lemma_lines_of_sum(header(), body(pairs));
        lemma_pairs_of_sum(lines(header()), lines(body(pairs)));
        assert(pairs_of(lines(top)) =~= pairs);
        assert(is_closed(top)) by {
            if body(pairs).len() == 0 {
                assert(top =~= header());
            } else {
                assert(top.last() == body(pairs).last());
            }
        }
        lemma_lines_of_sum(top, tail);
        lemma_pairs_of_sum(lines(top), lines(tail));
        assert(pairs_of(lines(serialized(pairs))) =~= pairs);
    }
}

/// Writing a store that was read, in the order of the names, changes none of
/// its secrets.
pub proof fn law_rewriting_keeps_secrets(content: Seq<char>, pairs: Seq<Pair>)
    requires
        is_ascending(pairs),
        map_of(pairs) == parsed(content),
    ensures
        parsed(serialized(pairs)) == parsed(content),
{
    law_parsed_is_storable(content);
    law_reading_back(pairs);
}

/// How many of some lines are neither blank nor comments.
pub open spec fn content_in(ls: Seq<Seq<char>>) -> nat
    decreases ls.len(),
{
    if ls.len() == 0 {
        0
    } else {
        content_in(ls.drop_last()) + if is_content(ls.last()) {
            1nat
        } else {
            0nat
        }
    }
}

/// Every line that is neither blank nor a comment either is counted as
/// dropped or holds a secret, whose name the parsed map has.
pub proof fn law_lines_are_kept_or_counted(content: Seq<char>)
    ensures
        content_in(lines(content)) == pairs_of(lines(content)).len() + dropped_in(lines(content)),
        forall|i: int|
            #![trigger lines(content)[i]]
            0 <= i < lines(content).len() && is_content(lines(content)[i]) && !is_dropped(
                lines(content)[i],
            ) ==> parsed(content).contains_key(pair_of(lines(content)[i]).unwrap().0),
{
    lemma_lines_are_kept_or_counted(lines(content));
}

proof fn lemma_lines_are_kept_or_counted(ls: Seq<Seq<char>>)
    ensures
        content_in(ls) == pairs_of(ls).len() + dropped_in(ls),
        forall|i: int|
            #![trigger ls[i]]
            0 <= i < ls.len() && is_content(ls[i]) && !is_dropped(ls[i]) ==> map_of(
                pairs_of(ls),
            ).contains_key(pair_of(ls[i]).unwrap().0),
    decreases ls.len(),
{
    if ls.len() > 0 {
        let init = ls.drop_last();
        lemma_lines_are_kept_or_counted(init);
        if let Some(p) = pair_of(ls.last()) {
            assert(pairs_of(ls).drop_last() =~= pairs_of(init));
        }
        assert forall|i: int|
            #![trigger ls[i]]
            0 <= i < ls.len() && is_content(ls[i]) && !is_dropped(ls[i]) implies map_of(
            pairs_of(ls),
        ).contains_key(pair_of(ls[i]).unwrap().0) by {
            if i < init.len() {
                assert(init[i] == ls[i]);
            }
        }
    }
}

} // verus!
