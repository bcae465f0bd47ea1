//! Characters, lines and words of plain text.

use vstd::prelude::*;
use vstd::slice::slice_subrange;

verus! {

/// The characters with Unicode's `White_Space` property.
pub open spec fn is_white(c: char) -> bool {
    ||| '\u{9}' <= c <= '\u{d}'
    ||| c == '\u{20}'
    ||| c == '\u{85}'
    ||| c == '\u{a0}'
    ||| c == '\u{1680}'
    ||| '\u{2000}' <= c <= '\u{200a}'
    ||| c == '\u{2028}'
    ||| c == '\u{2029}'
    ||| c == '\u{202f}'
    ||| c == '\u{205f}'
    ||| c == '\u{3000}'
}

/// The characters of Unicode's general category `Cc`.
pub open spec fn is_control_code(c: char) -> bool {
    ||| c <= '\u{1f}'
    ||| '\u{7f}' <= c <= '\u{9f}'
}

/// `char::is_whitespace`: whether the character has the `White_Space`
/// property, which is spelled out by `is_white`.
pub assume_specification[ char::is_whitespace ](c: char) -> (r: bool)
    ensures
        r == is_white(c),
;

/// `char::is_control`: whether the character is a control code, that is, of
/// the general category `Cc`, which is spelled out by `is_control_code`.
pub assume_specification[ char::is_control ](c: char) -> (r: bool)
    ensures
        r == is_control_code(c),
;

/// `String::push`: appends the character to the end of the string.
pub assume_specification[ std::string::String::push ](s: &mut String, c: char)
    ensures
        final(s)@ == old(s)@.push(c),
;

/// The characters of `s`, in order.
pub(crate) fn chars_of(s: &str) -> (r: Vec<char>)
    ensures
        r@ == s@,
{
    let mut r: Vec<char> = Vec::new();
    for c in it: s.chars()
        invariant
            it.seq() == s@,
            r@ == s@.take(it.index() as int),
    {
        r.push(c);
    }
    r
}

/// The string made of the characters of `s`.
pub(crate) fn string_of(s: &[char]) -> (r: String)
    ensures
        r@ == s@,
{
    let mut r = String::new();
    for i in 0..s.len()
        invariant
            r@ == s@.take(i as int),
    {
        r.push(s[i]);
    }
    r
}

/// `s` without the white space at its start.
pub open spec fn trim_start(s: Seq<char>) -> Seq<char>
    decreases s.len(),
{
    if s.len() > 0 && is_white(s[0]) {
        trim_start(s.drop_first())
    } else {
        s
    }
}

/// `s` without the white space at its end.
pub open spec fn trim_end(s: Seq<char>) -> Seq<char>
    decreases s.len(),
{
    if s.len() > 0 && is_white(s.last()) {
        trim_end(s.drop_last())
    } else {
        s
    }
}

/// `s` without the white space at either end.
pub open spec fn trim(s: Seq<char>) -> Seq<char> {
    trim_end(trim_start(s))
}

/// Whether `s` neither starts nor ends with white space.
pub open spec fn is_trimmed(s: Seq<char>) -> bool {
    s.len() > 0 ==> !is_white(s[0]) && !is_white(s.last())
}

/// What stands before and after the first `c` in `s`.
pub open spec fn split_once(s: Seq<char>, c: char) -> Option<(Seq<char>, Seq<char>)> {
    match s.index_of_first(c) {
        Some(i) => Some((s.take(i), s.skip(i + 1))),
        None => None,
    }
}

/// A line as it stands before its `\n`, without the carriage return of a
/// `\r\n` ending.
pub open spec fn strip_return(line: Seq<char>) -> Seq<char> {
    if line.len() > 0 && line.last() == '\r' {
        line.drop_last()
    } else {
        line
    }
}

/// The lines of `s`. A line ends with `\n` or `\r\n`; the ending of the last
/// one is optional, and what has no ending keeps all its characters.
pub open spec fn lines(s: Seq<char>) -> Seq<Seq<char>>
    decreases s.len(),
{
    if s.len() == 0 {
        Seq::empty()
    } else {
        proof {
            s.index_of_first_ensures('\n');
        }
        match s.index_of_first('\n') {
            Some(i) => if 0 <= i < s.len() {
                seq![strip_return(s.take(i))] + lines(s.skip(i + 1))
            } else {
                Seq::empty()
            },
            None => seq![s],
        }
    }
}

pub(crate) proof fn lemma_first_index(s: Seq<char>, c: char, i: int)
    requires
        0 <= i < s.len(),
        s[i] == c,
        forall|j: int| 0 <= j < i ==> s[j] != c,
    ensures
        s.index_of_first(c) == Some(i),
{
    s.index_of_first_ensures(c);
    assert(s.contains(c));
}

/// Trimming is idempotent, leaves nothing but white space out, and leaves a
/// text that is trimmed already as it is.
pub proof fn law_trim(s: Seq<char>)
    ensures
        is_trimmed(trim(s)),
        is_trimmed(s) ==> trim(s) == s,
        trim(trim(s)) == trim(s),
        exists|i: int, j: int|
            #![trigger s.subrange(i, j)]
            {
                &&& 0 <= i <= j <= s.len()
                &&& trim(s) == s.subrange(i, j)
                &&& forall|k: int| 0 <= k < i || j <= k < s.len() ==> is_white(s[k])
            },
{
    let i = lemma_trim_start(s);
    let t = trim_start(s);
    let j = lemma_trim_end(t);
    assert(t.subrange(0, j) =~= s.subrange(i, i + j));
    assert forall|k: int| 0 <= k < i || i + j <= k < s.len() implies is_white(s[k]) by {
        if i + j <= k {
            assert(t[k - i] == s[k]);
        }
    }
    if is_trimmed(s) {
        lemma_trim_fixed(s);
    }
    lemma_trim_fixed(trim(s));
}

proof fn lemma_trim_fixed(s: Seq<char>)
    requires
        is_trimmed(s),
    ensures
        trim(s) == s,
{
}

/// Where the text that `trim_start` leaves begins.
pub(crate) proof fn lemma_trim_start(s: Seq<char>) -> (i: int)
    ensures
        0 <= i <= s.len(),
        trim_start(s) == s.skip(i),
        forall|k: int| 0 <= k < i ==> is_white(s[k]),
        i < s.len() ==> !is_white(s[i]),
    decreases s.len(),
{
    if s.len() > 0 && is_white(s[0]) {
        let i = lemma_trim_start(s.drop_first());
        assert(s.drop_first().skip(i) =~= s.skip(i + 1));
        assert forall|k: int| 0 <= k < i + 1 implies is_white(s[k]) by {
            if k > 0 {
                assert(s.drop_first()[k - 1] == s[k]);
            }
        }
        i + 1
    } else {
        assert(s.skip(0) =~= s);
        0
    }
}

/// Where the text that `trim_end` leaves ends.
pub(crate) proof fn lemma_trim_end(s: Seq<char>) -> (j: int)
    ensures
        0 <= j <= s.len(),
        trim_end(s) == s.subrange(0, j),
        forall|k: int| j <= k < s.len() ==> is_white(s[k]),
        0 < j ==> !is_white(s[j - 1]),
    decreases s.len(),
{
    if s.len() > 0 && is_white(s.last()) {
        let j = lemma_trim_end(s.drop_last());
        assert(s.drop_last().subrange(0, j) =~= s.subrange(0, j));
        assert forall|k: int| j <= k < s.len() implies is_white(s[k]) by {
            if k < s.len() - 1 {
                assert(s.drop_last()[k] == s[k]);
            }
        }
        j
    } else {
        assert(s.subrange(0, s.len() as int) =~= s);
        s.len() as int
    }
}

/// `s` without the white space at either end.
pub(crate) fn trim_chars(s: &[char]) -> (r: &[char])
    ensures
        r@ == trim(s@),
{
    let n: usize = s.len();
    let mut i: usize = 0;
    assert(s@.skip(0) =~= s@);
    while i < n && s[i].is_whitespace()
        invariant
            n == s@.len(),
            i <= n,
            trim_start(s@) == trim_start(s@.skip(i as int)),
        decreases n - i,
    {
        assert(s@.skip(i as int).drop_first() =~= s@.skip(i + 1));
        i = i + 1;
    }
    let ghost t = s@.skip(i as int);
    assert(trim_start(s@) == t);
    let mut j: usize = n;
    assert(s@.subrange(i as int, n as int) =~= t);
    while i < j && s[j - 1].is_whitespace()
        invariant
            i <= j <= n,
            n == s@.len(),
            trim_end(t) == trim_end(s@.subrange(i as int, j as int)),
        decreases j,
    {
        assert(s@.subrange(i as int, j as int).drop_last() =~= s@.subrange(i as int, j - 1));
        j = j - 1;
    }
    slice_subrange(s, i, j)
}

/// The position of the first `c` in `s`, at or after `from`.
fn position(s: &[char], from: usize, c: char) -> (r: Option<usize>)
    requires
        from <= s@.len(),
    ensures
        match r {
            Some(i) => from <= i < s@.len() && s@[i as int] == c && forall|j: int|
                from <= j < i ==> s@[j] != c,
            None => forall|j: int| from <= j < s@.len() ==> s@[j] != c,
        },
{
    let mut i: usize = from;
    while i < s.len()
        invariant
            from <= i <= s@.len(),
            forall|j: int| from <= j < i ==> s@[j] != c,
        decreases s@.len() - i,
    {
        if s[i] == c {
            return Some(i);
        }
        i = i + 1;
    }
    None
}

/// What stands before and after the first `c` in `s`.
pub(crate) fn split_chars_once<'a>(s: &'a [char], c: char) -> (r: Option<(&'a [char], &'a [char])>)
    ensures
        match r {
            Some((a, b)) => split_once(s@, c) == Some((a@, b@)),
            None => split_once(s@, c) is None,
        },
{
    let n: usize = s.len();
    match position(s, 0, c) {
        Some(i) => {
            proof {
                lemma_first_index(s@, c, i as int);
                assert(s@.subrange(0, i as int) =~= s@.take(i as int));
                assert(s@.subrange(i + 1, s@.len() as int) =~= s@.skip(i + 1));
            }
            Some((slice_subrange(s, 0, i), slice_subrange(s, i + 1, n)))
        },
        None => {
            proof {
                s@.index_of_first_ensures(c);
            }
            None
        },
    }
}

/// The lines of `s`.
pub(crate) fn lines_of<'a>(s: &'a [char]) -> (r: Vec<&'a [char]>)
    ensures
        r@.map_values(|l: &'a [char]| l@) == lines(s@),
{
    let mut r: Vec<&'a [char]> = Vec::new();
    let mut at: usize = 0;
    let ghost view = |l: &'a [char]| l@;
    assert(s@.skip(0) =~= s@);
    while at < s.len()
        invariant
            at <= s@.len(),
            view == (|l: &'a [char]| l@),
            r@.map_values(view) + lines(s@.skip(at as int)) == lines(s@),
        decreases s@.len() - at,
    {
        let ghost rest = s@.skip(at as int);
        let ghost before = r@;
        match position(s, at, '\n') {
            Some(end) => {
                proof {
                    lemma_first_index(rest, '\n', end - at);
                    assert(rest.take(end - at) =~= s@.subrange(at as int, end as int));
                    assert(rest.skip(end - at + 1) =~= s@.skip(end + 1));
                }
                let ghost whole = s@.subrange(at as int, end as int);
                let mut stop: usize = end;
                if at < end && s[end - 1] == '\r' {
                    stop = end - 1;
                }
                let line = slice_subrange(s, at, stop);
                assert(line@ =~= strip_return(whole));
                r.push(line);
                at = end + 1;
            },
            None => {
                proof {
                    rest.index_of_first_ensures('\n');
                    assert(!rest.contains('\n'));
                    assert(s@.subrange(at as int, s@.len() as int) =~= rest);
                    assert(s@.skip(s@.len() as int) =~= Seq::<char>::empty());
                }
                r.push(slice_subrange(s, at, s.len()));
                at = s.len();
            },
        }
        assert(r@.map_values(view) + lines(s@.skip(at as int)) =~= before.map_values(view) + lines(
            rest,
        ));
    }
    assert(s@.skip(at as int) =~= Seq::<char>::empty());
    assert(r@.map_values(view) =~= lines(s@));
    r
}

/// The order of texts: by code point, character by character.
pub open spec fn precedes(a: Seq<char>, b: Seq<char>) -> bool
    decreases a.len(),
{
    if b.len() == 0 {
        false
    } else if a.len() == 0 {
        true
    } else if a[0] == b[0] {
        precedes(a.drop_first(), b.drop_first())
    } else {
        a[0] < b[0]
    }
}

/// Where one text stands in relation to another.
#[derive(Debug, Clone, Copy, PartialEq, Eq, Structural)]
pub enum Place {
    Before,
    Same,
    After,
}

/// Where `a` stands in relation to `b`.
pub(crate) fn place(a: &str, b: &str) -> (r: Place)
    ensures
        r == Place::Before <==> precedes(a@, b@),
        r == Place::Same <==> a@ == b@,
        r == Place::After <==> precedes(b@, a@),
{
    let x = chars_of(a);
    let y = chars_of(b);
    let mut i: usize = 0;
    proof {
        assert(x@.skip(0) =~= x@);
        assert(y@.skip(0) =~= y@);
        law_order(a@, b@, b@);
    }
    while i < x.len() && i < y.len()
        invariant
            i <= x@.len(),
            i <= y@.len(),
            x@ == a@,
            y@ == b@,
            precedes(a@, b@) == precedes(x@.skip(i as int), y@.skip(i as int)),
            precedes(b@, a@) == precedes(y@.skip(i as int), x@.skip(i as int)),
            forall|j: int| 0 <= j < i ==> x@[j] == y@[j],
        decreases x@.len() - i,
    {
        let ghost p = x@.skip(i as int);
        let ghost q = y@.skip(i as int);
        if x[i] < y[i] {
            assert(p[0] < q[0]);
            return Place::Before;
        }
        if y[i] < x[i] {
            assert(q[0] < p[0]);
            return Place::After;
        }
        proof {
            assert(p[0] == q[0]);
            assert(p.drop_first() =~= x@.skip(i + 1));
            assert(q.drop_first() =~= y@.skip(i + 1));
        }
        i = i + 1;
    }
    if i < y.len() {
        Place::Before
    } else if i < x.len() {
        Place::After
    } else {
        assert(x@ =~= y@);
        Place::Same
    }
}

/// The order of texts is strict and total, and it is transitive.
pub proof fn law_order(a: Seq<char>, b: Seq<char>, c: Seq<char>)
    ensures
        !precedes(a, a),
        precedes(a, b) ==> !precedes(b, a) && a != b,
        precedes(a, b) || a == b || precedes(b, a),
        precedes(a, b) && precedes(b, c) ==> precedes(a, c),
    decreases a.len() + b.len() + c.len(),
{
    if a.len() > 0 {
        law_order(a.drop_first(), Seq::empty(), Seq::empty());
        if b.len() > 0 {
            let z = if c.len() > 0 { c.drop_first() } else { c };
            law_order(a.drop_first(), b.drop_first(), z);
            if a[0] == b[0] && a.drop_first() == b.drop_first() {
                assert(a =~= seq![a[0]] + a.drop_first());
                assert(b =~= seq![b[0]] + b.drop_first());
            }
        }
    } else if b.len() == 0 {
        assert(a =~= b);
    }
}

/// Whether two texts are the same.
pub(crate) fn same_text(a: &str, b: &str) -> (r: bool)
    ensures
        r == (a@ == b@),
{
    place(a, b) == Place::Same
}

/// The decimal digits of `n`.
pub open spec fn decimal(n: nat) -> Seq<char>
    decreases n,
{
    if n < 10 {
        seq![digit(n)]
    } else {
        decimal(n / 10).push(digit(n % 10))
    }
}

/// The character for a number below ten.
pub open spec fn digit(n: nat) -> char {
    (48 + n) as char
}

fn digit_of(n: u64) -> (r: char)
    requires
        n < 10,
    ensures
        r == digit(n as nat),
{
    let code: u8 = 48 + n as u8;
    code as char
}

/// The decimal digits of `n`.
pub(crate) fn decimal_of(n: u64) -> (r: String)
    ensures
        r@ == decimal(n as nat),
    decreases n,
{
    if n < 10 {
        let mut r = String::new();
        r.push(digit_of(n));
        assert(r@ =~= seq![digit(n as nat)]);
        r
    } else {
        let mut r = decimal_of(n / 10);
        r.push(digit_of(n % 10));
        r
    }
}

} // verus!
