//! Names and values as a POSIX shell reads them.

use vstd::prelude::*;

use crate::text::{chars_of, string_of};

verus! {

/// ASCII letters.
pub open spec fn is_letter(c: char) -> bool {
    'a' <= c <= 'z' || 'A' <= c <= 'Z'
}

/// ASCII digits.
pub open spec fn is_digit(c: char) -> bool {
    '0' <= c <= '9'
}

/// Whether a text is a shell identifier: letters, digits and underscores, at
/// least one of them, the first no digit.
pub open spec fn is_env_key(key: Seq<char>) -> bool {
    &&& key.len() > 0
    &&& !is_digit(key[0])
    &&& forall|i: int|
        #![trigger key[i]]
        0 <= i < key.len() ==> is_letter(key[i]) || is_digit(key[i]) || key[i] == '_'
}

/// The characters that a shell takes as they stand, outside quotes.
pub open spec fn is_plain(c: char) -> bool {
    ||| is_letter(c)
    ||| is_digit(c)
    ||| c == '_'
    ||| c == '-'
    ||| c == '.'
    ||| c == '/'
    ||| c == ':'
    ||| c == '+'
    ||| c == '@'
}

/// Whether each character of a text is plain.
pub open spec fn is_plain_text(s: Seq<char>) -> bool {
    forall|i: int| 0 <= i < s.len() ==> is_plain(#[trigger] s[i])
}

/// How a character stands between single quotes: a single quote closes them,
/// stands escaped, and opens them again.
pub open spec fn escape(c: char) -> Seq<char> {
    if c == '\'' {
        seq!['\'', '\\', '\'', '\'']
    } else {
        seq![c]
    }
}

/// How a text stands between single quotes.
pub open spec fn escaped(s: Seq<char>) -> Seq<char>
    decreases s.len(),
{
    if s.len() == 0 {
        Seq::empty()
    } else {
        escape(s[0]) + escaped(s.drop_first())
    }
}

/// A text between single quotes.
pub open spec fn single_quoted(s: Seq<char>) -> Seq<char> {
    seq!['\''] + escaped(s) + seq!['\'']
}

/// A text as one word of a shell command: a text of plain characters as it
/// is, any other between single quotes.
pub open spec fn quoted(s: Seq<char>) -> Seq<char> {
    if s.len() > 0 && is_plain_text(s) {
        s
    } else {
        single_quoted(s)
    }
}

/// The text that a shell reads from one word, outside quotes: a plain
/// character stands for itself, a backslash for the character after it, and a
/// single quote opens a quotation. Anything else is no part of a word that
/// stands for one text, whatever the shell is set to.
pub open spec fn word(s: Seq<char>) -> Option<Seq<char>>
    decreases s.len(),
{
    if s.len() == 0 {
        Some(Seq::empty())
    } else if s[0] == '\'' {
        quotation(s.drop_first())
    } else if s[0] == '\\' {
        if s.len() > 1 && s[1] != '\n' {
            prefixed(s[1], word(s.skip(2)))
        } else {
            None
        }
    } else if is_plain(s[0]) {
        prefixed(s[0], word(s.drop_first()))
    } else {
        None
    }
}

/// The text that a shell reads from the rest of a word, inside single quotes:
/// each character stands for itself, up to the next single quote.
pub open spec fn quotation(s: Seq<char>) -> Option<Seq<char>>
    decreases s.len(),
{
    if s.len() == 0 {
        None
    } else if s[0] == '\'' {
        word(s.drop_first())
    } else {
        prefixed(s[0], quotation(s.drop_first()))
    }
}

/// A text with a character put before it.
pub open spec fn prefixed(c: char, s: Option<Seq<char>>) -> Option<Seq<char>> {
    match s {
        Some(t) => Some(seq![c] + t),
        None => None,
    }
}

proof fn lemma_quotation(s: Seq<char>)
    ensures
        quotation(escaped(s) + seq!['\'']) == Some(s),
    decreases s.len(),
{
    let all = escaped(s) + seq!['\''];
    if s.len() == 0 {
        assert(all =~= seq!['\'']);
        assert(all.drop_first() =~= Seq::<char>::empty());
        assert(word(all.drop_first()) == Some(Seq::<char>::empty()));
        assert(s =~= Seq::<char>::empty());
    } else {
        let rest = escaped(s.drop_first()) + seq!['\''];
        lemma_quotation(s.drop_first());
        assert(seq![s[0]] + s.drop_first() =~= s);
        if s[0] == '\'' {
            assert(all =~= seq!['\'', '\\', '\'', '\''] + rest);
            let after = all.drop_first();
            assert(after[0] == '\\' && after[1] == '\'');
            assert(after.skip(2) =~= seq!['\''] + rest);
            assert(after.skip(2).drop_first() =~= rest);
            assert(word(after.skip(2)) == quotation(rest));
            assert(quotation(all) == word(after));
        } else {
            assert(all =~= seq![s[0]] + rest);
            assert(all.drop_first() =~= rest);
        }
    }
}

proof fn lemma_plain_word(s: Seq<char>)
    requires
        is_plain_text(s),
    ensures
        word(s) == Some(s),
    decreases s.len(),
{
    if s.len() > 0 {
        assert(is_plain(s[0]));
        assert forall|i: int| 0 <= i < s.drop_first().len() implies is_plain(
            #[trigger] s.drop_first()[i],
        ) by {
            assert(s.drop_first()[i] == s[i + 1]);
        }
        lemma_plain_word(s.drop_first());
        assert(seq![s[0]] + s.drop_first() =~= s);
    } else {
        assert(s =~= Seq::<char>::empty());
    }
}

/// A shell reads a text back from between single quotes, whatever the text.
pub proof fn law_single_quotes(s: Seq<char>)
    ensures
        word(single_quoted(s)) == Some(s),
{
    lemma_quotation(s);
    assert(single_quoted(s).drop_first() =~= escaped(s) + seq!['\'']);
}

/// A shell reads a text back from the word that it is quoted as, whatever the
/// text.
pub proof fn law_quoting(s: Seq<char>)
    ensures
        word(quoted(s)) == Some(s),
{
    if s.len() > 0 && is_plain_text(s) {
        lemma_plain_word(s);
    } else {
        law_single_quotes(s);
    }
}

/// An environment variable's name is a word of plain characters; no character
/// in it means anything to a shell.
pub proof fn law_env_key_is_plain(key: Seq<char>)
    requires
        is_env_key(key),
    ensures
        is_plain_text(key),
        word(key) == Some(key),
{
    lemma_plain_word(key);
}

fn letter(c: char) -> (r: bool)
    ensures
        r == is_letter(c),
{
    ('a' <= c && c <= 'z') || ('A' <= c && c <= 'Z')
}

fn digit(c: char) -> (r: bool)
    ensures
        r == is_digit(c),
{
    '0' <= c && c <= '9'
}

/// Whether `key` is a shell identifier. What `env` prints is evaluated when a
/// shell starts, so anything else could smuggle shell syntax into it.
pub fn is_valid_env_key(key: &str) -> (r: bool)
    ensures
        r == is_env_key(key@),
{
    let chars = chars_of(key);
    if chars.len() == 0 || digit(chars[0]) {
        return false;
    }
    for i in 0..chars.len()
        invariant
            chars@ == key@,
            forall|j: int|
                #![trigger key@[j]]
                0 <= j < i ==> is_letter(key@[j]) || is_digit(key@[j]) || key@[j] == '_',
    {
        let c = chars[i];
        if !letter(c) && !digit(c) && c != '_' {
            assert(key@[i as int] == c);
            return false;
        }
    }
    true
}

fn plain(c: char) -> (r: bool)
    ensures
        r == is_plain(c),
{
    letter(c) || digit(c) || c == '_' || c == '-' || c == '.' || c == '/' || c == ':' || c == '+'
        || c == '@'
}

/// `s` with each single quote made ready to stand between single quotes.
pub fn sq(s: &str) -> (r: String)
    ensures
        r@ == escaped(s@),
{
    let chars = chars_of(s);
    let mut r = String::new();
    assert(s@.skip(0) =~= s@);
    assert(r@ + escaped(s@) =~= escaped(s@));
    for i in 0..chars.len()
        invariant
            chars@ == s@,
            r@ + escaped(s@.skip(i as int)) == escaped(s@),
    {
        let ghost before = r@;
        let ghost rest = s@.skip(i as int);
        let c = chars[i];
        if c == '\'' {
            r.push('\'');
            r.push('\\');
            r.push('\'');
            r.push('\'');
        } else {
            r.push(c);
        }
        assert(rest.drop_first() =~= s@.skip(i + 1));
        assert(r@ =~= before + escape(c));
        assert(r@ + escaped(s@.skip(i + 1)) =~= before + escaped(rest));
    }
    assert(s@.skip(chars@.len() as int) =~= Seq::<char>::empty());
    assert(r@ =~= escaped(s@));
    r
}

/// `s` between single quotes.
pub(crate) fn in_single_quotes(s: &str) -> (r: String)
    ensures
        r@ == single_quoted(s@),
{
    let mut r = String::new();
    r.push('\'');
    r.append(sq(s).as_str());
    r.push('\'');
    assert(r@ =~= single_quoted(s@));
    r
}

/// `s` as one word of a shell command.
pub fn shell_quote(s: &str) -> (r: String)
    ensures
        r@ == quoted(s@),
        word(r@) == Some(s@),
{
    proof {
        law_quoting(s@);
    }
    let chars = chars_of(s);
    if chars.len() == 0 {
        return in_single_quotes(s);
    }
    for i in 0..chars.len()
        invariant
            chars@ == s@,
            word(quoted(s@)) == Some(s@),
            forall|j: int| 0 <= j < i ==> is_plain(#[trigger] s@[j]),
    {
        if !plain(chars[i]) {
            assert(!is_plain(s@[i as int]));
            return in_single_quotes(s);
        }
    }
    string_of(chars.as_slice())
}

} // verus!
