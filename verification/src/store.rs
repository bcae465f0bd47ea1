//! The store: where it lies, and what its files hold.

use vstd::prelude::*;

use crate::crypto::{identity_read, is_identity, is_key_pair, key_mark, public_text, IdentityKey};
use crate::fault::{caused, fault, ErrorKind, Fault, VaultError};
use crate::format::{
    body, dropped_in, header, hint, is_free_from, lemma_free, lemma_lines_of_sum, lemma_one_line,
    line_for, pairs_of, parsed, serialized,
};
use crate::path::{copy_of, join, joined, show, shown};
use crate::plan::maybe_bytes;
use crate::secrets::{lemma_listing, listing, map_of, Pair, SecretMap};
use crate::text::{chars_of, lines, lines_of, split_chars_once, string_of, strip_return, trim_chars};

verus! {

/// Where the files of a vault lie, as a value of the model.
#[verifier::ext_equal]
pub struct Places {
    pub dir: Seq<u8>,
    pub key: Seq<u8>,
    pub store: Seq<u8>,
}

/// Where the files of the vault in a directory lie.
pub open spec fn places_in(dir: Seq<u8>) -> Places {
    Places { dir, key: joined(dir, "key.txt"@), store: joined(dir, "store.env.age"@) }
}

/// The vault of a user: a directory with a key, a store, and a configuration
/// of remotes.
#[derive(Debug)]
pub struct Store {
    dir: Vec<u8>,
    key_path: Vec<u8>,
    store_path: Vec<u8>,
}

impl View for Store {
    type V = Places;

    closed spec fn view(&self) -> Places {
        Places { dir: self.dir@, key: self.key_path@, store: self.store_path@ }
    }
}

/// `dirs::data_local_dir`: the bytes of a path, where there is one. It depends
/// on the environment, so nothing is said of it.
#[verifier::external_body]
fn data_local_dir() -> (r: Option<Vec<u8>>) {
    dirs::data_local_dir().map(|path| path.into_os_string().into_encoded_bytes())
}

/// `dirs::home_dir`: the bytes of a path, where there is one. It depends on
/// the environment, so nothing is said of it.
#[verifier::external_body]
fn home_dir() -> (r: Option<Vec<u8>>) {
    dirs::home_dir().map(|path| path.into_os_string().into_encoded_bytes())
}

/// The directory that a vault lies in: `vault` below the user's data
/// directory, or else below the home directory.
pub open spec fn vault_dir(data: Option<Seq<u8>>, home: Option<Seq<u8>>) -> Option<Seq<u8>> {
    match data {
        Some(d) => Some(joined(d, "vault"@)),
        None => match home {
            Some(h) => Some(joined(h, "vault"@)),
            None => None,
        },
    }
}

/// The failure where there is no directory for a vault to lie in.
pub open spec fn homeless() -> Fault {
    fault(ErrorKind::NoHomeDirectory, "Cannot find home directory"@)
}

impl Store {
    #[verifier::type_invariant]
    spec fn is_valid(self) -> bool {
        self@ == places_in(self.dir@)
    }

    /// The vault of this user. Where it lies depends on the environment.
    pub fn new() -> (r: Result<Store, VaultError>)
        ensures
            match r {
                Ok(store) => store@ == places_in(store@.dir) && exists|base: Seq<u8>|
                    store@.dir == #[trigger] joined(base, "vault"@),
                Err(e) => e@ == homeless(),
            },
    {
        match data_local_dir() {
            Some(data) => Store::below(Some(data), None),
            None => Store::below(None, home_dir()),
        }
    }

    /// The vault of a user with these directories.
    pub fn below(data: Option<Vec<u8>>, home: Option<Vec<u8>>) -> (r: Result<Store, VaultError>)
        ensures
            match r {
                Ok(store) => vault_dir(
                    maybe_bytes(data),
                    maybe_bytes(home),
                ) == Some(store@.dir) && store@ == places_in(store@.dir),
                Err(e) => vault_dir(
                    maybe_bytes(data),
                    maybe_bytes(home),
                ) is None && e@ == homeless(),
            },
    {
        match data {
            Some(d) => Ok(Store::at(join(d.as_slice(), "vault"))),
            None => match home {
                Some(h) => Ok(Store::at(join(h.as_slice(), "vault"))),
                None => Err(
                    VaultError::new(
                        ErrorKind::NoHomeDirectory,
                        "Cannot find home directory".to_owned(),
                    ),
                ),
            },
        }
    }

    /// The vault in a directory.
    pub fn at(dir: Vec<u8>) -> (r: Store)
        ensures
            r@ == places_in(dir@),
    {
        let key_path = join(dir.as_slice(), "key.txt");
        let store_path = join(dir.as_slice(), "store.env.age");
        Store { dir, key_path, store_path }
    }

    /// The directory of the vault.
    pub fn dir(&self) -> (r: &[u8])
        ensures
            r@ == self@.dir,
    {
        self.dir.as_slice()
    }

    /// The path of the encrypted store.
    pub fn store_path(&self) -> (r: &[u8])
        ensures
            r@ == self@.store,
            r@ == joined(self@.dir, "store.env.age"@),
    {
        proof {
            use_type_invariant(self);
        }
        self.store_path.as_slice()
    }

    /// The path of the age identity.
    pub fn key_path(&self) -> (r: &[u8])
        ensures
            r@ == self@.key,
            r@ == joined(self@.dir, "key.txt"@),
    {
        proof {
            use_type_invariant(self);
        }
        self.key_path.as_slice()
    }

    /// The path of the configuration of remotes.
    pub fn remotes_config_path(&self) -> (r: Vec<u8>)
        ensures
            r@ == joined(self@.dir, "remotes.toml"@),
    {
        join(self.dir.as_slice(), "remotes.toml")
    }

    /// The same vault.
    pub(crate) fn same(&self) -> (r: Store)
        ensures
            r@ == self@,
    {
        proof {
            use_type_invariant(self);
        }
        Store {
            dir: copy_of(&self.dir),
            key_path: copy_of(&self.key_path),
            store_path: copy_of(&self.store_path),
        }
    }

    /// The secrets that a text holds.
    pub fn parse(content: &str) -> (r: SecretMap)
        ensures
            r.wf(),
            r@ == parsed(content@),
    {
        let chars = chars_of(content);
        let all = lines_of(chars.as_slice());
        let ghost ls = lines(content@);
        let mut map = SecretMap::new();
        assert(ls.take(0) =~= Seq::<Seq<char>>::empty());
        for i in 0..all.len()
            invariant
                all@.map_values(|l: &[char]| l@) == ls,
                map.wf(),
                map@ == map_of(pairs_of(ls.take(i as int))),
        {
            let ghost before = pairs_of(ls.take(i as int));
            assert(ls[i as int] == all@[i as int]@);
            assert(ls.take(i + 1).drop_last() =~= ls.take(i as int));
            assert(ls.take(i + 1).last() == ls[i as int]);
            let line = trim_chars(all[i]);
            if line.len() > 0 && line[0] != '#' {
                if let Some((left, right)) = split_chars_once(line, '=') {
                    let name = trim_chars(left);
                    if name.len() > 0 {
                        let value = trim_chars(right);
                        map.insert(string_of(name), string_of(value));
                        assert(pairs_of(ls.take(i + 1)).drop_last() =~= before);
                    }
                }
            }
        }
        assert(ls.take(all@.len() as int) =~= ls);
        map
    }

    /// The text that holds some secrets.
    pub fn serialize(map: &SecretMap) -> (r: String)
        requires
            map.wf(),
        ensures
            r@ == serialized(listing(map@)),
    {
        let ghost pairs = map.pairs();
        proof {
            lemma_listing(pairs);
        }
        let mut out = String::new();
        out.append("# Vault secrets — edit this file, save to encrypt.\n");
        out.append("# Format: KEY=value  (one per line, lines starting with # are ignored)\n\n");
        assert(out@ =~= header());
        let n: usize = map.len();
        assert(pairs.take(0) =~= Seq::<Pair>::empty());
        assert(out@ =~= header() + body(pairs.take(0)));
        for i in 0..n
            invariant
                map.wf(),
                pairs == map.pairs(),
                n == pairs.len(),
                out@ == header() + body(pairs.take(i as int)),
        {
            let ghost before = out@;
            let secret = map.secret(i);
            out.append(secret.name.as_str());
            out.append("=");
            out.append(secret.value.as_str());
            out.append("\n");
            proof {
                reveal_strlit("=");
                reveal_strlit("\n");
                assert("="@ =~= seq!['=']);
                assert("\n"@ =~= seq!['\n']);
                assert(pairs.take(i + 1).drop_last() =~= pairs.take(i as int));
                assert(pairs.take(i + 1).last() == pairs[i as int]);
                assert(out@ =~= before + line_for(pairs[i as int]));
                assert(out@ =~= header() + body(pairs.take(i + 1)));
            }
        }
        assert(pairs.take(n as int) =~= pairs);
        if map.is_empty() {
            let ghost before = out@;
            out.append("# No secrets yet. Add lines like:\n");
            out.append("# OPENAI_API_KEY=sk-...\n");
            assert(out@ =~= before + hint());
        }
        assert(out@ =~= serialized(pairs));
        out
    }

    /// How many lines `parse` drops: those that are neither blank nor comments
    /// and hold no secret.
    pub fn count_dropped_lines(content: &str) -> (r: usize)
        ensures
            r == dropped_in(lines(content@)),
    {
        let chars = chars_of(content);
        let all = lines_of(chars.as_slice());
        let ghost ls = lines(content@);
        let mut count: usize = 0;
        assert(ls.take(0) =~= Seq::<Seq<char>>::empty());
        for i in 0..all.len()
            invariant
                all@.map_values(|l: &[char]| l@) == ls,
                count == dropped_in(ls.take(i as int)),
                count <= i,
        {
            assert(ls[i as int] == all@[i as int]@);
            assert(ls.take(i + 1).drop_last() =~= ls.take(i as int));
            assert(ls.take(i + 1).last() == ls[i as int]);
            let line = trim_chars(all[i]);
            if line.len() > 0 && line[0] != '#' {
                let dropped = match split_chars_once(line, '=') {
                    Some((left, _)) => trim_chars(left).len() == 0,
                    None => true,
                };
                if dropped {
                    count = count + 1;
                }
            }
        }
        assert(ls.take(all@.len() as int) =~= ls);
        count
    }
}

// The key file.

/// The first line that starts as an identity does.
pub open spec fn first_key(ls: Seq<Seq<char>>) -> Option<Seq<char>>
    decreases ls.len(),
{
    if ls.len() == 0 {
        None
    } else if key_mark().is_prefix_of(ls[0]) {
        Some(ls[0])
    } else {
        first_key(ls.drop_first())
    }
}

fn has_mark(line: &[char]) -> (r: bool)
    ensures
        r == key_mark().is_prefix_of(line@),
{
    let mark = chars_of("AGE-SECRET-KEY-");
    if line.len() < mark.len() {
        return false;
    }
    for i in 0..mark.len()
        invariant
            mark@ == key_mark(),
            mark@.len() <= line@.len(),
            forall|j: int| 0 <= j < i ==> mark@[j] == line@[j],
    {
        if mark[i] != line[i] {
            assert(line@.subrange(0, mark@.len() as int)[i as int] == line@[i as int]);
            return false;
        }
    }
    assert(key_mark() =~= line@.subrange(0, key_mark().len() as int));
    true
}

/// The first line of a text that starts as an identity does.
pub fn find_key_line(text: &str) -> (r: Option<String>)
    ensures
        match r {
            Some(line) => first_key(lines(text@)) == Some(line@),
            None => first_key(lines(text@)) is None,
        },
{
    let chars = chars_of(text);
    let all = lines_of(chars.as_slice());
    let ghost ls = lines(text@);
    assert(ls.skip(0) =~= ls);
    for i in 0..all.len()
        invariant
            ls == lines(text@),
            all@.map_values(|l: &[char]| l@) == ls,
            first_key(ls) == first_key(ls.skip(i as int)),
    {
        assert(ls[i as int] == all@[i as int]@);
        assert(ls.skip(i as int)[0] == ls[i as int]);
        assert(ls.skip(i as int).drop_first() =~= ls.skip(i + 1));
        if has_mark(all[i]) {
            return Some(string_of(all[i]));
        }
    }
    assert(ls.skip(all@.len() as int) =~= Seq::<Seq<char>>::empty());
    None
}

/// The identity in a key file, from what came of reading the file.
pub open spec fn identity_from(
    path: Seq<u8>,
    read: Result<Seq<char>, Seq<char>>,
) -> Result<Seq<char>, Fault> {
    match read {
        Err(e) => Err(caused(ErrorKind::KeyNotRead, "Cannot read key at "@ + shown(path), e)),
        Ok(text) => match first_key(lines(text)) {
            None => Err(
                fault(
                    ErrorKind::NoKeyLine,
                    "Invalid key file — no AGE-SECRET-KEY line found"@,
                ),
            ),
            Some(line) => match identity_read(line) {
                Ok(identity) => Ok(identity),
                Err(words) => Err(
                    fault(ErrorKind::InvalidIdentity, "Invalid age identity: "@ + words),
                ),
            },
        },
    }
}

/// A text that was read, or else the words of an error, as a value of the
/// model.
pub open spec fn text_view(r: Result<String, String>) -> Result<Seq<char>, Seq<char>> {
    match r {
        Ok(t) => Ok(t@),
        Err(e) => Err(e@),
    }
}

/// The identity in a key file, from what came of reading the file.
pub fn load_identity(path: &[u8], read: Result<String, String>) -> (r: Result<
    IdentityKey,
    VaultError,
>)
    ensures
        match r {
            Ok(identity) => identity_from(path@, text_view(read)) == Ok::<Seq<char>, Fault>(
                identity@,
            ) && is_identity(identity@),
            Err(e) => identity_from(path@, text_view(read)) == Err::<Seq<char>, Fault>(e@),
        },
{
    match read {
        Err(e) => {
            let message = "Cannot read key at ".to_owned().concat(show(path).as_str());
            Err(VaultError::caused(ErrorKind::KeyNotRead, message, e))
        },
        Ok(text) => match find_key_line(text.as_str()) {
            None => Err(
                VaultError::new(
                    ErrorKind::NoKeyLine,
                    "Invalid key file — no AGE-SECRET-KEY line found".to_owned(),
                ),
            ),
            Some(line) => match IdentityKey::parse(line.as_str()) {
                Ok(identity) => Ok(identity),
                Err(words) => Err(
                    VaultError::new(
                        ErrorKind::InvalidIdentity,
                        "Invalid age identity: ".to_owned().concat(words.as_str()),
                    ),
                ),
            },
        },
    }
}

/// The text of the key file for an identity.
pub open spec fn key_file(identity: Seq<char>) -> Seq<char> {
    "# Vault age identity key — keep this secret!\n# public key: "@ + public_text(identity)
        + "\n"@ + identity + "\n"@
}

/// The text of the key file for an identity.
pub fn key_file_of(identity: &IdentityKey) -> (r: String)
    ensures
        r@ == key_file(identity@),
        is_key_pair(identity@),
{
    let public = identity.public_key();
    "# Vault age identity key — keep this secret!\n# public key: ".to_owned().concat(
        public.as_str(),
    ).concat("\n").concat(identity.text()).concat("\n")
}

/// The identity that a key file was written for is read back from it.
pub proof fn law_key_file_reads_back(path: Seq<u8>, identity: Seq<char>)
    requires
        is_key_pair(identity),
    ensures
        identity_from(path, Ok(key_file(identity))) == Ok::<Seq<char>, Fault>(identity),
{
    reveal_strlit("AGE-SECRET-KEY-");
    reveal_strlit("# Vault age identity key — keep this secret!\n# public key: ");
    reveal_strlit("\n");
    let start = "# Vault age identity key — keep this secret!\n# public key: "@;
    let public = public_text(identity);
    let nl = seq!['\n'];
    assert("\n"@ =~= nl);
    let cut = 44int;
    let one = start.take(cut);
    let two = start.skip(cut + 1) + public;
    assert(start[cut] == '\n');
    assert(key_file(identity) =~= (one + nl) + ((two + nl) + (identity + nl)));
    assert(is_free_from(one, '\n', 0)) by {
        reveal_with_fuel(is_free_from, 50);
    }
    lemma_free(one, '\n', 0);
    let label = start.skip(cut + 1);
    assert(is_free_from(label, '\n', 0)) by {
        reveal_with_fuel(is_free_from, 20);
    }
    lemma_free(label, '\n', 0);
    assert forall|i: int| 0 <= i < two.len() implies two[i] != '\n' by {
        if i < label.len() {
            assert(two[i] == label[i]);
        } else {
            assert(two[i] == public[i - label.len()]);
        }
    }
    lemma_one_line(one);
    lemma_one_line(two);
    lemma_one_line(identity);
    lemma_lines_of_sum(two + nl, identity + nl);
    lemma_lines_of_sum(one + nl, (two + nl) + (identity + nl));
    let a = strip_return(one);
    let b = strip_return(two);
    let ls = lines(key_file(identity));
    assert(strip_return(identity) == identity) by {
        assert(identity.last() != '\r');
    }
    assert(ls =~= seq![a, b, identity]);
    assert(a[0] == '#' && b[0] == '#');
    assert(!key_mark().is_prefix_of(a)) by {
        assert(key_mark()[0] == 'A');
        if key_mark().is_prefix_of(a) {
            assert(a.subrange(0, key_mark().len() as int)[0] == a[0]);
        }
    }
    assert(!key_mark().is_prefix_of(b)) by {
        assert(key_mark()[0] == 'A');
        if key_mark().is_prefix_of(b) {
            assert(b.subrange(0, key_mark().len() as int)[0] == b[0]);
        }
    }
    assert(ls.drop_first() =~= seq![b, identity]);
    assert(ls.drop_first().drop_first() =~= seq![identity]);
    reveal_with_fuel(first_key, 4);
    assert(first_key(ls) == Some(identity));
}

} // verus!
