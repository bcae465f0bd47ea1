//! What the commands say when they fail, where their files lie, and what is in
//! a key file.

use vstd::arithmetic::power2::pow2;
use vstd::prelude::*;
use vstd::utf8::{decode_utf8, encode_utf8, valid_utf8};

use crate::command::{
    already_initialized, ask_value, backup_fault, edit_path, file_opened, import_opened, init_notes,
    invalid_name, invalid_value, key_exists, not_initialized, notice, temp_store, unknown_name,
    write_fault, Reading,
};
use crate::crypto::{decrypt_words, identity_read, public_text, work_words, DecryptStep};
use crate::fault::{within, ErrorKind, Fault};
use crate::format::{dropped_in, parsed};
use crate::law_edit::edit_notes;
use crate::law_text::{digits_value, law_decimal};
use crate::path::{joined, shown, utf8_complaint};
use crate::plan::{Ask, Plan, Stream, WriteStep};
use crate::store::{first_key, homeless, identity_from, key_file, places_in, vault_dir, Places};
use crate::text::{decimal, lines};

verus! {

/// A failure with one thing to say.
pub open spec fn says(f: Fault, kind: ErrorKind, words: Seq<char>) -> bool {
    f.kind == kind && f.chain == seq![words]
}

/// A failure with something to say and a cause.
pub open spec fn says_why(f: Fault, kind: ErrorKind, words: Seq<char>, cause: Seq<char>) -> bool {
    f.kind == kind && f.chain == seq![words, cause]
}

/// A line on the standard error.
pub open spec fn aside(text: Seq<char>) -> (Stream, Seq<char>) {
    (Stream::Notice, text.push('\n'))
}

proof fn lemma_aside(text: Seq<char>)
    ensures
        notice(text) == aside(text),
{
    reveal_strlit("\n");
    assert(text + "\n"@ =~= text.push('\n'));
}

/// What is said where a vault, a key or a name is not as a command needs it;
/// names and paths are told whole.
pub proof fn law_refusals(p: Places, name: Seq<char>)
    ensures
        says(
            not_initialized(),
            ErrorKind::NotInitialized,
            "Vault not initialized. Run: vault init"@,
        ),
        says(
            already_initialized(p),
            ErrorKind::AlreadyInitialized,
            "Vault already initialized at "@ + shown(p.dir),
        ),
        says(
            key_exists(p),
            ErrorKind::KeyExists,
            "A key already exists at "@ + shown(p.key) + " — move it away first, then retry."@,
        ),
        says(
            invalid_name(name),
            ErrorKind::InvalidName,
            "Invalid key '"@ + name
                + "' — use letters, digits and underscores, not starting with a digit"@,
        ),
        says(
            invalid_value(name),
            ErrorKind::InvalidValue,
            "Invalid value for '"@ + name
                + "' — it must be a single line without whitespace at its ends"@,
        ),
        says(unknown_name(name), ErrorKind::UnknownName, "Key '"@ + name + "' not found"@),
        says(homeless(), ErrorKind::NoHomeDirectory, "Cannot find home directory"@),
{
}

/// A failure that has another one for its cause is of its own kind, and tells
/// its own message first, and all that the other one tells after it, in order.
pub proof fn law_within(kind: ErrorKind, message: Seq<char>, inner: Fault, i: int)
    requires
        0 <= i < inner.chain.len(),
    ensures
        within(kind, message, inner).kind == kind,
        within(kind, message, inner).chain.len() == inner.chain.len() + 1,
        within(kind, message, inner).chain[0] == message,
        within(kind, message, inner).chain[i + 1] == inner.chain[i],
{
}

/// What is said where a file cannot be written or opened; paths and the words
/// of an error are told whole.
pub proof fn law_mishaps(path: Seq<u8>, words: Seq<char>)
    ensures
        says_why(
            write_fault(path, (WriteStep::Create, words)),
            ErrorKind::FileNotWritten,
            "Cannot create "@ + shown(path),
            words,
        ),
        says(write_fault(path, (WriteStep::Write, words)), ErrorKind::FileNotWritten, words),
        decrypt_words(DecryptStep::Header, words) == "Not a valid age file: "@ + words,
        decrypt_words(DecryptStep::Key, words) == "Decryption failed: "@ + words,
        decrypt_words(DecryptStep::Work, words) == "Decryption failed: "@ + words,
        decrypt_words(DecryptStep::Payload, words) == words,
        forall|step: DecryptStep|
            says(
                #[trigger] backup_fault(step, words),
                ErrorKind::BackupNotDecrypted,
                "Failed to decrypt key backup (wrong passphrase?): "@ + decrypt_words(step, words),
            ),
{
}

/// What is said of a file that does not open or holds no text.
pub proof fn law_unopened(p: Places, r: Reading, step: DecryptStep, words: Seq<char>, data: Seq<u8>)
    requires
        r !is Verify,
        !valid_utf8(data),
    ensures
        file_opened(p, r, Err((step, words))) matches Plan::End(Err(f)) && says(
            f,
            ErrorKind::StoreNotDecrypted,
            "Failed to decrypt store: "@ + decrypt_words(step, words),
        ),
        file_opened(p, r, Ok(data)) matches Plan::End(Err(f)) && says_why(
            f,
            ErrorKind::StoreNotText,
            "Decrypted store is not valid UTF-8"@,
            utf8_complaint(data),
        ),
        import_opened(p, Ok(data)) matches Plan::End(Err(f)) && says_why(
            f,
            ErrorKind::BackupNotText,
            "Decrypted key is not valid UTF-8"@,
            utf8_complaint(data),
        ),
{
}

/// What is said of a backup that holds text without a key.
pub proof fn law_keyless(p: Places, data: Seq<u8>)
    requires
        valid_utf8(data),
        forall|j: int|
            0 <= j < lines(decode_utf8(data)).len() ==> !"AGE-SECRET-KEY-"@.is_prefix_of(
                #[trigger] lines(decode_utf8(data))[j],
            ),
    ensures
        import_opened(p, Ok(data)) matches Plan::End(Err(f)) && says(
            f,
            ErrorKind::BackupWithoutKey,
            "Decrypted backup contains no AGE-SECRET-KEY line — refusing to install"@,
        ),
{
    lemma_no_key(lines(decode_utf8(data)));
}

/// What is said of a file that asks for too much work: how long it would take,
/// in seconds, as the power of two that it is; and for one that is too large to
/// be told, that it is more.
pub proof fn law_work_words(required: u8, target: u8)
    ensures
        required < target ==> work_words(required, target)
            == "Excessive work parameter for passphrase.\nDecryption would take "@
            + "less than a second."@,
        target <= required < target + 64 ==> {
            &&& work_words(required, target)
                == "Excessive work parameter for passphrase.\nDecryption would take "@ + ("around "@
                + decimal(pow2((required - target) as nat)) + " seconds."@)
            &&& digits_value(decimal(pow2((required - target) as nat))) == pow2(
                (required - target) as nat,
            )
        },
        required >= target + 64 ==> work_words(required, target)
            == "Excessive work parameter for passphrase.\nDecryption would take "@
            + "more than 18446744073709551615 seconds."@,
{
    if required >= target {
        law_decimal(pow2((required - target) as nat));
    }
}

/// The value of a new secret is asked for by the whole name.
pub proof fn law_prompt(p: Places, name: Seq<char>)
    ensures
        ask_value(p, name) matches Plan::Ask(ask, _) && ask == Ask::Password(
            "Enter value for "@ + name + ": "@,
        ),
{
}

// Where files lie.

/// A path is joined to a directory as it is: both are there whole, and between
/// them stands one slash, unless the directory has none or ends with one. A path
/// that starts with a slash stands for itself.
pub proof fn law_joined(base: Seq<u8>, name: Seq<char>)
    ensures
        encode_utf8(name).len() > 0 && encode_utf8(name)[0] == 47 ==> joined(base, name)
            == encode_utf8(name),
        encode_utf8(name).len() == 0 || encode_utf8(name)[0] != 47 ==> {
            &&& base.len() > 0 && base[base.len() - 1] != 47 ==> joined(base, name) == base
                + seq![47u8] + encode_utf8(name)
            &&& base.len() == 0 || base[base.len() - 1] == 47 ==> joined(base, name) == base
                + encode_utf8(name)
        },
{
    assert(base.push(47u8) =~= base + seq![47u8]);
}

/// The files of a vault lie in its directory, and the directory below that of
/// the user's data, or else the home directory.
pub proof fn law_places(dir: Seq<u8>, process: u32, base: Seq<u8>)
    ensures
        places_in(dir).dir == dir,
        places_in(dir).key == joined(dir, "key.txt"@),
        places_in(dir).store == joined(dir, "store.env.age"@),
        temp_store(places_in(dir), process) == joined(
            dir,
            "store.env.age.tmp-"@ + decimal(process as nat),
        ),
        edit_path(base, process) == joined(
            base,
            "vault-edit-"@ + decimal(process as nat) + ".env"@,
        ),
        forall|home: Option<Seq<u8>>| #[trigger]
            vault_dir(Some(base), home) == Some(joined(base, "vault"@)),
        vault_dir(None, Some(base)) == Some(joined(base, "vault"@)),
        vault_dir(None, None) is None,
{
}

// The key file.

/// What a key file holds: two comments, the second with the public key, and the
/// identity, each on a line of its own and whole.
pub proof fn law_key_file(identity: Seq<char>)
    ensures
        key_file(identity) == "# Vault age identity key — keep this secret!"@ + seq!['\n']
            + "# public key: "@ + public_text(identity) + seq!['\n'] + identity + seq!['\n'],
{
    reveal_strlit("# Vault age identity key — keep this secret!\n# public key: ");
    reveal_strlit("# Vault age identity key — keep this secret!");
    reveal_strlit("# public key: ");
    reveal_strlit("\n");
    assert("\n"@ =~= seq!['\n']);
    assert("# Vault age identity key — keep this secret!\n# public key: "@
        =~= "# Vault age identity key — keep this secret!"@ + seq!['\n'] + "# public key: "@);
    assert(key_file(identity) =~= "# Vault age identity key — keep this secret!"@ + seq!['\n']
        + "# public key: "@ + public_text(identity) + seq!['\n'] + identity + seq!['\n']);
}

proof fn lemma_first_key(ls: Seq<Seq<char>>, i: int)
    requires
        0 <= i < ls.len(),
        "AGE-SECRET-KEY-"@.is_prefix_of(ls[i]),
        forall|j: int| 0 <= j < i ==> !"AGE-SECRET-KEY-"@.is_prefix_of(#[trigger] ls[j]),
    ensures
        first_key(ls) == Some(ls[i]),
    decreases ls.len(),
{
    if i > 0 {
        let rest = ls.drop_first();
        assert(rest[i - 1] == ls[i]);
        assert(!"AGE-SECRET-KEY-"@.is_prefix_of(ls[0]));
        assert forall|j: int| 0 <= j < i - 1 implies !"AGE-SECRET-KEY-"@.is_prefix_of(
            #[trigger] rest[j],
        ) by {
            assert(rest[j] == ls[j + 1]);
        }
        lemma_first_key(rest, i - 1);
    }
}

/// The identity of a vault is that of the first line of its key file that
/// starts as an identity does, wherever it stands.
pub proof fn law_identity_line(path: Seq<u8>, text: Seq<char>, i: int)
    requires
        0 <= i < lines(text).len(),
        "AGE-SECRET-KEY-"@.is_prefix_of(lines(text)[i]),
        forall|j: int|
            0 <= j < i ==> !"AGE-SECRET-KEY-"@.is_prefix_of(#[trigger] lines(text)[j]),
    ensures
        match identity_from(path, Ok(text)) {
            Ok(identity) => identity_read(lines(text)[i]) == Ok::<Seq<char>, Seq<char>>(identity),
            Err(f) => identity_read(lines(text)[i]) matches Err(words) && says(
                f,
                ErrorKind::InvalidIdentity,
                "Invalid age identity: "@ + words,
            ),
        },
{
    lemma_first_key(lines(text), i);
}

/// A key file of which no line starts as an identity does holds none; and one
/// that cannot be read is told by its path.
pub proof fn law_no_identity(path: Seq<u8>, text: Seq<char>, words: Seq<char>)
    requires
        forall|j: int|
            0 <= j < lines(text).len() ==> !"AGE-SECRET-KEY-"@.is_prefix_of(
                #[trigger] lines(text)[j],
            ),
    ensures
        identity_from(path, Ok(text)) matches Err(f) && says(
            f,
            ErrorKind::NoKeyLine,
            "Invalid key file — no AGE-SECRET-KEY line found"@,
        ),
        identity_from(path, Err(words)) matches Err(f) && says_why(
            f,
            ErrorKind::KeyNotRead,
            "Cannot read key at "@ + shown(path),
            words,
        ),
{
    lemma_no_key(lines(text));
}

proof fn lemma_no_key(ls: Seq<Seq<char>>)
    requires
        forall|j: int| 0 <= j < ls.len() ==> !"AGE-SECRET-KEY-"@.is_prefix_of(#[trigger] ls[j]),
    ensures
        first_key(ls) is None,
    decreases ls.len(),
{
    if ls.len() > 0 {
        let rest = ls.drop_first();
        assert(!"AGE-SECRET-KEY-"@.is_prefix_of(ls[0]));
        assert forall|j: int| 0 <= j < rest.len() implies !"AGE-SECRET-KEY-"@.is_prefix_of(
            #[trigger] rest[j],
        ) by {
            assert(rest[j] == ls[j + 1]);
        }
        lemma_no_key(rest);
    }
}

/// What `init` says: where the vault lies, its public key, and what to do next.
pub proof fn law_init_words(p: Places, identity: Seq<char>)
    ensures
        init_notes(p, identity) == seq![
            aside("✓ Vault initialized"@),
            aside("  Location:   "@ + shown(p.dir)),
            aside("  Public key: "@ + public_text(identity)),
            aside(""@),
            aside("  Next steps:"@),
            aside("    vault add OPENAI_API_KEY sk-..."@),
            aside("    vault edit              # open in $EDITOR"@),
            aside("    eval \"$(vault env)\"    # inject into shell"@),
        ],
{
    lemma_aside("✓ Vault initialized"@);
    lemma_aside("  Location:   "@ + shown(p.dir));
    lemma_aside("  Public key: "@ + public_text(identity));
    lemma_aside(""@);
    lemma_aside("  Next steps:"@);
    lemma_aside("    vault add OPENAI_API_KEY sk-..."@);
    lemma_aside("    vault edit              # open in $EDITOR"@);
    lemma_aside("    eval \"$(vault env)\"    # inject into shell"@);
}

/// What `edit` says of a text that it saves: how many lines were not saved, if
/// any, and how many secrets there are.
pub proof fn law_edit_words(edited: Seq<char>)
    ensures
        edit_notes(edited) == (if dropped_in(lines(edited)) > 0 {
            seq![
                aside(
                    "⚠ "@ + decimal(dropped_in(lines(edited)))
                        + " line(s) without KEY=VALUE were ignored and not saved."@,
                ),
            ]
        } else {
            Seq::empty()
        }) + seq![
            aside(
                "✓ Store updated ("@ + decimal(parsed(edited).len())
                    + " secrets)"@,
            ),
        ],
{
    lemma_aside(
        "⚠ "@ + decimal(dropped_in(lines(edited)))
            + " line(s) without KEY=VALUE were ignored and not saved."@,
    );
    lemma_aside(
        "✓ Store updated ("@ + decimal(parsed(edited).len()) + " secrets)"@,
    );
}

} // verus!
