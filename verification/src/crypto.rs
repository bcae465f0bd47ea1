//! Encryption with age: identities, passphrases, and what they open.

use vstd::arithmetic::power2::{
    lemma2_to64, lemma_pow2_strictly_increases, lemma_pow2_unfold, pow2,
};
use vstd::prelude::*;

use std::io::Read;

use age::secrecy::ExposeSecret;

use crate::text::{decimal, decimal_of};

verus! {

/// How far the decryption of a file came before it failed.
#[derive(Debug, Clone, Copy, PartialEq, Eq, Structural)]
pub enum DecryptStep {
    /// The file is not an age file.
    Header,
    /// The identity or passphrase does not open it.
    Key,
    /// What it holds cannot be read.
    Payload,
    /// It takes more work than the machine is ready to do.
    Work,
}

/// Why a file could not be decrypted.
#[derive(Debug)]
pub struct DecryptError {
    pub step: DecryptStep,
    pub words: String,
}

/// The identity that a line of text stands for, as the text that the identity
/// has itself, or else the words of the error.
pub uninterp spec fn identity_read(line: Seq<char>) -> Result<Seq<char>, Seq<char>>;

/// The text of the public key that belongs to an identity.
pub uninterp spec fn public_text(identity: Seq<char>) -> Seq<char>;

/// Whether a file starts as an age file does.
pub uninterp spec fn is_age_file(ciphertext: Seq<u8>) -> bool;

/// What a file holds for an identity, or else how far its decryption comes.
pub uninterp spec fn held_for_identity(
    identity: Seq<char>,
    ciphertext: Seq<u8>,
) -> Result<Seq<u8>, DecryptStep>;

/// What a file holds for a passphrase.
pub uninterp spec fn held_for_passphrase(
    passphrase: Seq<char>,
    ciphertext: Seq<u8>,
) -> Option<Seq<u8>>;

/// The work that a file which is encrypted to a passphrase asks for, as the
/// power of two that it is.
pub uninterp spec fn work_asked(ciphertext: Seq<u8>) -> u8;

/// Whether a line of text stands for the identity with the text `text`.
pub open spec fn reads_as(line: Seq<char>, text: Seq<char>) -> bool {
    identity_read(line) == Ok::<Seq<char>, Seq<char>>(text)
}

/// Whether a line of text stands for no identity, and `words` say so.
pub open spec fn misreads(line: Seq<char>, words: Seq<char>) -> bool {
    identity_read(line) == Err::<Seq<char>, Seq<char>>(words)
}

/// Whether a file holds `data` for an identity.
pub open spec fn opens_to(identity: Seq<char>, ciphertext: Seq<u8>, data: Seq<u8>) -> bool {
    held_for_identity(identity, ciphertext) == Ok::<Seq<u8>, DecryptStep>(data)
}

/// Whether the decryption of a file with an identity fails, and where.
pub open spec fn stops_at(identity: Seq<char>, ciphertext: Seq<u8>, step: DecryptStep) -> bool {
    held_for_identity(identity, ciphertext) == Err::<Seq<u8>, DecryptStep>(step)
}

/// What came of reading an identity, as a value of the model.
pub open spec fn read_view(r: Result<String, String>) -> Result<Seq<char>, Seq<char>> {
    match r {
        Ok(text) => Ok(text@),
        Err(words) => Err(words@),
    }
}

/// What came of decrypting with an identity, without the words of the error.
pub open spec fn held_view(r: Result<Vec<u8>, DecryptError>) -> Result<Seq<u8>, DecryptStep> {
    match r {
        Ok(data) => Ok(data@),
        Err(e) => Err(e.step),
    }
}

/// The outcome of a decryption that gives `data`.
pub open spec fn held(data: Seq<u8>) -> Result<Seq<u8>, DecryptStep> {
    Ok(data)
}

/// What every line that holds an identity starts with.
pub open spec fn key_mark() -> Seq<char> {
    "AGE-SECRET-KEY-"@
}

/// Whether a text has the shape of an identity's own text.
pub open spec fn is_identity_shaped(s: Seq<char>) -> bool {
    &&& key_mark().is_prefix_of(s)
    &&& forall|i: int|
        0 <= i < s.len() ==> 'A' <= #[trigger] s[i] <= 'Z' || '0' <= s[i] <= '9' || s[i] == '-'
}

/// Whether a text has the shape of a public key.
pub open spec fn is_public_shaped(s: Seq<char>) -> bool {
    &&& "age1"@.is_prefix_of(s)
    &&& forall|i: int| 0 <= i < s.len() ==> 'a' <= #[trigger] s[i] <= 'z' || '0' <= s[i] <= '9'
}

/// Whether a text is an identity's own text.
pub open spec fn is_identity(s: Seq<char>) -> bool {
    reads_as(s, s) && is_identity_shaped(s)
}

/// Whether a text is that of an identity whose public key can be put down as
/// text.
pub open spec fn is_key_pair(identity: Seq<char>) -> bool {
    is_identity(identity) && is_public_shaped(public_text(identity))
}

/// `<age::x25519::Identity as FromStr>::from_str`, and the identity's own text
/// by `to_string`. That text is upper-case Bech32 behind a fixed prefix, and
/// reading it gives back the same identity. The words of the error are named.
#[verifier::external_body]
fn read_identity(line: &str) -> (r: Result<String, String>)
    ensures
        identity_read(line@) == read_view(r),
        r matches Ok(text) ==> is_identity(text@),
{
    line.parse::<age::x25519::Identity>()
        .map(|identity| identity.to_string().expose_secret().to_owned())
        .map_err(|words| words.to_owned())
}

/// `age::x25519::Identity::generate`, and the identity's own text by
/// `to_string`. Which identity comes out is left to chance; its text is that
/// of an identity.
#[verifier::external_body]
fn new_identity() -> (r: String)
    ensures
        is_identity(r@),
{
    age::x25519::Identity::generate().to_string().expose_secret().to_owned()
}

/// `age::x25519::Identity::to_public`, and the text of the key by `Display`:
/// lower-case Bech32 behind the prefix `age`.
#[verifier::external_body]
fn public_key_of(identity: &str) -> (r: String)
    requires
        is_identity(identity@),
    ensures
        r@ == public_text(identity@),
        is_public_shaped(r@),
{
    let identity: age::x25519::Identity = identity.parse().expect("an identity's own text");
    identity.to_public().to_string()
}

/// `age::encrypt` to the public key of an identity. It succeeds: such a key
/// takes every file key, one recipient agrees with itself, and the file is
/// written to memory. The file that comes out depends on chance; the identity
/// opens it, and what it holds is `data`.
#[verifier::external_body]
fn encrypt_for_identity(identity: &str, data: &[u8]) -> (r: Result<Vec<u8>, String>)
    requires
        is_identity(identity@),
    ensures
        r is Ok,
        r matches Ok(c) ==> is_age_file(c@) && held_for_identity(identity@, c@) == held(data@),
{
    let identity: age::x25519::Identity = identity.parse().expect("an identity's own text");
    age::encrypt(&identity.to_public(), data).map_err(|e| e.to_string())
}

/// `age::Decryptor` with an identity: what comes out, or how far it comes, is
/// settled by the identity and the file. That the file is an age file at all
/// is settled by the file alone. Nothing is said of the words of the error.
#[verifier::external_body]
fn decrypt_with_identity(identity: &str, ciphertext: &[u8]) -> (r: Result<Vec<u8>, DecryptError>)
    requires
        is_identity(identity@),
    ensures
        held_for_identity(identity@, ciphertext@) == held_view(r),
        r matches Err(e) ==> e.step != DecryptStep::Work,
        is_age_file(ciphertext@) <==> !(r matches Err(e) && e.step == DecryptStep::Header),
{
    let identity: age::x25519::Identity = identity.parse().expect("an identity's own text");
    let decryptor = age::Decryptor::new_buffered(ciphertext)
        .map_err(|e| DecryptError { step: DecryptStep::Header, words: e.to_string() })?;
    let mut reader = decryptor
        .decrypt(std::iter::once(&identity as &dyn age::Identity))
        .map_err(|e| DecryptError { step: DecryptStep::Key, words: e.to_string() })?;
    let mut data = Vec::new();
    reader
        .read_to_end(&mut data)
        .map_err(|e| DecryptError { step: DecryptStep::Payload, words: e.to_string() })?;
    Ok(data)
}

/// `age::encrypt` to an `age::scrypt::Recipient`. It comes back with no error:
/// a passphrase takes every file key, one recipient agrees with itself, and the
/// file is written to memory. The file that comes out depends on chance and on
/// the speed of the machine; it holds `data` for the passphrase.
#[verifier::external_body]
fn encrypt_for_passphrase(passphrase: &str, data: &[u8]) -> (r: Result<Vec<u8>, String>)
    ensures
        r is Ok,
        r matches Ok(c) ==> is_age_file(c@) && held_for_passphrase(passphrase@, c@) == Some(data@),
{
    let secret = age::secrecy::SecretString::from(passphrase.to_owned());
    age::encrypt(&age::scrypt::Recipient::new(secret), data).map_err(|e| e.to_string())
}

/// Why a passphrase did not open a file.
enum Refusal {
    /// The file asks for too much work; in about a second the machine does
    /// `target`. Both are powers of two.
    Work { required: u8, target: u8 },
    /// How far the decryption came, and the words of the error.
    Failed(DecryptStep, String),
}

/// `age::Decryptor` with an `age::scrypt::Identity`: what comes out is settled
/// by the passphrase and the file. How much work is accepted depends on the
/// machine, so that a file may be refused for the work that it asks for; which
/// work that is, the file alone settles. Where the decryption fails in any
/// other way, the file holds nothing for the passphrase. Nothing is said of the
/// words of the error, nor of the work that the machine is ready for.
#[verifier::external_body]
fn decrypt_with_passphrase(passphrase: &str, ciphertext: &[u8]) -> (r: Result<Vec<u8>, Refusal>)
    ensures
        r matches Ok(data) ==> held_for_passphrase(passphrase@, ciphertext@) == Some(data@),
        r matches Err(e) ==> (e !is Work ==> held_for_passphrase(passphrase@, ciphertext@) is None),
        r matches Err(Refusal::Work { required, target: _ }) ==> required == work_asked(
            ciphertext@,
        ),
        r matches Err(Refusal::Failed(step, _)) ==> step != DecryptStep::Work,
        is_age_file(ciphertext@) <==> !(r matches Err(Refusal::Failed(step, _)) && step
            == DecryptStep::Header),
{
    let secret = age::secrecy::SecretString::from(passphrase.to_owned());
    let identity = age::scrypt::Identity::new(secret);
    let decryptor = age::Decryptor::new_buffered(ciphertext)
        .map_err(|e| Refusal::Failed(DecryptStep::Header, e.to_string()))?;
    let opened = decryptor.decrypt(std::iter::once(&identity as &dyn age::Identity));
    let mut reader = opened.map_err(|e| match e {
        age::DecryptError::ExcessiveWork { required, target } => Refusal::Work { required, target },
        e => Refusal::Failed(DecryptStep::Key, e.to_string()),
    })?;
    let mut data = Vec::new();
    reader
        .read_to_end(&mut data)
        .map_err(|e| Refusal::Failed(DecryptStep::Payload, e.to_string()))?;
    Ok(data)
}

/// An age identity: a key that opens what was encrypted to it.
pub struct IdentityKey {
    text: String,
}

impl View for IdentityKey {
    type V = Seq<char>;

    closed spec fn view(&self) -> Seq<char> {
        self.text@
    }
}

impl IdentityKey {
    #[verifier::type_invariant]
    spec fn is_valid(self) -> bool {
        is_identity(self.text@)
    }

    /// The identity that a line of text stands for.
    pub fn parse(line: &str) -> (r: Result<IdentityKey, String>)
        ensures
            match r {
                Ok(key) => reads_as(line@, key@) && is_identity(key@),
                Err(words) => misreads(line@, words@),
            },
    {
        match read_identity(line) {
            Ok(text) => Ok(IdentityKey { text }),
            Err(words) => Err(words),
        }
    }

    /// A new identity.
    pub fn generate() -> (r: IdentityKey)
        ensures
            is_identity(r@),
    {
        IdentityKey { text: new_identity() }
    }

    /// The identity's own text.
    pub fn text(&self) -> (r: &str)
        ensures
            r@ == self@,
            is_identity(r@),
    {
        proof {
            use_type_invariant(self);
        }
        self.text.as_str()
    }

    /// The text of the public key that belongs to the identity.
    pub fn public_key(&self) -> (r: String)
        ensures
            r@ == public_text(self@),
            is_public_shaped(r@),
    {
        public_key_of(self.text())
    }
}

/// What a file is encrypted to, and opened with.
pub enum Lock {
    Identity(IdentityKey),
    Passphrase(String),
}

/// A lock as a value of the model.
pub enum Locked {
    Identity(Seq<char>),
    Passphrase(Seq<char>),
}

impl View for Lock {
    type V = Locked;

    open spec fn view(&self) -> Locked {
        match self {
            Lock::Identity(key) => Locked::Identity(key@),
            Lock::Passphrase(words) => Locked::Passphrase(words@),
        }
    }
}

/// Whether a file holds `data` for a lock.
pub open spec fn holds(lock: Locked, ciphertext: Seq<u8>, data: Seq<u8>) -> bool {
    match lock {
        Locked::Identity(key) => opens_to(key, ciphertext, data),
        Locked::Passphrase(words) => held_for_passphrase(words, ciphertext) == Some(data),
    }
}

/// Whether `out` can come of encrypting `data`: a file comes out, and it holds
/// the data.
pub open spec fn may_seal(
    lock: Locked,
    data: Seq<u8>,
    out: Result<Seq<u8>, Seq<char>>,
) -> bool {
    out matches Ok(c) && is_age_file(c) && holds(lock, c, data)
}

/// What is said of a file that asks for the work `required`, where the machine
/// does `target` in about a second. Both are powers of two.
pub open spec fn work_words(required: u8, target: u8) -> Seq<char> {
    "Excessive work parameter for passphrase.\nDecryption would take "@ + (if required < target {
        "less than a second."@
    } else if required - target < 64 {
        "around "@ + decimal(pow2((required - target) as nat)) + " seconds."@
    } else {
        "more than 18446744073709551615 seconds."@
    })
}

/// Whether a file was refused for the work that it asks for, and `words` say
/// so.
pub open spec fn is_refusal(ciphertext: Seq<u8>, words: Seq<char>) -> bool {
    exists|target: u8| words == #[trigger] work_words(work_asked(ciphertext), target)
}

/// Whether `out` can come of decrypting a file: what it holds, or else how far
/// the decryption came and the words of an error. It fails at the header just
/// where the file is no age file, and what an identity makes of a file does
/// not change. With a passphrase it fails where the file holds nothing for it,
/// or is refused for the work that it asks for.
pub open spec fn may_open(
    lock: Locked,
    ciphertext: Seq<u8>,
    out: Result<Seq<u8>, (DecryptStep, Seq<char>)>,
) -> bool {
    match out {
        Ok(data) => is_age_file(ciphertext) && holds(lock, ciphertext, data),
        Err((step, words)) => {
            &&& step == DecryptStep::Header <==> !is_age_file(ciphertext)
            &&& match lock {
                Locked::Identity(key) => {
                    step != DecryptStep::Work && stops_at(key, ciphertext, step)
                },
                Locked::Passphrase(secret) => if step == DecryptStep::Work {
                    is_refusal(ciphertext, words)
                } else {
                    held_for_passphrase(secret, ciphertext) is None
                },
            }
        },
    }
}

/// Opening gives back what was sealed: whatever comes of decrypting a file
/// that came of encrypting some data to the same lock is that data. With an
/// identity the data does come; with a passphrase it comes unless the file is
/// refused for the work that it asks for.
pub proof fn law_opening_gives_back(
    lock: Locked,
    data: Seq<u8>,
    ciphertext: Seq<u8>,
    out: Result<Seq<u8>, (DecryptStep, Seq<char>)>,
)
    requires
        may_seal(lock, data, Ok(ciphertext)),
        may_open(lock, ciphertext, out),
    ensures
        out matches Ok(d) ==> d == data,
        lock is Identity ==> out is Ok,
        out matches Err((step, words)) ==> step == DecryptStep::Work && is_refusal(
            ciphertext,
            words,
        ),
{
}

/// An outcome of encrypting, as a value of the model.
pub open spec fn sealed_view(r: Result<Vec<u8>, String>) -> Result<Seq<u8>, Seq<char>> {
    match r {
        Ok(c) => Ok(c@),
        Err(words) => Err(words@),
    }
}

/// An outcome of decrypting, as a value of the model.
pub open spec fn opened_view(r: Result<Vec<u8>, DecryptError>) -> Result<
    Seq<u8>,
    (DecryptStep, Seq<char>),
> {
    match r {
        Ok(data) => Ok(data@),
        Err(e) => Err((e.step, e.words@)),
    }
}

/// Encrypts `data` to a lock. It succeeds for every lock and all data.
pub fn age_encrypt(lock: &Lock, data: &[u8]) -> (r: Result<Vec<u8>, String>)
    ensures
        r is Ok,
        may_seal(lock@, data@, sealed_view(r)),
{
    match lock {
        Lock::Identity(key) => encrypt_for_identity(key.text(), data),
        Lock::Passphrase(words) => encrypt_for_passphrase(words.as_str(), data),
    }
}

/// Decrypts a file with a lock.
pub fn age_decrypt(lock: &Lock, ciphertext: &[u8]) -> (r: Result<Vec<u8>, DecryptError>)
    ensures
        may_open(lock@, ciphertext@, opened_view(r)),
{
    match lock {
        Lock::Identity(key) => decrypt_with_identity(key.text(), ciphertext),
        Lock::Passphrase(words) => match decrypt_with_passphrase(words.as_str(), ciphertext) {
            Ok(data) => Ok(data),
            Err(Refusal::Work { required, target }) => {
                Err(DecryptError::too_much_work(required, target))
            },
            Err(Refusal::Failed(step, words)) => Err(DecryptError { step, words }),
        },
    }
}

/// What is said of a decryption that failed.
pub open spec fn decrypt_words(step: DecryptStep, words: Seq<char>) -> Seq<char> {
    match step {
        DecryptStep::Header => "Not a valid age file: "@ + words,
        DecryptStep::Key | DecryptStep::Work => "Decryption failed: "@ + words,
        DecryptStep::Payload => words,
    }
}

fn power_of_two(k: u8) -> (r: u64)
    requires
        k < 64,
    ensures
        r == pow2(k as nat),
{
    let mut r: u64 = 1;
    proof {
        lemma2_to64();
    }
    for i in 0..k
        invariant
            k < 64,
            r == pow2(i as nat),
            pow2(64) == 0x1_0000_0000_0000_0000,
    {
        proof {
            lemma_pow2_unfold((i + 1) as nat);
            lemma_pow2_strictly_increases((i + 1) as nat, 64);
        }
        r = r * 2;
    }
    r
}

impl DecryptError {
    /// A file asks for the work `required`, where the machine does `target` in
    /// about a second. Both are powers of two.
    pub fn too_much_work(required: u8, target: u8) -> (r: DecryptError)
        ensures
            r.step == DecryptStep::Work,
            r.words@ == work_words(required, target),
    {
        let start = "Excessive work parameter for passphrase.\nDecryption would take ".to_owned();
        let words = if required < target {
            start.concat("less than a second.")
        } else if required - target < 64 {
            let seconds = decimal_of(power_of_two(required - target));
            let time = "around ".to_owned().concat(seconds.as_str()).concat(" seconds.");
            start.concat(time.as_str())
        } else {
            start.concat("more than 18446744073709551615 seconds.")
        };
        DecryptError { step: DecryptStep::Work, words }
    }

    /// What is said of it.
    pub fn message(&self) -> (r: String)
        ensures
            r@ == decrypt_words(self.step, self.words@),
    {
        match self.step {
            DecryptStep::Header => "Not a valid age file: ".to_owned().concat(self.words.as_str()),
            DecryptStep::Key | DecryptStep::Work => {
                "Decryption failed: ".to_owned().concat(self.words.as_str())
            },
            DecryptStep::Payload => self.words.as_str().to_owned(),
        }
    }
}

} // verus!
