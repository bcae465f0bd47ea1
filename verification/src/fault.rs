//! What can go wrong, and how it is put to the user.

use vstd::prelude::*;

verus! {

/// The kinds of failure.
#[derive(Debug, Clone, Copy, PartialEq, Eq, Structural)]
pub enum ErrorKind {
    NoHomeDirectory,
    NotInitialized,
    AlreadyInitialized,
    DirectoryNotCreated,
    KeyNotRead,
    NoKeyLine,
    InvalidIdentity,
    StoreNotRead,
    StoreNotDecrypted,
    StoreNotText,
    NotEncrypted,
    FileNotWritten,
    StoreNotReplaced,
    KeyExists,
    BackupNotDecrypted,
    BackupNotText,
    BackupWithoutKey,
    InvalidName,
    InvalidValue,
    UnknownName,
    NoPassword,
    EditorNotStarted,
    EditorFailed,
    EditNotRead,
    FieldEmpty,
    FieldWithDash,
    FieldWithSpace,
    FieldWithAt,
    PathEmpty,
    RemotesNotRead,
    RemotesInvalid,
    RemotesNotFormatted,
    RemotesNotWritten,
    RemotesNotProtected,
    RemoteUnknown,
    RemoteExists,
    RemoteNotFound,
    NotImplemented,
    StoreMissing,
    StoreFileNotRead,
    RemoteDirectoryNotCreated,
    SshNotStarted,
    SshNotFed,
    SshNotRead,
    SshNotAwaited,
    SshFailed,
}

/// A failure as a value of the model: its kind, what is said of it, and what
/// is said of its causes, from the outermost inwards.
#[verifier::ext_equal]
pub struct Fault {
    pub kind: ErrorKind,
    pub chain: Seq<Seq<char>>,
}

/// A failure that has no cause to tell of.
pub open spec fn fault(kind: ErrorKind, message: Seq<char>) -> Fault {
    Fault { kind, chain: seq![message] }
}

/// A failure with its cause.
pub open spec fn caused(kind: ErrorKind, message: Seq<char>, cause: Seq<char>) -> Fault {
    Fault { kind, chain: seq![message, cause] }
}

/// A failure that another one is the cause of.
pub open spec fn within(kind: ErrorKind, message: Seq<char>, inner: Fault) -> Fault {
    Fault { kind, chain: seq![message] + inner.chain }
}

/// A failure.
#[derive(Debug)]
pub struct VaultError {
    kind: ErrorKind,
    chain: Vec<String>,
}

impl View for VaultError {
    type V = Fault;

    closed spec fn view(&self) -> Fault {
        Fault { kind: self.kind, chain: self.chain@.map_values(|s: String| s@) }
    }
}

impl VaultError {
    /// A failure that has no cause to tell of.
    pub(crate) fn new(kind: ErrorKind, message: String) -> (r: VaultError)
        ensures
            r@ == fault(kind, message@),
    {
        let mut chain: Vec<String> = Vec::new();
        chain.push(message);
        let r = VaultError { kind, chain };
        assert(r@ =~= fault(kind, message@));
        r
    }

    /// A failure with its cause.
    pub(crate) fn caused(kind: ErrorKind, message: String, cause: String) -> (r: VaultError)
        ensures
            r@ == caused(kind, message@, cause@),
    {
        let mut chain: Vec<String> = Vec::new();
        chain.push(message);
        chain.push(cause);
        let r = VaultError { kind, chain };
        assert(r@ =~= caused(kind, message@, cause@));
        r
    }

    /// A failure that this one is the cause of.
    pub(crate) fn within(self, kind: ErrorKind, message: String) -> (r: VaultError)
        ensures
            r@ == within(kind, message@, self@),
    {
        let mut chain: Vec<String> = Vec::new();
        chain.push(message);
        let mut inner = self.chain;
        chain.append(&mut inner);
        let r = VaultError { kind, chain };
        assert(r@ =~= within(kind, message@, self@));
        r
    }

    /// What kind of failure it is.
    pub fn kind(&self) -> (r: ErrorKind)
        ensures
            r == self@.kind,
    {
        self.kind
    }

    /// How many messages there are, that of the failure itself and those of
    /// its causes.
    pub fn depth(&self) -> (r: usize)
        ensures
            r == self@.chain.len(),
    {
        self.chain.len()
    }

    /// The message at place `i`: that of the failure itself comes first, then
    /// its causes, from the outermost inwards.
    pub fn message(&self, i: usize) -> (r: &str)
        requires
            i < self@.chain.len(),
        ensures
            r@ == self@.chain[i as int],
    {
        self.chain[i].as_str()
    }
}

} // verus!
