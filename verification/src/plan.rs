//! What a command asks for, step by step.
//!
//! A command touches the world only by asking: whether a path is there, for
//! the contents of a file, for a line to be printed. A `Plan` says what it
//! asks first and how it goes on from each answer, up to its end. It is what
//! the contracts of the commands speak of.

use vstd::prelude::*;

use crate::crypto::{is_key_pair, may_open, may_seal, DecryptStep, Locked};
use crate::fault::{Fault, VaultError};
use crate::remote::{sites, texts, Remote, Site};

verus! {

/// Where a line is printed.
#[derive(Debug, Clone, Copy, PartialEq, Eq, Structural)]
pub enum Stream {
    /// The standard output.
    Output,
    /// The standard error.
    Notice,
}

/// A text to print.
#[derive(Debug)]
pub struct Line {
    pub stream: Stream,
    pub text: String,
}

impl View for Line {
    type V = (Stream, Seq<char>);

    open spec fn view(&self) -> (Stream, Seq<char>) {
        (self.stream, self.text@)
    }
}

/// Some texts to print, as values of the model.
pub open spec fn spoken(lines: Seq<Line>) -> Seq<(Stream, Seq<char>)> {
    lines.map_values(|l: Line| l@)
}

/// Where the writing of a file failed.
#[derive(Debug, Clone, Copy, PartialEq, Eq, Structural)]
pub enum WriteStep {
    Create,
    Write,
}

/// Where the running of a program failed.
#[derive(Debug, Clone, Copy, PartialEq, Eq, Structural)]
pub enum RunStep {
    Start,
    Feed,
    Read,
    Await,
}

/// What a command asks for, as a value of the model.
pub enum Ask {
    Exists(Seq<u8>),
    IsDir(Seq<u8>),
    ReadText(Seq<u8>),
    ReadData(Seq<u8>),
    CreateDir(Seq<u8>),
    WritePrivate(Seq<u8>, Seq<u8>),
    Rename(Seq<u8>, Seq<u8>),
    Remove(Seq<u8>),
    ProcessId,
    Password(Seq<char>),
    Variable(Seq<char>),
    TextVariable(Seq<char>),
    TempDir,
    Shell(Seq<char>),
    Ssh(Seq<Seq<char>>, Option<Seq<u8>>, bool),
    Say(Seq<(Stream, Seq<char>)>),
    ParseRemotes(Seq<char>),
    FormatRemotes(Seq<Site>),
    WriteText(Seq<u8>, Seq<char>),
    MakePrivate(Seq<u8>),
}

/// What comes of it, as a value of the model.
pub enum Answer {
    Told(bool),
    Text(Result<Seq<char>, Seq<char>>),
    Data(Result<Seq<u8>, Seq<char>>),
    Done(Result<(), Seq<char>>),
    Written(Result<(), (WriteStep, Seq<char>)>),
    Number(u32),
    Maybe(Option<Seq<u8>>),
    Path(Seq<u8>),
    Ran(Result<(Option<i32>, Seq<u8>), (RunStep, Seq<char>)>),
    Remotes(Result<Seq<Site>, Seq<char>>),
}

/// Whether an answer is of the kind that a question calls for.
pub open spec fn fits(ask: Ask, answer: Answer) -> bool {
    match ask {
        Ask::Exists(_) | Ask::IsDir(_) => answer is Told,
        Ask::ReadText(_) | Ask::Password(_) | Ask::TextVariable(_) | Ask::FormatRemotes(_) => {
            answer is Text
        },
        Ask::ReadData(_) => answer is Data,
        Ask::CreateDir(_) | Ask::Rename(_, _) | Ask::Remove(_) | Ask::Say(_) | Ask::WriteText(
            _,
            _,
        ) | Ask::MakePrivate(_) => answer is Done,
        Ask::WritePrivate(_, _) => answer is Written,
        Ask::ProcessId => answer is Number,
        Ask::Variable(_) => answer is Maybe,
        Ask::TempDir => answer is Path,
        Ask::Shell(_) | Ask::Ssh(_, _, _) => answer is Ran,
        Ask::ParseRemotes(_) => answer is Remotes,
    }
}

/// What a command comes to, as a value of the model.
pub enum Product {
    Nothing,
    Data(Seq<u8>),
    Path(Seq<u8>),
    Remote(Site),
    Remotes(Seq<Site>),
}

/// The course of a command. Between one question and the next it may encrypt,
/// decrypt or generate an identity; what comes of that is one of the outcomes
/// that age allows.
pub enum Plan {
    Ask(Ask, spec_fn(Answer) -> Plan),
    Seal(Locked, Seq<u8>, spec_fn(Result<Seq<u8>, Seq<char>>) -> Plan),
    Open(Locked, Seq<u8>, spec_fn(Result<Seq<u8>, (DecryptStep, Seq<char>)>) -> Plan),
    Generate(spec_fn(Seq<char>) -> Plan),
    End(Result<Product, Fault>),
}

/// A course that ends at once with a failure.
pub open spec fn failed(f: Fault) -> Plan {
    Plan::End(Err(f))
}

/// Whether `q` is where `p` stands once everything is done that comes before
/// its next question or its end.
pub open spec fn settles(p: Plan, q: Plan) -> bool
    decreases p,
{
    match p {
        Plan::Seal(lock, data, then) => exists|out: Result<Seq<u8>, Seq<char>>| #[trigger]
            may_seal(lock, data, out) && settles(then(out), q),
        Plan::Open(lock, file, then) => exists|
            out: Result<Seq<u8>, (DecryptStep, Seq<char>)>,
        | #[trigger]
            may_open(lock, file, out) && settles(then(out), q),
        Plan::Generate(then) => exists|identity: Seq<char>| #[trigger]
            is_key_pair(identity) && settles(then(identity), q),
        _ => p == q,
    }
}

/// A course that encrypts settles where it does for one of the outcomes.
pub(crate) proof fn lemma_sealed(p: Plan, out: Result<Seq<u8>, Seq<char>>, q: Plan)
    requires
        p matches Plan::Seal(lock, data, then) && may_seal(lock, data, out) && settles(
            then(out),
            q,
        ),
    ensures
        settles(p, q),
{
}

/// A course that decrypts settles where it does for one of the outcomes.
pub(crate) proof fn lemma_opened(
    p: Plan,
    out: Result<Seq<u8>, (DecryptStep, Seq<char>)>,
    q: Plan,
)
    requires
        p matches Plan::Open(lock, file, then) && may_open(lock, file, out) && settles(
            then(out),
            q,
        ),
    ensures
        settles(p, q),
{
}

/// What a command asks for.
#[derive(Debug)]
pub enum Request {
    /// Whether a path is there. Answered by `Told`.
    Exists(Vec<u8>),
    /// Whether a path is a directory. Answered by `Told`.
    IsDir(Vec<u8>),
    /// What a file holds, as text. Answered by `Text`.
    ReadText(Vec<u8>),
    /// What a file holds. Answered by `Data`.
    ReadData(Vec<u8>),
    /// Create a directory with its parents, the owner's alone. Answered by
    /// `Done`.
    CreateDir(Vec<u8>),
    /// Write a file that is the owner's alone from the moment it is there, in
    /// place of what was there. Answered by `Written`.
    WritePrivate(Vec<u8>, Vec<u8>),
    /// Rename a file, over any that was there. Answered by `Done`.
    Rename(Vec<u8>, Vec<u8>),
    /// Remove a file. Answered by `Done`.
    Remove(Vec<u8>),
    /// The number of this process. Answered by `Number`.
    ProcessId,
    /// Print a prompt and read a line without showing it. Answered by `Text`.
    Password(String),
    /// The value of an environment variable. Answered by `Maybe`.
    Variable(String),
    /// The value of an environment variable that is text. Answered by `Text`.
    TextVariable(String),
    /// The directory for temporary files. Answered by `Path`.
    TempDir,
    /// Run a command of the shell on the terminal. Answered by `Ran`, with no
    /// output.
    Shell(String),
    /// Run ssh with some arguments, feed it some bytes if there are any, and
    /// take what it prints if that is wanted. Answered by `Ran`.
    Ssh(Vec<String>, Option<Vec<u8>>, bool),
    /// Print some texts as they stand. Answered by `Done`.
    Say(Vec<Line>),
    /// Read a configuration. Answered by `Remotes`.
    ParseRemotes(String),
    /// Put a configuration down as text. Answered by `Text`.
    FormatRemotes(Vec<Remote>),
    /// Write a text file, in place of what it held. Answered by `Done`.
    WriteText(Vec<u8>, String),
    /// Make a file the owner's alone. Answered by `Done`.
    MakePrivate(Vec<u8>),
}

/// Some bytes that may be there, as a value of the model.
pub open spec fn maybe_bytes(bytes: Option<Vec<u8>>) -> Option<Seq<u8>> {
    match bytes {
        Some(b) => Some(b@),
        None => None,
    }
}

impl View for Request {
    type V = Ask;

    open spec fn view(&self) -> Ask {
        match self {
            Request::Exists(path) => Ask::Exists(path@),
            Request::IsDir(path) => Ask::IsDir(path@),
            Request::ReadText(path) => Ask::ReadText(path@),
            Request::ReadData(path) => Ask::ReadData(path@),
            Request::CreateDir(path) => Ask::CreateDir(path@),
            Request::WritePrivate(path, data) => Ask::WritePrivate(path@, data@),
            Request::Rename(from, to) => Ask::Rename(from@, to@),
            Request::Remove(path) => Ask::Remove(path@),
            Request::ProcessId => Ask::ProcessId,
            Request::Password(prompt) => Ask::Password(prompt@),
            Request::Variable(name) => Ask::Variable(name@),
            Request::TextVariable(name) => Ask::TextVariable(name@),
            Request::TempDir => Ask::TempDir,
            Request::Shell(command) => Ask::Shell(command@),
            Request::Ssh(args, input, take) => Ask::Ssh(texts(args@), maybe_bytes(*input), *take),
            Request::Say(lines) => Ask::Say(spoken(lines@)),
            Request::ParseRemotes(text) => Ask::ParseRemotes(text@),
            Request::FormatRemotes(remotes) => Ask::FormatRemotes(sites(remotes@)),
            Request::WriteText(path, text) => Ask::WriteText(path@, text@),
            Request::MakePrivate(path) => Ask::MakePrivate(path@),
        }
    }
}

/// What comes of a request. An error carries the words that tell of it.
#[derive(Debug)]
pub enum Reply {
    Told(bool),
    Text(Result<String, String>),
    Data(Result<Vec<u8>, String>),
    Done(Result<(), String>),
    Written(Result<(), (WriteStep, String)>),
    Number(u32),
    Maybe(Option<Vec<u8>>),
    Path(Vec<u8>),
    /// The exit code, if there is one, and the output; or where it failed.
    Ran(Result<(Option<i32>, Vec<u8>), (RunStep, String)>),
    Remotes(Result<Vec<Remote>, String>),
}

impl View for Reply {
    type V = Answer;

    open spec fn view(&self) -> Answer {
        match self {
            Reply::Told(b) => Answer::Told(*b),
            Reply::Text(Ok(t)) => Answer::Text(Ok(t@)),
            Reply::Text(Err(e)) => Answer::Text(Err(e@)),
            Reply::Data(Ok(d)) => Answer::Data(Ok(d@)),
            Reply::Data(Err(e)) => Answer::Data(Err(e@)),
            Reply::Done(Ok(_)) => Answer::Done(Ok(())),
            Reply::Done(Err(e)) => Answer::Done(Err(e@)),
            Reply::Written(Ok(_)) => Answer::Written(Ok(())),
            Reply::Written(Err((step, e))) => Answer::Written(Err((*step, e@))),
            Reply::Number(n) => Answer::Number(*n),
            Reply::Maybe(bytes) => Answer::Maybe(maybe_bytes(*bytes)),
            Reply::Path(path) => Answer::Path(path@),
            Reply::Ran(Ok((code, output))) => Answer::Ran(Ok((*code, output@))),
            Reply::Ran(Err((step, e))) => Answer::Ran(Err((*step, e@))),
            Reply::Remotes(Ok(remotes)) => Answer::Remotes(Ok(sites(remotes@))),
            Reply::Remotes(Err(e)) => Answer::Remotes(Err(e@)),
        }
    }
}

/// What a command comes to.
#[derive(Debug)]
pub enum Outcome {
    Nothing,
    Data(Vec<u8>),
    Path(Vec<u8>),
    Remote(Remote),
    Remotes(Vec<Remote>),
}

impl View for Outcome {
    type V = Product;

    open spec fn view(&self) -> Product {
        match self {
            Outcome::Nothing => Product::Nothing,
            Outcome::Data(data) => Product::Data(data@),
            Outcome::Path(path) => Product::Path(path@),
            Outcome::Remote(remote) => Product::Remote(remote@),
            Outcome::Remotes(remotes) => Product::Remotes(sites(remotes@)),
        }
    }
}

/// How a command ended, as a value of the model.
pub open spec fn ending(r: Result<Outcome, VaultError>) -> Result<Product, Fault> {
    match r {
        Ok(outcome) => Ok(outcome@),
        Err(e) => Err(e@),
    }
}

} // verus!
