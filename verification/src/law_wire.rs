//! What passes between a task and its caller: nothing is lost in between.

use vstd::prelude::*;

use crate::command::{Aim, Goal, Purpose, Reading};
use crate::crypto::{opened_view, sealed_view, DecryptError, DecryptStep, Lock, Locked};
use crate::fault::Fault;
use crate::plan::{
    ending, fits, maybe_bytes, Answer, Ask, Line, Outcome, Product, Reply, Request, RunStep,
    WriteStep,
};
use crate::remote::{Remote, RemoteType};
use crate::steps::maybe_text;
use crate::store::text_view;
use crate::task::maybe_slice;

verus! {

/// A request for a file stands for just its paths and its bytes, all of them.
pub proof fn law_file_requests(a: Vec<u8>, b: Vec<u8>, text: String)
    ensures
        Request::Exists(a)@ == Ask::Exists(a@),
        Request::IsDir(a)@ == Ask::IsDir(a@),
        Request::ReadText(a)@ == Ask::ReadText(a@),
        Request::ReadData(a)@ == Ask::ReadData(a@),
        Request::CreateDir(a)@ == Ask::CreateDir(a@),
        Request::WritePrivate(a, b)@ == Ask::WritePrivate(a@, b@),
        Request::Rename(a, b)@ == Ask::Rename(a@, b@),
        Request::Remove(a)@ == Ask::Remove(a@),
        Request::WriteText(a, text)@ == Ask::WriteText(a@, text@),
        Request::MakePrivate(a)@ == Ask::MakePrivate(a@),
{
}

/// A request that is not for a file stands for just what it says, all of it.
pub proof fn law_other_requests(text: String)
    ensures
        Request::ProcessId@ == Ask::ProcessId,
        Request::TempDir@ == Ask::TempDir,
        Request::Password(text)@ == Ask::Password(text@),
        Request::Variable(text)@ == Ask::Variable(text@),
        Request::TextVariable(text)@ == Ask::TextVariable(text@),
        Request::Shell(text)@ == Ask::Shell(text@),
        Request::ParseRemotes(text)@ == Ask::ParseRemotes(text@),
{
}

/// A request to run ssh stands for all of its arguments, in their order, and
/// all that it is fed.
pub proof fn law_ssh_requests(args: Vec<String>, input: Vec<u8>, wants: bool, i: int)
    ensures
        Request::Ssh(args, Some(input), wants)@ matches Ask::Ssh(a, fed, w) && a.len() == args.len()
            && (0 <= i < args.len() ==> a[i] == args[i]@) && fed == Some(input@) && w == wants,
        Request::Ssh(args, None, wants)@ matches Ask::Ssh(a, fed, w) && a.len() == args.len() && (0
            <= i < args.len() ==> a[i] == args[i]@) && fed is None && w == wants,
{
}

/// A request to print stands for all of its lines, in their order, each whole
/// and where it is to be printed.
pub proof fn law_say_requests(lines: Vec<Line>, i: int)
    ensures
        Request::Say(lines)@ matches Ask::Say(said) && said.len() == lines.len() && (0 <= i
            < lines.len() ==> said[i] == (lines[i].stream, lines[i].text@)),
{
}

/// A remote stands for what is in its fields, whole.
pub proof fn law_remote_fields(remote: Remote)
    ensures
        remote@.name == remote.name@,
        remote@.remote_type == remote.remote_type,
        remote@.host == remote.host@,
        remote@.user == remote.user@,
        remote@.port == remote.port,
        remote@.path == remote.path@,
        RemoteType::Ssh.word() == "ssh"@,
        RemoteType::Ftp.word() == "ftp"@,
{
}

/// Remotes go to and fro in their order, each of them.
pub proof fn law_remote_requests(remotes: Vec<Remote>, i: int)
    ensures
        Request::FormatRemotes(remotes)@ matches Ask::FormatRemotes(all) && all.len()
            == remotes.len() && (0 <= i < remotes.len() ==> all[i] == remotes[i]@),
        Reply::Remotes(Ok(remotes))@ matches Answer::Remotes(Ok(all)) && all.len() == remotes.len()
            && (0 <= i < remotes.len() ==> all[i] == remotes[i]@),
        Outcome::Remotes(remotes)@ matches Product::Remotes(all) && all.len() == remotes.len() && (0
            <= i < remotes.len() ==> all[i] == remotes[i]@),
{
}

/// A reply stands for just what it says, all of it.
pub proof fn law_replies(
    told: bool,
    number: u32,
    code: Option<i32>,
    text: String,
    data: Vec<u8>,
    write: WriteStep,
    run: RunStep,
)
    ensures
        Reply::Told(told)@ == Answer::Told(told),
        Reply::Number(number)@ == Answer::Number(number),
        Reply::Text(Ok(text))@ == Answer::Text(Ok(text@)),
        Reply::Text(Err(text))@ == Answer::Text(Err(text@)),
        Reply::Data(Ok(data))@ == Answer::Data(Ok(data@)),
        Reply::Data(Err(text))@ == Answer::Data(Err(text@)),
        Reply::Done(Ok(()))@ == Answer::Done(Ok(())),
        Reply::Done(Err(text))@ == Answer::Done(Err(text@)),
        Reply::Written(Ok(()))@ == Answer::Written(Ok(())),
        Reply::Written(Err((write, text)))@ == Answer::Written(Err((write, text@))),
        Reply::Maybe(Some(data))@ == Answer::Maybe(Some(data@)),
        Reply::Maybe(None)@ == Answer::Maybe(None),
        Reply::Path(data)@ == Answer::Path(data@),
        Reply::Ran(Ok((code, data)))@ == Answer::Ran(Ok((code, data@))),
        Reply::Ran(Err((run, text)))@ == Answer::Ran(Err((run, text@))),
        Reply::Remotes(Err(text))@ == Answer::Remotes(Err(text@)),
{
}

/// What a command comes to stands for just that, all of it.
pub proof fn law_outcomes(data: Vec<u8>, remote: Remote)
    ensures
        ending(Ok(Outcome::Nothing)) == Ok::<Product, Fault>(Product::Nothing),
        ending(Ok(Outcome::Data(data))) == Ok::<Product, Fault>(Product::Data(data@)),
        ending(Ok(Outcome::Path(data))) == Ok::<Product, Fault>(Product::Path(data@)),
        ending(Ok(Outcome::Remote(remote))) == Ok::<Product, Fault>(Product::Remote(remote@)),
{
}

/// What a command is given that may not be there stands for just that, all of
/// it.
pub proof fn law_givens(text: String, data: Vec<u8>, bytes: &[u8])
    ensures
        maybe_text(Some(text)) == Some(text@),
        maybe_text(None) is None,
        maybe_bytes(Some(data)) == Some(data@),
        maybe_bytes(None) is None,
        maybe_slice(Some(bytes)) == Some(bytes@),
        maybe_slice(None) is None,
        text_view(Ok(text)) == Ok::<Seq<char>, Seq<char>>(text@),
        text_view(Err(text)) == Err::<Seq<char>, Seq<char>>(text@),
{
}

/// What comes of encrypting and of decrypting stands for just that, all of it.
pub proof fn law_crypt_outcomes(data: Vec<u8>, words: String, e: DecryptError)
    ensures
        sealed_view(Ok(data)) == Ok::<Seq<u8>, Seq<char>>(data@),
        sealed_view(Err(words)) == Err::<Seq<u8>, Seq<char>>(words@),
        opened_view(Ok(data)) == Ok::<Seq<u8>, (DecryptStep, Seq<char>)>(data@),
        opened_view(Err(e)) == Err::<Seq<u8>, (DecryptStep, Seq<char>)>((e.step, e.words@)),
        Lock::Passphrase(words)@ == Locked::Passphrase(words@),
{
}

/// What a file is opened for stands for just that: names and values are there
/// whole.
pub proof fn law_purposes(name: String, value: String, aim: Aim)
    ensures
        Purpose::Cat@ == Reading::Cat,
        Purpose::Verify@ == Reading::Verify,
        Purpose::Load(aim)@ == Reading::Load(aim@),
        Aim::Edit@ == Goal::Edit,
        Aim::Add(name, value)@ == Goal::Add(name@, value@),
        Aim::Get(name)@ == Goal::Get(name@),
        Aim::List@ == Goal::List,
        Aim::Remove(name)@ == Goal::Remove(name@),
        Aim::Env@ == Goal::Env,
{
}

/// Whether a reply is for a request is a matter of its kind alone: what is in
/// either of them does not matter.
pub proof fn law_fitting(ask: Ask, a: Answer)
    ensures
        fits(ask, a) <==> match a {
            Answer::Told(_) => ask is Exists || ask is IsDir,
            Answer::Text(_) => ask is ReadText || ask is Password || ask is TextVariable
                || ask is FormatRemotes,
            Answer::Data(_) => ask is ReadData,
            Answer::Done(_) => ask is CreateDir || ask is Rename || ask is Remove || ask is Say
                || ask is WriteText || ask is MakePrivate,
            Answer::Written(_) => ask is WritePrivate,
            Answer::Number(_) => ask is ProcessId,
            Answer::Maybe(_) => ask is Variable,
            Answer::Path(_) => ask is TempDir,
            Answer::Ran(_) => ask is Shell || ask is Ssh,
            Answer::Remotes(_) => ask is ParseRemotes,
        },
{
}

} // verus!
