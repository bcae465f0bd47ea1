//! What answers hold, and what requests are made of.

use vstd::prelude::*;

use crate::command::{notice, write_fault};
use crate::fault::{ErrorKind, VaultError};
use crate::path::show;
use crate::plan::{maybe_bytes, spoken, Line, Reply, RunStep, Stream, WriteStep};
use crate::remote::{sites, Remote, Site};
use crate::store::text_view;

verus! {

pub(crate) fn told(reply: Reply) -> (r: bool)
    requires
        reply@ is Told,
    ensures
        r == reply@->Told_0,
{
    match reply {
        Reply::Told(b) => b,
        _ => false,
    }
}

pub(crate) fn text_in(reply: Reply) -> (r: Result<String, String>)
    requires
        reply@ is Text,
    ensures
        text_view(r) == reply@->Text_0,
{
    match reply {
        Reply::Text(r) => r,
        _ => Err(String::new()),
    }
}

pub(crate) open spec fn data_view(r: Result<Vec<u8>, String>) -> Result<Seq<u8>, Seq<char>> {
    match r {
        Ok(d) => Ok(d@),
        Err(e) => Err(e@),
    }
}

pub(crate) fn data_in(reply: Reply) -> (r: Result<Vec<u8>, String>)
    requires
        reply@ is Data,
    ensures
        data_view(r) == reply@->Data_0,
{
    match reply {
        Reply::Data(r) => r,
        _ => Err(String::new()),
    }
}

pub(crate) open spec fn done_view(r: Result<(), String>) -> Result<(), Seq<char>> {
    match r {
        Ok(_) => Ok(()),
        Err(e) => Err(e@),
    }
}

pub(crate) fn done_in(reply: Reply) -> (r: Result<(), String>)
    requires
        reply@ is Done,
    ensures
        done_view(r) == reply@->Done_0,
{
    match reply {
        Reply::Done(r) => r,
        _ => Ok(()),
    }
}

pub(crate) open spec fn written_view(r: Result<(), (WriteStep, String)>) -> Result<
    (),
    (WriteStep, Seq<char>),
> {
    match r {
        Ok(_) => Ok(()),
        Err((step, e)) => Err((step, e@)),
    }
}

pub(crate) fn written_in(reply: Reply) -> (r: Result<(), (WriteStep, String)>)
    requires
        reply@ is Written,
    ensures
        written_view(r) == reply@->Written_0,
{
    match reply {
        Reply::Written(r) => r,
        _ => Ok(()),
    }
}

pub(crate) fn number_in(reply: Reply) -> (r: u32)
    requires
        reply@ is Number,
    ensures
        r == reply@->Number_0,
{
    match reply {
        Reply::Number(n) => n,
        _ => 0,
    }
}

pub(crate) fn maybe_in(reply: Reply) -> (r: Option<Vec<u8>>)
    requires
        reply@ is Maybe,
    ensures
        maybe_bytes(r) == reply@->Maybe_0,
{
    match reply {
        Reply::Maybe(r) => r,
        _ => None,
    }
}

pub(crate) fn path_in(reply: Reply) -> (r: Vec<u8>)
    requires
        reply@ is Path,
    ensures
        r@ == reply@->Path_0,
{
    match reply {
        Reply::Path(path) => path,
        _ => Vec::new(),
    }
}

pub(crate) open spec fn ran_view(r: Result<(Option<i32>, Vec<u8>), (RunStep, String)>) -> Result<
    (Option<i32>, Seq<u8>),
    (RunStep, Seq<char>),
> {
    match r {
        Ok((code, output)) => Ok((code, output@)),
        Err((step, e)) => Err((step, e@)),
    }
}

pub(crate) fn ran_in(reply: Reply) -> (r: Result<(Option<i32>, Vec<u8>), (RunStep, String)>)
    requires
        reply@ is Ran,
    ensures
        ran_view(r) == reply@->Ran_0,
{
    match reply {
        Reply::Ran(r) => r,
        _ => Ok((None, Vec::new())),
    }
}

pub(crate) open spec fn remotes_view(r: Result<Vec<Remote>, String>) -> Result<
    Seq<Site>,
    Seq<char>,
> {
    match r {
        Ok(remotes) => Ok(sites(remotes@)),
        Err(e) => Err(e@),
    }
}

pub(crate) fn remotes_in(reply: Reply) -> (r: Result<Vec<Remote>, String>)
    requires
        reply@ is Remotes,
    ensures
        remotes_view(r) == reply@->Remotes_0,
{
    match reply {
        Reply::Remotes(r) => r,
        _ => Err(String::new()),
    }
}

// What requests are made of.

pub(crate) fn same_lines(lines: &Vec<Line>) -> (r: Vec<Line>)
    ensures
        spoken(r@) == spoken(lines@),
{
    let mut r: Vec<Line> = Vec::new();
    for i in 0..lines.len()
        invariant
            spoken(r@) == spoken(lines@).take(i as int),
    {
        let ghost before = r@;
        r.push(Line { stream: lines[i].stream, text: lines[i].text.clone() });
        assert(spoken(r@) =~= spoken(before).push(lines@[i as int]@));
        assert(spoken(lines@).take(i + 1) =~= spoken(lines@).take(i as int).push(
            lines@[i as int]@,
        ));
    }
    assert(spoken(lines@).take(lines@.len() as int) =~= spoken(lines@));
    r
}

pub(crate) fn bytes(slice: &[u8]) -> (r: Vec<u8>)
    ensures
        r@ == slice@,
{
    vstd::slice::slice_to_vec(slice)
}

pub(crate) fn one_line(stream: Stream, text: String) -> (r: Vec<Line>)
    ensures
        spoken(r@) == seq![(stream, text@)],
{
    let mut r: Vec<Line> = Vec::new();
    r.push(Line { stream, text });
    assert(spoken(r@) =~= seq![(stream, text@)]);
    r
}

pub(crate) fn one_notice(text: String) -> (r: Vec<Line>)
    ensures
        spoken(r@) == seq![notice(text@)],
{
    one_line(Stream::Notice, text.concat("\n"))
}

pub(crate) fn write_error(path: &[u8], e: (WriteStep, String)) -> (r: VaultError)
    ensures
        r@ == write_fault(path@, (e.0, e.1@)),
{
    match e.0 {
        WriteStep::Create => VaultError::caused(
            ErrorKind::FileNotWritten,
            "Cannot create ".to_owned().concat(show(path).as_str()),
            e.1,
        ),
        WriteStep::Write => VaultError::new(ErrorKind::FileNotWritten, e.1),
    }
}

} // verus!
