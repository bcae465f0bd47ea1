//! A model of the world that commands run in, and what it means that a
//! command keeps to something whatever the world answers.

use vstd::prelude::*;
use vstd::utf8::{decode_utf8, encode_utf8, valid_utf8};

use crate::crypto::{is_key_pair, may_open, may_seal};
use crate::fault::Fault;
use crate::plan::{fits, settles, Answer, Ask, Plan, Product, Stream, WriteStep};
use crate::remote::{get_command, put_command, Site};
use crate::sync::Ran;

verus! {

/// A call of ssh, and what came of it.
pub struct Call {
    pub args: Seq<Seq<char>>,
    pub input: Option<Seq<u8>>,
    /// Whether what it prints is taken, and not left for the user to see.
    pub taken: bool,
    pub ran: Ran,
}

/// A run of a shell: its command, and what the files held before and after.
pub struct Shell {
    pub command: Seq<char>,
    pub given: Map<Seq<u8>, Seq<u8>>,
    pub left: Map<Seq<u8>, Seq<u8>>,
}

/// Whether a run went well.
pub open spec fn ran_well(ran: Ran) -> bool {
    ran matches Ok((code, _)) && code == Some(0i32)
}

/// A file on a remote: the arguments by which ssh gets there, and the path.
pub type Far = (Seq<Seq<char>>, Seq<char>);

/// Whether two stocks of files on remotes have the same at a place.
pub open spec fn same_far(
    far: Map<Far, Seq<u8>>,
    more: Map<Far, Seq<u8>>,
    place: Far,
) -> bool {
    &&& far.contains_key(place) == more.contains_key(place)
    &&& far.contains_key(place) ==> far[place] == more[place]
}

/// Whether a call of ssh does on the remote what its command says: one that
/// puts a file puts what it is fed there, if it goes well, and touches no other
/// file; one that gets a file prints what is there, if it goes well; any other
/// one touches no file.
pub open spec fn far_step(c: Call, far: Map<Far, Seq<u8>>, more: Map<Far, Seq<u8>>) -> bool {
    let way = c.args.drop_last();
    let command = c.args.last();
    &&& forall|path: Seq<char>| command == #[trigger] put_command(path) ==> {
        &&& ran_well(c.ran) && c.input is Some ==> more == far.insert(
            (way, path),
            c.input.unwrap(),
        )
        &&& forall|place: Far| place != (way, path) ==> #[trigger] same_far(far, more, place)
    }
    &&& (forall|path: Seq<char>| command != #[trigger] put_command(path)) ==> more == far
    &&& forall|path: Seq<char>|
        command == #[trigger] get_command(path) && ran_well(c.ran) && c.taken && far.contains_key(
            (way, path),
        ) ==> (c.ran->Ok_0).1 == far[(way, path)]
}

/// What a command finds, and what it leaves behind. Nobody else is at work in
/// it, and one path does not stand for another.
#[verifier::ext_equal]
pub struct World {
    /// What the files hold.
    pub files: Map<Seq<u8>, Seq<u8>>,
    /// The files that are their owner's alone.
    pub private: Set<Seq<u8>>,
    /// The directories.
    pub dirs: Set<Seq<u8>>,
    /// The directories that are their owner's alone.
    pub private_dirs: Set<Seq<u8>>,
    /// The files whose removal failed, in order.
    pub stuck: Seq<Seq<u8>>,
    /// The paths that an editor may change.
    pub reach: Set<Seq<u8>>,
    /// The number of the process.
    pub process: u32,
    /// What was printed.
    pub said: Seq<(Stream, Seq<char>)>,
    /// The calls of ssh.
    pub calls: Seq<Call>,
    /// What files on remotes hold.
    pub far: Map<Far, Seq<u8>>,
    /// The texts that configurations were put down as.
    pub forms: Map<Seq<char>, Seq<Site>>,
    /// The files that were to be written for their owner alone, in order.
    pub written: Seq<Seq<u8>>,
    /// The last run of a shell.
    pub shell: Option<Shell>,
    /// The environment.
    pub env: Map<Seq<char>, Seq<u8>>,
    /// The directory for temporary files.
    pub temp_dir: Seq<u8>,
}

impl World {
    /// The text that a variable of the environment is set to, if it is text.
    pub open spec fn variable(self, name: Seq<char>) -> Option<Seq<char>> {
        if self.env.contains_key(name) && valid_utf8(self.env[name]) {
            Some(decode_utf8(self.env[name]))
        } else {
            None
        }
    }

    /// Whether there is anything at a path.
    pub open spec fn has(self, path: Seq<u8>) -> bool {
        self.files.contains_key(path) || self.dirs.contains(path)
    }
}

/// Whether two worlds have the same file at a path, or both have none.
pub open spec fn same_file(w: World, v: World, path: Seq<u8>) -> bool {
    &&& w.files.contains_key(path) == v.files.contains_key(path)
    &&& w.files.contains_key(path) ==> w.files[path] == v.files[path]
    &&& w.private.contains(path) == v.private.contains(path)
}

/// Whether two worlds have the same at a path.
pub open spec fn same_at(w: World, v: World, path: Seq<u8>) -> bool {
    &&& same_file(w, v, path)
    &&& w.dirs.contains(path) == v.dirs.contains(path)
    &&& w.private_dirs.contains(path) == v.private_dirs.contains(path)
}

/// Whether two worlds have the same files but at some paths.
pub open spec fn spares(w: World, v: World, paths: Set<Seq<u8>>) -> bool {
    forall|path: Seq<u8>| !paths.contains(path) ==> #[trigger] same_file(w, v, path)
}

/// Whether two worlds differ in nothing but the files at some paths, and in
/// which files were to be written and which shell was run.
pub open spec fn differ_at(w: World, v: World, paths: Set<Seq<u8>>) -> bool {
    &&& v == (World {
        files: v.files,
        private: v.private,
        dirs: v.dirs,
        private_dirs: v.private_dirs,
        written: v.written,
        shell: v.shell,
        ..w
    })
    &&& forall|path: Seq<u8>| !paths.contains(path) ==> #[trigger] same_at(w, v, path)
}

/// Whether what is asked for in a world can come to an answer, and leave the
/// world as `v`. A file can be unreadable, and any writing can fail halfway;
/// what is read is what is there, a directory that is made is its owner's alone,
/// a renaming happens or not, a configuration
/// reads as it was put down, and a remote does what it is told.
pub open spec fn step(ask: Ask, w: World, a: Answer, v: World) -> bool {
    &&& fits(ask, a)
    &&& match ask {
        Ask::Exists(path) => a == Answer::Told(w.has(path)) && v == w,
        Ask::IsDir(path) => a == Answer::Told(w.dirs.contains(path)) && v == w,
        Ask::ReadText(path) => {
            &&& a->Text_0 matches Ok(text) ==> w.files.contains_key(path) && w.files[path]
                == encode_utf8(text)
            &&& v == w
        },
        Ask::ReadData(path) => {
            &&& a->Data_0 matches Ok(data) ==> w.files.contains_key(path) && w.files[path] == data
            &&& v == w
        },
        Ask::CreateDir(path) => {
            &&& v == (World { dirs: v.dirs, private_dirs: v.private_dirs, ..w })
            &&& v.private_dirs == w.private_dirs.union(v.dirs.difference(w.dirs))
            &&& a->Done_0 is Ok ==> v.dirs.contains(path)
            &&& forall|q: Seq<u8>| w.dirs.contains(q) ==> #[trigger] v.dirs.contains(q)
            &&& forall|q: Seq<u8>| #[trigger] v.dirs.contains(q) && !w.dirs.contains(q)
                ==> !w.has(q) && q.is_prefix_of(path)
        },
        Ask::WritePrivate(path, data) => match a->Written_0 {
            Ok(_) => v == (World {
                files: w.files.insert(path, data),
                private: w.private.insert(path),
                written: w.written.push(path),
                ..w
            }),
            Err((at, _)) => {
                &&& differ_at(w, v, set![path])
                &&& v.dirs == w.dirs && v.private_dirs == w.private_dirs
                &&& v.written == w.written.push(path) && v.shell == w.shell
                &&& v.files.contains_key(path) ==> match at {
                    WriteStep::Create => same_at(w, v, path),
                    WriteStep::Write => v.private.contains(path),
                }
            },
        },
        Ask::Rename(from, to) => match a->Done_0 {
            Ok(_) => {
                &&& w.files.contains_key(from)
                &&& v == (World {
                    files: w.files.insert(to, w.files[from]).remove(from),
                    private: (if w.private.contains(from) {
                        w.private.insert(to)
                    } else {
                        w.private.remove(to)
                    }).remove(from),
                    ..w
                })
            },
            Err(_) => v == w,
        },
        Ask::Remove(path) => match a->Done_0 {
            Ok(_) => v == (World {
                files: w.files.remove(path),
                private: w.private.remove(path),
                ..w
            }),
            Err(_) => v == (World { stuck: w.stuck.push(path), ..w }),
        },
        Ask::ProcessId => a == Answer::Number(w.process) && v == w,
        Ask::Password(_) => v == w,
        Ask::Variable(name) => {
            &&& a == Answer::Maybe(
                if w.env.contains_key(name) {
                    Some(w.env[name])
                } else {
                    None
                },
            )
            &&& v == w
        },
        Ask::TextVariable(name) => {
            &&& match a->Text_0 {
                Ok(text) => w.variable(name) == Some(text),
                Err(_) => w.variable(name) is None,
            }
            &&& v == w
        },
        Ask::TempDir => a == Answer::Path(w.temp_dir) && v == w,
        Ask::Shell(command) => {
            &&& differ_at(w, v, w.reach)
            &&& v.written == w.written
            &&& v.shell == Some(Shell { command, given: w.files, left: v.files })
        },
        Ask::Ssh(args, input, taken) => {
            let call = Call { args, input, taken, ran: a->Ran_0 };
            &&& v == (World { calls: w.calls.push(call), far: v.far, ..w })
            &&& far_step(call, w.far, v.far)
        },
        Ask::Say(lines) => v == (World { said: w.said + lines, ..w }),
        Ask::ParseRemotes(text) => {
            &&& w.forms.contains_key(text) ==> a == Answer::Remotes(Ok(w.forms[text]))
            &&& v == w
        },
        Ask::FormatRemotes(all) => match a->Text_0 {
            Ok(text) => v == (World { forms: w.forms.insert(text, all), ..w }),
            Err(_) => v == w,
        },
        Ask::WriteText(path, text) => {
            &&& differ_at(w, v, set![path])
            &&& v.dirs == w.dirs && v.private_dirs == w.private_dirs
            &&& v.written == w.written && v.shell == w.shell
            &&& a->Done_0 is Ok ==> v.files.contains_key(path) && v.files[path] == encode_utf8(
                text,
            )
            &&& w.files.contains_key(path) && v.files.contains_key(path) ==> (w.private.contains(
                path,
            ) <==> v.private.contains(path))
        },
        Ask::MakePrivate(path) => match a->Done_0 {
            Ok(_) => v == (World { private: w.private.insert(path), ..w }),
            Err(_) => v == w,
        },
    }
}

/// Something that a world may be like.
pub type Always = spec_fn(World) -> bool;

/// Something that a command may come to, and the world with it.
pub type Finally = spec_fn(Result<Product, Fault>, World) -> bool;

/// Whether a course that is taken in a world keeps the world as `always` says
/// at every point, so that it would even be so if the command were cut short
/// there, and ends as `finally` says, whatever the world answers and whatever
/// comes of encrypting and decrypting.
pub open spec fn upholds(p: Plan, w: World, always: Always, finally: Finally) -> bool
    decreases p,
{
    &&& always(w)
    &&& match p {
        Plan::Ask(ask, then) => forall|a: Answer, v: World| #[trigger]
            step(ask, w, a, v) ==> upholds(then(a), v, always, finally),
        Plan::Seal(lock, data, then) => forall|out| #[trigger]
            may_seal(lock, data, out) ==> upholds(then(out), w, always, finally),
        Plan::Open(lock, file, then) => forall|out| #[trigger]
            may_open(lock, file, out) ==> upholds(then(out), w, always, finally),
        Plan::Generate(then) => forall|identity: Seq<char>| #[trigger]
            is_key_pair(identity) ==> upholds(then(identity), w, always, finally),
        Plan::End(result) => finally(result, w),
    }
}

/// A task keeps to what its course upholds: where the course that is ahead of
/// a task upholds something, what is asked for comes to an answer, and the
/// task is resumed with it, the course that is then ahead upholds it too.
pub proof fn law_resuming(
    p: Plan,
    w: World,
    a: Answer,
    v: World,
    q: Plan,
    always: Always,
    finally: Finally,
)
    requires
        upholds(p, w, always, finally),
        p matches Plan::Ask(ask, then) && step(ask, w, a, v) && settles(then(a), q),
    ensures
        upholds(q, v, always, finally),
{
    let then = p->Ask_1;
    assert(upholds(then(a), v, always, finally));
    lemma_settled(then(a), v, q, always, finally);
}

proof fn lemma_settled(p: Plan, w: World, q: Plan, always: Always, finally: Finally)
    requires
        upholds(p, w, always, finally),
        settles(p, q),
    ensures
        upholds(q, w, always, finally),
    decreases p,
{
    match p {
        Plan::Seal(lock, data, then) => {
            let out = choose|out: Result<Seq<u8>, Seq<char>>| #[trigger]
                may_seal(lock, data, out) && settles(then(out), q);
            lemma_settled(then(out), w, q, always, finally);
        },
        Plan::Open(lock, file, then) => {
            let out = choose|out| #[trigger] may_open(lock, file, out) && settles(then(out), q);
            lemma_settled(then(out), w, q, always, finally);
        },
        Plan::Generate(then) => {
            let identity = choose|identity: Seq<char>| #[trigger]
                is_key_pair(identity) && settles(then(identity), q);
            lemma_settled(then(identity), w, q, always, finally);
        },
        _ => {},
    }
}

/// What upholds something upholds what follows from it.
pub proof fn law_weakening(
    p: Plan,
    w: World,
    always: Always,
    finally: Finally,
    always_also: Always,
    finally_also: Finally,
)
    requires
        upholds(p, w, always, finally),
        forall|v: World| #[trigger] always(v) ==> always_also(v),
        forall|r: Result<Product, Fault>, v: World| #[trigger]
            finally(r, v) && always(v) ==> finally_also(r, v),
    ensures
        upholds(p, w, always_also, finally_also),
    decreases p,
{
    match p {
        Plan::Ask(ask, then) => {
            assert forall|a: Answer, v: World| #[trigger] step(ask, w, a, v) implies upholds(
                then(a),
                v,
                always_also,
                finally_also,
            ) by {
                law_weakening(then(a), v, always, finally, always_also, finally_also);
            }
        },
        Plan::Seal(lock, data, then) => {
            assert forall|out| #[trigger] may_seal(lock, data, out) implies upholds(
                then(out),
                w,
                always_also,
                finally_also,
            ) by {
                law_weakening(then(out), w, always, finally, always_also, finally_also);
            }
        },
        Plan::Open(lock, file, then) => {
            assert forall|out| #[trigger] may_open(lock, file, out) implies upholds(
                then(out),
                w,
                always_also,
                finally_also,
            ) by {
                law_weakening(then(out), w, always, finally, always_also, finally_also);
            }
        },
        Plan::Generate(then) => {
            assert forall|identity: Seq<char>| #[trigger] is_key_pair(identity) implies upholds(
                then(identity),
                w,
                always_also,
                finally_also,
            ) by {
                law_weakening(then(identity), w, always, finally, always_also, finally_also);
            }
        },
        Plan::End(_) => {},
    }
}

} // verus!
