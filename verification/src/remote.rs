//! Remotes that a store is copied to, and the commands that copy it.

use vstd::prelude::*;

use crate::fault::{fault, ErrorKind, Fault, VaultError};
use crate::shell::{in_single_quotes, law_single_quotes, single_quoted, word};
use crate::text::{chars_of, decimal, decimal_of, is_control_code, is_white, same_text, string_of};

verus! {

/// How a remote is reached.
#[derive(Debug, Clone, Copy, PartialEq, Eq, Structural)]
pub enum RemoteType {
    Ssh,
    Ftp,
}

impl RemoteType {
    /// The word for it in a configuration.
    pub open spec fn word(self) -> Seq<char> {
        match self {
            RemoteType::Ssh => "ssh"@,
            RemoteType::Ftp => "ftp"@,
        }
    }

    /// The word for it in a configuration.
    pub fn to_text(&self) -> (r: String)
        ensures
            r@ == self.word(),
    {
        match self {
            RemoteType::Ssh => "ssh".to_owned(),
            RemoteType::Ftp => "ftp".to_owned(),
        }
    }
}

/// A remote: where a copy of the encrypted store is kept.
#[derive(Debug)]
pub struct Remote {
    pub name: String,
    pub remote_type: RemoteType,
    pub host: String,
    pub user: String,
    /// Port on the remote. Without one, ssh goes by its own configuration.
    pub port: Option<u16>,
    /// Absolute path on the remote where the encrypted store is kept.
    pub path: String,
}

/// A remote as a value of the model.
#[verifier::ext_equal]
pub struct Site {
    pub name: Seq<char>,
    pub remote_type: RemoteType,
    pub host: Seq<char>,
    pub user: Seq<char>,
    pub port: Option<u16>,
    pub path: Seq<char>,
}

impl View for Remote {
    type V = Site;

    open spec fn view(&self) -> Site {
        Site {
            name: self.name@,
            remote_type: self.remote_type,
            host: self.host@,
            user: self.user@,
            port: self.port,
            path: self.path@,
        }
    }
}

/// Some remotes, as values of the model.
pub open spec fn sites(remotes: Seq<Remote>) -> Seq<Site> {
    remotes.map_values(|r: Remote| r@)
}

/// Some texts, as values of the model.
pub open spec fn texts(strings: Seq<String>) -> Seq<Seq<char>> {
    strings.map_values(|s: String| s@)
}

/// Whether a text holds white space or a control code.
pub open spec fn has_space(s: Seq<char>) -> bool {
    exists|i: int| 0 <= i < s.len() && (is_white(#[trigger] s[i]) || is_control_code(s[i]))
}

/// What is wrong with a field that becomes part of an ssh command line.
pub open spec fn field_problem(label: Seq<char>, v: Seq<char>) -> Option<Fault> {
    if v.len() == 0 {
        Some(fault(ErrorKind::FieldEmpty, "Remote "@ + label + " must not be empty"@))
    } else if v[0] == '-' {
        Some(fault(ErrorKind::FieldWithDash, "Remote "@ + label + " must not start with '-'"@))
    } else if has_space(v) {
        Some(fault(ErrorKind::FieldWithSpace, "Remote "@ + label + " must not contain whitespace"@))
    } else {
        None
    }
}

/// The first thing that is wrong with a remote: its name, its host and its
/// user are looked at in this order, then `@` in the host or user, then the
/// path.
pub open spec fn problem(site: Site) -> Option<Fault> {
    match field_problem("name"@, site.name) {
        Some(f) => Some(f),
        None => match field_problem("host"@, site.host) {
            Some(f) => Some(f),
            None => match field_problem("user"@, site.user) {
                Some(f) => Some(f),
                None => if site.host.contains('@') || site.user.contains('@') {
                    Some(
                        fault(ErrorKind::FieldWithAt, "Remote host/user must not contain '@'"@),
                    )
                } else if site.path.len() == 0 {
                    Some(fault(ErrorKind::PathEmpty, "Remote path must not be empty"@))
                } else {
                    None
                },
            },
        },
    }
}

fn holds_space(s: &Vec<char>) -> (r: bool)
    ensures
        r == has_space(s@),
{
    for i in 0..s.len()
        invariant
            forall|j: int|
                #![trigger s@[j]]
                0 <= j < i ==> !is_white(s@[j]) && !is_control_code(s@[j]),
    {
        if s[i].is_whitespace() || s[i].is_control() {
            assert(is_white(s@[i as int]) || is_control_code(s@[i as int]));
            return true;
        }
    }
    false
}

fn holds_char(s: &str, c: char) -> (r: bool)
    ensures
        r == s@.contains(c),
{
    let chars = chars_of(s);
    for i in 0..chars.len()
        invariant
            chars@ == s@,
            forall|j: int| 0 <= j < i ==> s@[j] != c,
    {
        if chars[i] == c {
            assert(s@[i as int] == c);
            return true;
        }
    }
    false
}

fn check_field(label: &str, v: &str) -> (r: Result<(), VaultError>)
    ensures
        match r {
            Ok(_) => field_problem(label@, v@) is None,
            Err(e) => field_problem(label@, v@) == Some(e@),
        },
{
    let chars = chars_of(v);
    let start = "Remote ".to_owned().concat(label);
    if chars.len() == 0 {
        return Err(VaultError::new(ErrorKind::FieldEmpty, start.concat(" must not be empty")));
    }
    if chars[0] == '-' {
        return Err(
            VaultError::new(ErrorKind::FieldWithDash, start.concat(" must not start with '-'")),
        );
    }
    if holds_space(&chars) {
        return Err(
            VaultError::new(
                ErrorKind::FieldWithSpace,
                start.concat(" must not contain whitespace"),
            ),
        );
    }
    Ok(())
}

impl Remote {
    /// Rejects values that ssh would parse as options (a leading `-`) or that
    /// would garble the `user@host` target.
    pub fn validate(&self) -> (r: Result<(), VaultError>)
        ensures
            match r {
                Ok(_) => problem(self@) is None,
                Err(e) => problem(self@) == Some(e@),
            },
    {
        match check_field("name", self.name.as_str()) {
            Err(e) => {
                return Err(e);
            },
            Ok(_) => {},
        }
        match check_field("host", self.host.as_str()) {
            Err(e) => {
                return Err(e);
            },
            Ok(_) => {},
        }
        match check_field("user", self.user.as_str()) {
            Err(e) => {
                return Err(e);
            },
            Ok(_) => {},
        }
        if holds_char(self.host.as_str(), '@') || holds_char(self.user.as_str(), '@') {
            return Err(
                VaultError::new(
                    ErrorKind::FieldWithAt,
                    "Remote host/user must not contain '@'".to_owned(),
                ),
            );
        }
        if self.path.as_str().is_empty() {
            return Err(
                VaultError::new(
                    ErrorKind::PathEmpty,
                    "Remote path must not be empty".to_owned(),
                ),
            );
        }
        Ok(())
    }
}

impl Clone for Remote {
    fn clone(&self) -> (r: Remote)
        ensures
            r@ == self@,
    {
        Remote {
            name: self.name.clone(),
            remote_type: self.remote_type,
            host: self.host.clone(),
            user: self.user.clone(),
            port: self.port,
            path: self.path.clone(),
        }
    }
}

/// The same remotes.
pub(crate) fn same_remotes(remotes: &[Remote]) -> (r: Vec<Remote>)
    ensures
        sites(r@) == sites(remotes@),
{
    let mut r: Vec<Remote> = Vec::new();
    for i in 0..remotes.len()
        invariant
            sites(r@) == sites(remotes@).take(i as int),
    {
        let ghost before = r@;
        r.push(remotes[i].clone());
        assert(sites(r@) =~= sites(before).push(remotes@[i as int]@));
        assert(sites(remotes@).take(i + 1) =~= sites(remotes@).take(i as int).push(
            remotes@[i as int]@,
        ));
    }
    assert(sites(remotes@).take(remotes@.len() as int) =~= sites(remotes@));
    r
}

/// The remotes of a configuration.
#[derive(Debug)]
pub struct RemotesConfig {
    pub remote: Vec<Remote>,
}

impl Default for RemotesConfig {
    fn default() -> (r: RemotesConfig)
        ensures
            r.remote@ == Seq::<Remote>::empty(),
    {
        RemotesConfig { remote: Vec::new() }
    }
}

// Names among remotes.

/// The place of the first remote with a name.
pub open spec fn place_of(remotes: Seq<Site>, name: Seq<char>) -> Option<int>
    decreases remotes.len(),
{
    if remotes.len() == 0 {
        None
    } else if remotes[0].name == name {
        Some(0)
    } else {
        match place_of(remotes.drop_first(), name) {
            Some(i) => Some(i + 1),
            None => None,
        }
    }
}

/// The remotes without those of a name.
pub open spec fn without(remotes: Seq<Site>, name: Seq<char>) -> Seq<Site> {
    remotes.filter(|site: Site| site.name != name)
}

/// The place of a name, if there is one, is that of the first remote that has
/// it.
pub proof fn law_place(remotes: Seq<Site>, name: Seq<char>)
    ensures
        match place_of(remotes, name) {
            Some(i) => {
                &&& 0 <= i < remotes.len()
                &&& remotes[i].name == name
                &&& forall|j: int| 0 <= j < i ==> (#[trigger] remotes[j]).name != name
            },
            None => forall|j: int| 0 <= j < remotes.len() ==> (#[trigger] remotes[j]).name != name,
        },
    decreases remotes.len(),
{
    if remotes.len() > 0 && remotes[0].name != name {
        let rest = remotes.drop_first();
        law_place(rest, name);
        match place_of(rest, name) {
            Some(i) => {
                assert(remotes[i + 1] == rest[i]);
                assert forall|j: int| 0 <= j < i + 1 implies (#[trigger] remotes[j]).name
                    != name by {
                    if j > 0 {
                        assert(rest[j - 1] == remotes[j]);
                    }
                }
            },
            None => {
                assert forall|j: int| 0 <= j < remotes.len() implies (#[trigger] remotes[j]).name
                    != name by {
                    if j > 0 {
                        assert(rest[j - 1] == remotes[j]);
                    }
                }
            },
        }
    }
}

/// Whether no two remotes have the same name.
pub open spec fn names_differ(remotes: Seq<Site>) -> bool {
    forall|i: int, j: int|
        #![trigger remotes[i], remotes[j]]
        0 <= i < j < remotes.len() ==> remotes[i].name != remotes[j].name
}

/// Adding a remote whose name no other has keeps the names apart, and the
/// remote is then found by its name.
pub proof fn law_adding_keeps_names_apart(remotes: Seq<Site>, site: Site)
    requires
        names_differ(remotes),
        place_of(remotes, site.name) is None,
    ensures
        names_differ(remotes.push(site)),
        place_of(remotes.push(site), site.name) == Some(remotes.len() as int),
{
    let all = remotes.push(site);
    law_place(remotes, site.name);
    law_place(all, site.name);
    assert(all[remotes.len() as int] == site);
    assert forall|i: int| 0 <= i < remotes.len() implies (#[trigger] all[i]).name != site.name by {
        assert(all[i] == remotes[i]);
    }
    assert forall|i: int, j: int|
        #![trigger all[i], all[j]]
        0 <= i < j < all.len() implies all[i].name != all[j].name by {
        if j < remotes.len() {
            assert(remotes[i].name != remotes[j].name);
        }
    }
}

/// Removing a name leaves no remote that has it, and leaves every other one;
/// nothing is removed just where no remote has the name.
pub proof fn law_removing(remotes: Seq<Site>, name: Seq<char>)
    ensures
        place_of(without(remotes, name), name) is None,
        forall|site: Site|
            site.name != name ==> (#[trigger] without(remotes, name).contains(site)
                <==> remotes.contains(site)),
        without(remotes, name).len() == remotes.len() <==> place_of(remotes, name) is None,
        without(remotes, name).len() <= remotes.len(),
        names_differ(remotes) ==> names_differ(without(remotes, name)),
    decreases remotes.len(),
{
    let keep = |site: Site| site.name != name;
    let rest = without(remotes, name);
    broadcast use vstd::seq_lib::group_filter_ensures;

    lemma_without_differs(remotes, name);
    law_place(rest, name);
    law_place(remotes, name);
    assert forall|j: int| 0 <= j < rest.len() implies (#[trigger] rest[j]).name != name by {
        assert(keep(rest[j]));
    }
    assert forall|site: Site| site.name != name implies (#[trigger] rest.contains(site)
        <==> remotes.contains(site)) by {
        if remotes.contains(site) {
            let i = choose|i: int| 0 <= i < remotes.len() && remotes[i] == site;
            assert(keep(remotes[i]));
            assert(rest.contains(remotes[i]));
        }
        if rest.contains(site) {
            let i = choose|i: int| 0 <= i < rest.len() && rest[i] == site;
            assert(remotes.contains(rest[i]));
        }
    }
    lemma_without_len(remotes, name);
}

proof fn lemma_without_len(remotes: Seq<Site>, name: Seq<char>)
    ensures
        without(remotes, name).len() <= remotes.len(),
        without(remotes, name).len() == remotes.len() <==> place_of(remotes, name) is None,
    decreases remotes.len(),
{
    reveal(Seq::filter);
    law_place(remotes, name);
    if remotes.len() > 0 {
        let init = remotes.drop_last();
        lemma_without_len(init, name);
        law_place(init, name);
        if place_of(init, name) is Some {
            let i = place_of(init, name).unwrap();
            assert(remotes[i] == init[i]);
        } else if place_of(remotes, name) is Some {
            let i = place_of(remotes, name).unwrap();
            if i < init.len() {
                assert(init[i] == remotes[i]);
            }
        }
    }
}

proof fn lemma_without_differs(remotes: Seq<Site>, name: Seq<char>)
    ensures
        names_differ(remotes) ==> names_differ(without(remotes, name)),
        forall|i: int|
            0 <= i < without(remotes, name).len() ==> remotes.contains(
                #[trigger] without(remotes, name)[i],
            ),
    decreases remotes.len(),
{
    reveal(Seq::filter);
    if remotes.len() > 0 {
        let init = remotes.drop_last();
        let last = remotes.last();
        assert forall|i: int, j: int|
            #![trigger init[i], init[j]]
            0 <= i < j < init.len() && names_differ(remotes) implies init[i].name
            != init[j].name by {
            assert(remotes[i].name != remotes[j].name);
        }
        lemma_without_differs(init, name);
        let before = without(init, name);
        let after = without(remotes, name);
        assert forall|i: int| 0 <= i < after.len() implies remotes.contains(
            #[trigger] after[i],
        ) by {
            if i < before.len() {
                assert(after[i] == before[i]);
                let j = choose|j: int| 0 <= j < init.len() && init[j] == before[i];
                assert(remotes[j] == before[i]);
            } else {
                assert(remotes[remotes.len() - 1] == last);
            }
        }
        assert forall|i: int, j: int|
            #![trigger after[i], after[j]]
            0 <= i < j < after.len() && names_differ(remotes) implies after[i].name
            != after[j].name by {
            assert(after[i] == before[i]);
            if j < before.len() {
                assert(after[j] == before[j]);
            } else {
                assert(init.contains(before[i]));
                let k = choose|k: int| 0 <= k < init.len() && init[k] == before[i];
                assert(remotes[k].name != remotes[remotes.len() - 1].name);
            }
        }
    }
}

/// The place of the first remote with a name.
pub(crate) fn find_place(remotes: &Vec<Remote>, name: &str) -> (r: Option<usize>)
    ensures
        match r {
            Some(i) => place_of(sites(remotes@), name@) == Some(i as int) && i < remotes@.len(),
            None => place_of(sites(remotes@), name@) is None,
        },
{
    let ghost all = sites(remotes@);
    proof {
        law_place(all, name@);
    }
    for i in 0..remotes.len()
        invariant
            all == sites(remotes@),
            match place_of(all, name@) {
                Some(p) => {
                    &&& 0 <= p < all.len()
                    &&& all[p].name == name@
                    &&& forall|j: int| 0 <= j < p ==> (#[trigger] all[j]).name != name@
                },
                None => forall|j: int| 0 <= j < all.len() ==> (#[trigger] all[j]).name != name@,
            },
            forall|j: int| 0 <= j < i ==> (#[trigger] all[j]).name != name@,
    {
        assert(all[i as int] == remotes@[i as int]@);
        if same_text(remotes[i].name.as_str(), name) {
            return Some(i);
        }
    }
    None
}

/// The remotes without those of a name.
pub(crate) fn leave_out(remotes: Vec<Remote>, name: &str) -> (r: Vec<Remote>)
    ensures
        sites(r@) == without(sites(remotes@), name@),
{
    let ghost all = sites(remotes@);
    let ghost keep = |site: Site| site.name != name@;
    let mut r: Vec<Remote> = Vec::new();
    proof {
        reveal(Seq::filter);
        assert(all.take(0) =~= Seq::<Site>::empty());
        assert(sites(r@) =~= Seq::<Site>::empty());
    }
    for i in 0..remotes.len()
        invariant
            all == sites(remotes@),
            keep == (|site: Site| site.name != name@),
            sites(r@) == all.take(i as int).filter(keep),
    {
        let ghost before = r@;
        proof {
            reveal(Seq::filter);
            assert(all.take(i + 1).drop_last() =~= all.take(i as int));
            assert(all.take(i + 1).last() == remotes@[i as int]@);
        }
        if !same_text(remotes[i].name.as_str(), name) {
            r.push(remotes[i].clone());
            assert(sites(r@) =~= sites(before).push(remotes@[i as int]@));
        }
    }
    assert(all.take(remotes@.len() as int) =~= all);
    r
}

// Texts of the ssh commands.

/// The path of the passphrase-encrypted key backup, next to the store.
pub open spec fn backup_path(store_path: Seq<char>) -> Seq<char> {
    store_path + ".key.age"@
}

/// The path of the passphrase-encrypted key backup, next to the store.
pub fn key_backup_path(store_path: &str) -> (r: String)
    ensures
        r@ == backup_path(store_path@),
{
    store_path.to_owned().concat(".key.age")
}

/// Where ssh connects to.
pub open spec fn target(site: Site) -> Seq<char> {
    site.user + "@"@ + site.host
}

/// Where ssh connects to.
pub fn ssh_target(remote: &Remote) -> (r: String)
    ensures
        r@ == target(remote@),
{
    remote.user.clone().concat("@").concat(remote.host.as_str())
}

/// The options of every ssh call: the port, if there is one, no questions,
/// and a limit on the time to connect.
pub open spec fn options(site: Site) -> Seq<Seq<char>> {
    (match site.port {
        Some(p) => seq!["-p"@, decimal(p as nat)],
        None => Seq::empty(),
    }) + seq!["-o"@, "BatchMode=yes"@, "-o"@, "ConnectTimeout=10"@]
}

/// The options of every ssh call.
pub fn ssh_opts(remote: &Remote) -> (r: Vec<String>)
    ensures
        texts(r@) == options(remote@),
{
    let mut v: Vec<String> = Vec::new();
    if let Some(p) = remote.port {
        v.push("-p".to_owned());
        v.push(decimal_of(p as u64));
    }
    v.push("-o".to_owned());
    v.push("BatchMode=yes".to_owned());
    v.push("-o".to_owned());
    v.push("ConnectTimeout=10".to_owned());
    assert(texts(v@) =~= options(remote@));
    v
}

/// The arguments of an ssh call that runs a command.
pub open spec fn arguments(site: Site, command: Seq<char>) -> Seq<Seq<char>> {
    options(site) + seq!["--"@, target(site), command]
}

/// The arguments of an ssh call that runs a command.
pub fn ssh_arguments(remote: &Remote, command: String) -> (r: Vec<String>)
    ensures
        texts(r@) == arguments(remote@, command@),
{
    let mut v = ssh_opts(remote);
    let ghost before = v@;
    v.push("--".to_owned());
    v.push(ssh_target(remote));
    v.push(command);
    assert(texts(v@) =~= texts(before) + seq!["--"@, target(remote@), command@]);
    v
}

/// No argument that a valid remote puts before the command, other than the
/// options themselves, is one that ssh would take for an option, and the
/// target parts at its one `@` into the user and the host.
pub proof fn law_target_of_valid_remote(site: Site)
    requires
        problem(site) is None,
    ensures
        target(site).len() > 0,
        target(site)[0] != '-',
        !has_space(target(site)),
        forall|i: int|
            0 <= i < target(site).len() ==> (#[trigger] target(site)[i] == '@' <==> i
                == site.user.len()),
{
    reveal_strlit("@");
    let t = target(site);
    assert(t[0] == site.user[0]);
    assert forall|i: int| 0 <= i < t.len() implies (#[trigger] t[i] == '@' <==> i
        == site.user.len()) by {
        if i < site.user.len() {
            assert(t[i] == site.user[i]);
        } else if i > site.user.len() {
            assert(t[i] == site.host[i - site.user.len() - 1]);
        }
    }
    assert forall|i: int| 0 <= i < t.len() implies !is_white(#[trigger] t[i]) && !is_control_code(
        t[i],
    ) by {
        if i < site.user.len() {
            assert(t[i] == site.user[i]);
        } else if i > site.user.len() {
            assert(t[i] == site.host[i - site.user.len() - 1]);
        }
    }
}

/// The directory that a remote path lies in: what stands before its last
/// slash, `/` where nothing does, and `.` where there is no slash.
pub open spec fn parent(path: Seq<char>) -> Seq<char> {
    match path.index_of_last('/') {
        Some(i) => if i == 0 {
            "/"@
        } else {
            path.take(i)
        },
        None => "."@,
    }
}

/// The directory that a remote path lies in.
pub fn parent_dir(path: &str) -> (r: String)
    ensures
        r@ == parent(path@),
{
    let chars = chars_of(path);
    proof {
        path@.index_of_last_ensures('/');
    }
    let mut i: usize = chars.len();
    while i > 0
        invariant
            i <= chars@.len(),
            chars@ == path@,
            forall|j: int| i <= j < path@.len() ==> path@[j] != '/',
            match path@.index_of_last('/') {
                Some(p) => {
                    &&& 0 <= p < path@.len()
                    &&& path@[p] == '/'
                    &&& forall|j: int| p < j < path@.len() ==> path@[j] != '/'
                },
                None => !path@.contains('/'),
            },
        decreases i,
    {
        i = i - 1;
        if chars[i] == '/' {
            assert(path@.contains('/'));
            assert(path@.index_of_last('/') == Some(i as int));
            if i == 0 {
                return "/".to_owned();
            }
            assert(chars@.subrange(0, i as int) =~= path@.take(i as int));
            return string_of(vstd::slice::slice_subrange(chars.as_slice(), 0, i));
        }
    }
    ".".to_owned()
}

/// The command that makes sure that a directory is there.
pub open spec fn make_command(dir: Seq<char>) -> Seq<char> {
    "mkdir -p -- "@ + single_quoted(dir)
}

/// The command that writes what it is fed to a path. The mask makes a new file
/// the owner's alone from the start; the mode is for one that was there.
pub open spec fn put_command(path: Seq<char>) -> Seq<char> {
    "umask 077 && cat > "@ + single_quoted(path) + " && chmod 600 "@ + single_quoted(path)
}

/// The command that prints what a path holds.
pub open spec fn get_command(path: Seq<char>) -> Seq<char> {
    "cat "@ + single_quoted(path)
}

/// The commands for different paths differ, and so do commands of different
/// kinds.
pub proof fn law_commands_differ(path: Seq<char>, other: Seq<char>)
    ensures
        put_command(path) == put_command(other) ==> path == other,
        get_command(path) == get_command(other) ==> path == other,
        put_command(path) != get_command(other),
        put_command(path) != make_command(other),
{
    reveal_strlit("mkdir -p -- ");
    reveal_strlit("umask 077 && cat > ");
    reveal_strlit(" && chmod 600 ");
    reveal_strlit("cat ");
    let a = single_quoted(path);
    let b = single_quoted(other);
    law_single_quotes(path);
    law_single_quotes(other);
    let start = "umask 077 && cat > "@;
    let middle = " && chmod 600 "@;
    let x = put_command(path);
    let y = put_command(other);
    assert(x[0] == 'u');
    assert(get_command(other)[0] == 'c');
    assert(make_command(other)[0] == 'm');
    assert(x.len() == start.len() + middle.len() + 2 * a.len());
    assert(y.len() == start.len() + middle.len() + 2 * b.len());
    if x == y {
        assert(a.len() == b.len());
        assert(a =~= x.subrange(start.len() as int, (start.len() + a.len()) as int));
        assert(b =~= y.subrange(start.len() as int, (start.len() + b.len()) as int));
    }
    if get_command(path) == get_command(other) {
        assert(a =~= get_command(path).skip("cat "@.len() as int));
        assert(b =~= get_command(other).skip("cat "@.len() as int));
    }
}

/// The remote shell reads the very path from each command, as one word,
/// whatever the path.
pub proof fn law_commands_name_the_path(path: Seq<char>)
    ensures
        exists|w: Seq<char>|
            {
                &&& #[trigger] word(w) == Some(path)
                &&& make_command(path) == "mkdir -p -- "@ + w
                &&& put_command(path) == "umask 077 && cat > "@ + w + " && chmod 600 "@ + w
                &&& get_command(path) == "cat "@ + w
            },
{
    law_single_quotes(path);
}

pub(crate) fn make_command_for(dir: &str) -> (r: String)
    ensures
        r@ == make_command(dir@),
{
    "mkdir -p -- ".to_owned().concat(in_single_quotes(dir).as_str())
}

pub(crate) fn put_command_for(path: &str) -> (r: String)
    ensures
        r@ == put_command(path@),
{
    let quoted = in_single_quotes(path);
    "umask 077 && cat > ".to_owned().concat(quoted.as_str()).concat(" && chmod 600 ").concat(
        quoted.as_str(),
    )
}

pub(crate) fn get_command_for(path: &str) -> (r: String)
    ensures
        r@ == get_command(path@),
{
    "cat ".to_owned().concat(in_single_quotes(path).as_str())
}

/// How the exit code of a program is shown; a program that a signal ended has
/// none.
pub open spec fn exit_text(code: Option<i32>) -> Seq<char> {
    match code {
        Some(n) => "Some("@ + (if n < 0 {
            "-"@ + decimal((-n) as nat)
        } else {
            decimal(n as nat)
        }) + ")"@,
        None => "None"@,
    }
}

pub(crate) fn exit_text_of(code: Option<i32>) -> (r: String)
    ensures
        r@ == exit_text(code),
{
    match code {
        Some(n) => {
            let number = if n < 0 {
                let size: i64 = -(n as i64);
                "-".to_owned().concat(decimal_of(size as u64).as_str())
            } else {
                decimal_of(n as u64)
            };
            "Some(".to_owned().concat(number.as_str()).concat(")")
        },
        None => "None".to_owned(),
    }
}

} // verus!
