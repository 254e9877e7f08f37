//! The user commands, and the choices made around them: which file to use,
//! which editor to run, whether a command writes the file back.

use vstd::prelude::*;
use crate::text::{chars_of, string_of};

verus! {

broadcast use vstd::string::group_string_axioms;

/// The commands a user can run against the task file.
#[derive(Clone, Copy, Debug, PartialEq, Eq, Structural)]
pub enum Command {
    View,
    Add,
    Remove,
    SetStatus,
    Modify,
    Editor,
    Sort,
}

/// The name under which a command is offered and named on the command line.
pub open spec fn name_of(c: Command) -> Seq<char> {
    match c {
        Command::View => seq!['v', 'i', 'e', 'w'],
        Command::Add => seq!['a', 'd', 'd'],
        Command::Remove => seq!['r', 'e', 'm', 'o', 'v', 'e'],
        Command::SetStatus => seq!['s', 'e', 't'],
        Command::Modify => seq!['m', 'o', 'd', 'i', 'f', 'y'],
        Command::Editor => seq!['e', 'd', 'i', 't', 'o', 'r'],
        Command::Sort => seq!['s', 'o', 'r', 't'],
    }
}

/// The commands in the order in which they are offered.
pub open spec fn all_commands() -> Seq<Command> {
    seq![
        Command::View,
        Command::Add,
        Command::Remove,
        Command::SetStatus,
        Command::Modify,
        Command::Editor,
        Command::Sort,
    ]
}

/// The command menu: the names, one per line, in the order offered.
pub open spec fn menu_text(n: nat) -> Seq<char>
    decreases n,
{
    if n == 0 {
        Seq::empty()
    } else if n == 1 {
        name_of(all_commands()[0])
    } else {
        menu_text((n - 1) as nat) + seq!['\n'] + name_of(all_commands()[n - 1])
    }
}

fn name_chars(c: Command) -> (r: Vec<char>)
    ensures
        r@ == name_of(c),
{
    match c {
        Command::View => vec!['v', 'i', 'e', 'w'],
        Command::Add => vec!['a', 'd', 'd'],
        Command::Remove => vec!['r', 'e', 'm', 'o', 'v', 'e'],
        Command::SetStatus => vec!['s', 'e', 't'],
        Command::Modify => vec!['m', 'o', 'd', 'i', 'f', 'y'],
        Command::Editor => vec!['e', 'd', 'i', 't', 'o', 'r'],
        Command::Sort => vec!['s', 'o', 'r', 't'],
    }
}

fn eq_chars(a: &Vec<char>, b: &Vec<char>) -> (r: bool)
    ensures
        r == (a@ == b@),
{
    if a.len() != b.len() {
        return false;
    }
    let mut i: usize = 0;
    while i < a.len()
        invariant
            a@.len() == b@.len(),
            i <= a@.len(),
            forall|k: int| 0 <= k < i ==> a@[k] == b@[k],
        decreases a@.len() - i,
    {
        if a[i] != b[i] {
            return false;
        }
        i = i + 1;
    }
    assert(a@ =~= b@);
    true
}

impl Command {
    /// The commands in the order in which they are offered.
    pub fn all() -> (r: Vec<Command>)
        ensures
            r@ == all_commands(),
    {
        vec![
            Command::View,
            Command::Add,
            Command::Remove,
            Command::SetStatus,
            Command::Modify,
            Command::Editor,
            Command::Sort,
        ]
    }

    /// The name of this command.
    pub fn name(&self) -> (r: String)
        ensures
            r@ == name_of(*self),
    {
        let v = name_chars(*self);
        let r = string_of(&v, 0, v.len());
        assert(v@.subrange(0, v@.len() as int) =~= v@);
        r
    }

    /// The command with the given name, if any.
    pub fn from_name(s: &str) -> (r: Option<Command>)
        ensures
            r is Some <==> exists|c: Command| name_of(c) == s@,
            r is Some ==> name_of(r->Some_0) == s@,
    {
        let v = chars_of(s);
        let cs = Command::all();
        let mut i: usize = 0;
        while i < cs.len()
            invariant
                cs@ == all_commands(),
                v@ == s@,
                i <= cs@.len(),
                forall|k: int| 0 <= k < i ==> name_of(#[trigger] all_commands()[k]) != s@,
            decreases cs@.len() - i,
        {
            if eq_chars(&name_chars(cs[i]), &v) {
                return Some(cs[i]);
            }
            i = i + 1;
        }
        assert forall|c: Command| name_of(c) != s@ by {
            let k: int = match c {
                Command::View => 0,
                Command::Add => 1,
                Command::Remove => 2,
                Command::SetStatus => 3,
                Command::Modify => 4,
                Command::Editor => 5,
                Command::Sort => 6,
            };
            assert(all_commands()[k] == c);
        }
        None
    }

    /// The command picked from the menu: none when the pick was aborted,
    /// nothing was selected, or the selected line names no command.
    pub fn from_pick(aborted: bool, selected: Option<String>) -> (r: Option<Command>)
        ensures
            (aborted || selected is None) ==> r is None,
            (!aborted && selected is Some) ==> (r is Some <==> exists|c: Command|
                name_of(c) == selected->Some_0@),
            r is Some ==> name_of(r->Some_0) == selected->Some_0@,
    {
        if aborted {
            return None;
        }
        match selected {
            Some(s) => Command::from_name(s.as_str()),
            None => None,
        }
    }

    /// The command menu: the names, one per line, in the order offered.
    pub fn menu() -> (r: String)
        ensures
            r@ == menu_text(7),
    {
        let cs = Command::all();
        let mut out = String::new();
        let mut i: usize = 0;
        while i < cs.len()
            invariant
                cs@ == all_commands(),
                i <= 7,
                out@ == menu_text(i as nat),
            decreases 7 - i,
        {
            if i > 0 {
                crate::text::push_char(&mut out, '\n');
            }
            let v = name_chars(cs[i]);
            crate::text::push_chars(&mut out, &v, 0, v.len());
            assert(v@.subrange(0, v@.len() as int) =~= v@);
            proof {
                if i == 0 {
                    assert(out@ =~= menu_text(1));
                } else {
                    assert(out@ =~= menu_text(i as nat) + seq!['\n'] + name_of(all_commands()[i as int]));
                }
            }
            i = i + 1;
        }
        out
    }

    /// Whether the command sorts the tasks before anything else.
    pub fn sorts(&self) -> (r: bool)
        ensures
            r == (*self == Command::View || *self == Command::Sort),
    {
        match self {
            Command::View | Command::Sort => true,
            _ => false,
        }
    }

    /// Whether the command writes the tasks back to the file once it is done;
    /// `added` tells whether an add session added any task.
    pub fn rewrites_file(&self, added: bool) -> (r: bool)
        ensures
            r == match *self {
                Command::View | Command::Editor => false,
                Command::Add => added,
                _ => true,
            },
    {
        match self {
            Command::View | Command::Editor => false,
            Command::Add => added,
            _ => true,
        }
    }
}

/// The file in the working directory that is used when present.
pub open spec fn local_name() -> Seq<char> {
    seq!['.', 't', 'o', 'd', 'o', '.', 'm', 'd']
}

/// Which task file to use.
#[derive(Debug)]
pub enum FileChoice {
    /// The file of the working directory.
    Local,
    /// The configured default file, by its path.
    Default(String),
}

/// Why no task file can be used.
#[derive(Clone, Copy, Debug, PartialEq, Eq, Structural)]
pub enum PathError {
    /// A default is configured but is not a file.
    InvalidDefault,
    /// There is no local file and no default is configured.
    NotFound,
}

impl PathError {
    /// What to tell the user.
    pub fn message(&self) -> (r: String)
        ensures
            *self == PathError::InvalidDefault ==> r@ == "path does not lead to a valid file"@,
            *self == PathError::NotFound ==> r@
                == "file .todo.md not found in current directory and no default is set"@,
    {
        match self {
            PathError::InvalidDefault => "path does not lead to a valid file".to_string(),
            PathError::NotFound => "file .todo.md not found in current directory and no default is set".to_string(),
        }
    }
}

/// The name of the file looked for in the working directory.
pub fn local_file_name() -> (r: String)
    ensures
        r@ == local_name(),
{
    let v = vec!['.', 't', 'o', 'd', 'o', '.', 'm', 'd'];
    let r = string_of(&v, 0, v.len());
    assert(v@.subrange(0, v@.len() as int) =~= v@);
    r
}

/// Picks the task file: the local one when it is a file; else the configured
/// default when it is a file; else the reason why neither can be used.
pub fn resolve_path(local_is_file: bool, default: Option<String>, default_is_file: bool) -> (r:
    Result<FileChoice, PathError>)
    ensures
        local_is_file ==> r matches Ok(FileChoice::Local),
        !local_is_file && default is Some && default_is_file ==> (r matches Ok(FileChoice::Default(p))
            && p@ == default->Some_0@),
        !local_is_file && default is Some && !default_is_file ==> r == Err::<FileChoice, PathError>(
            PathError::InvalidDefault,
        ),
        !local_is_file && default is None ==> r == Err::<FileChoice, PathError>(PathError::NotFound),
{
    if local_is_file {
        Ok(FileChoice::Local)
    } else {
        match default {
            Some(p) => {
                if default_is_file {
                    Ok(FileChoice::Default(p))
                } else {
                    Err(PathError::InvalidDefault)
                }
            },
            None => Err(PathError::NotFound),
        }
    }
}

/// The editor to run: the configured one, else `vi`.
pub fn editor_program(configured: Option<String>) -> (r: String)
    ensures
        configured is Some ==> r@ == configured->Some_0@,
        configured is None ==> r@ == seq!['v', 'i'],
{
    match configured {
        Some(e) => e,
        None => {
            let v = vec!['v', 'i'];
            let r = string_of(&v, 0, 2);
            assert(v@.subrange(0, 2) =~= seq!['v', 'i']);
            r
        },
    }
}

} // verus!
