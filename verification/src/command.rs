//! Telling the commands that the interpreter runs itself from programs.

use vstd::prelude::*;
use crate::text::chars_of;

verus! {

/// What the first word of a line asks for.
#[derive(Clone, Copy, Debug, PartialEq, Eq, Structural)]
pub enum Cmd {
    Exit,
    Echo,
    Type,
    Run,
    Pwd,
    Cd,
}

/// The command that a word names: one of the five builtins, or a program to run.
pub open spec fn command_of(word: Seq<char>) -> Cmd {
    if word == "exit"@ {
        Cmd::Exit
    } else if word == "echo"@ {
        Cmd::Echo
    } else if word == "type"@ {
        Cmd::Type
    } else if word == "pwd"@ {
        Cmd::Pwd
    } else if word == "cd"@ {
        Cmd::Cd
    } else {
        Cmd::Run
    }
}

/// Whether two string slices hold the same characters.
pub fn same_text(a: &str, b: &str) -> (same: bool)
    ensures
        same == (a@ == b@),
{
    let x = chars_of(a);
    let y = chars_of(b);
    if x.len() != y.len() {
        return false;
    }
    let mut i: usize = 0;
    while i < x.len()
        invariant
            i <= x.len(),
            x.len() == y.len(),
            x@ == a@,
            y@ == b@,
            forall|j: int| 0 <= j < i ==> x@[j] == y@[j],
        decreases x.len() - i,
    {
        if x[i] != y[i] {
            assert(a@[i as int] != b@[i as int]);
            return false;
        }
        i += 1;
    }
    assert(x@ =~= y@);
    true
}

impl Cmd {
    /// Reads the first word of a line.
    pub fn parse(s: &str) -> (cmd: Cmd)
        ensures
            cmd == command_of(s@),
    {
        if same_text(s, "exit") {
            Cmd::Exit
        } else if same_text(s, "echo") {
            Cmd::Echo
        } else if same_text(s, "type") {
            Cmd::Type
        } else if same_text(s, "pwd") {
            Cmd::Pwd
        } else if same_text(s, "cd") {
            Cmd::Cd
        } else {
            Cmd::Run
        }
    }

    /// Whether the interpreter runs this command itself.
    pub fn is_builtin(&self) -> (b: bool)
        ensures
            b == (*self != Cmd::Run),
    {
        !matches!(self, Cmd::Run)
    }
}

/// The names that completion offers as builtins are the words that name one.
pub proof fn builtin_names_agree(word: Seq<char>)
    ensures
        crate::autocompletion::is_builtin(word) <==> command_of(word) != Cmd::Run,
{
}

} // verus!
