//! Shell built-in commands.
use vstd::prelude::*;
use crate::text::str_eq;

verus! {

/// The built-in commands.
#[derive(Clone, Copy, PartialEq, Eq, Structural, Debug)]
pub enum Builtin {
    Cd,
    Echo,
    Exit,
    Ls,
    Cat,
}

/// The built-in named `s`, if any.
pub open spec fn builtin_named(s: Seq<char>) -> Option<Builtin> {
    if s == "cd"@ {
        Some(Builtin::Cd)
    } else if s == "echo"@ {
        Some(Builtin::Echo)
    } else if s == "exit"@ {
        Some(Builtin::Exit)
    } else if s == "ls"@ {
        Some(Builtin::Ls)
    } else if s == "cat"@ {
        Some(Builtin::Cat)
    } else {
        None
    }
}

impl Builtin {
    /// Look up a built-in by its command name.
    pub fn from_str(s: &str) -> (r: Option<Self>)
        ensures
            r == builtin_named(s@),
    {
        if str_eq(s, "cd") {
            Some(Builtin::Cd)
        } else if str_eq(s, "echo") {
            Some(Builtin::Echo)
        } else if str_eq(s, "exit") {
            Some(Builtin::Exit)
        } else if str_eq(s, "ls") {
            Some(Builtin::Ls)
        } else if str_eq(s, "cat") {
            Some(Builtin::Cat)
        } else {
            None
        }
    }

    /// Run the command with `args`, returning its exit status.  The file
    /// system and output services are not reachable yet, so every command
    /// succeeds without effect.
    pub fn execute(&self, _args: &[&str]) -> (r: i32)
        ensures
            r == 0,
    {
        match self {
            Builtin::Cd => 0,
            Builtin::Echo => 0,
            Builtin::Exit => 0,
            Builtin::Ls => 0,
            Builtin::Cat => 0,
        }
    }
}

} // verus!
