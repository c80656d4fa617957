//! Mapping the first positional argument to a command. Any string other
//! than the five known ones selects `Unknown`, which the program answers
//! with a placeholder message and a normal exit.

use vstd::prelude::*;

verus! {

/// The five commands, and the fallback for any other argument.
#[derive(Clone, Copy, PartialEq, Eq, Structural, Debug)]
pub enum Command {
    Init,
    Add,
    List,
    Rinstall,
    RunAll,
    Unknown,
}

/// Which command a pattern string selects.
pub open spec fn command_of(p: Seq<char>) -> Command {
    if p == "init"@ {
        Command::Init
    } else if p == "add"@ {
        Command::Add
    } else if p == "list"@ {
        Command::List
    } else if p == "rinstall"@ {
        Command::Rinstall
    } else if p == "runAll"@ {
        Command::RunAll
    } else {
        Command::Unknown
    }
}

/// Selects the command the pattern names, `Unknown` for anything else.
pub fn parse_command(pattern: &String) -> (c: Command)
    ensures
        c == command_of(pattern@),
{
    if pattern.eq(&"init".to_owned()) {
        Command::Init
    } else if pattern.eq(&"add".to_owned()) {
        Command::Add
    } else if pattern.eq(&"list".to_owned()) {
        Command::List
    } else if pattern.eq(&"rinstall".to_owned()) {
        Command::Rinstall
    } else if pattern.eq(&"runAll".to_owned()) {
        Command::RunAll
    } else {
        Command::Unknown
    }
}

/// Only `add` takes the URL argument.
pub fn needs_url(c: Command) -> (b: bool)
    ensures
        b == (c is Add),
{
    match c {
        Command::Add => true,
        _ => false,
    }
}

} // verus!
