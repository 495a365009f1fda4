//! The program's command set: what it says it is, and its subcommands.

use vstd::prelude::*;

use crate::log::LogLevel;

verus! {

/// The program's one-line description.
pub fn about() -> (r: &'static str)
    ensures
        r@ == "Manage git repositories in an organized way"@,
{
    "Manage git repositories in an organized way"
}

/// The subcommands, in the order the help lists them: name and description.
pub fn subcommands() -> (r: Vec<(&'static str, &'static str)>)
    ensures
        r@ == seq![
            ("cd", "Change directory"),
            ("clone", "Clone"),
            ("config", "Config"),
            ("ls", "List"),
            ("new", "New"),
            ("rm", "Remove"),
            ("sync", "Sync"),
        ],
{
    let r = vec![
        ("cd", "Change directory"),
        ("clone", "Clone"),
        ("config", "Config"),
        ("ls", "List"),
        ("new", "New"),
        ("rm", "Remove"),
        ("sync", "Sync"),
    ];
    assert(r@ =~= seq![
        ("cd", "Change directory"),
        ("clone", "Clone"),
        ("config", "Config"),
        ("ls", "List"),
        ("new", "New"),
        ("rm", "Remove"),
        ("sync", "Sync"),
    ]);
    r
}

/// Changing directory is the shell hook's work, which the program cannot do
/// on its own: `cd` run directly reports that the hook is missing, as an
/// error.
pub fn cd() -> (r: (LogLevel, &'static str))
    ensures
        r.0 == LogLevel::Error,
        r.1@ == "The shell hook has not been initialized."@,
{
    (LogLevel::Error, "The shell hook has not been initialized.")
}

} // verus!
