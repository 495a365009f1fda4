//! The library's error type.

use vstd::prelude::*;

verus! {

/// Why a repository reference or the configuration could not be used.
#[derive(Clone, Copy, Debug, PartialEq, Eq, Structural)]
pub enum SrcRepoError {
    /// The configuration names no root directory or no user name.
    Config,
    /// A local directory is not a git working copy, or has no remote `origin`.
    Git,
    /// A parsed url names no host, or an empty host, owner or name.
    GitUrl,
    /// The url parser refused the reference.
    GitUrlParseError,
    /// The home directory could not be determined.
    HomeDir,
    /// A shorthand reference leaves out a host or an owner, and neither a
    /// filter nor a configured default supplies it.
    Incomplete,
}

} // verus!
