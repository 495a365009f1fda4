//! Severity of the messages that callers report.

use vstd::prelude::*;

verus! {

/// How serious a reported message is.
#[derive(Clone, Copy, Debug, PartialEq, Eq, Structural)]
pub enum LogLevel {
    Error,
}

} // verus!
