//! Dispatch of the first command-line token.

use vstd::prelude::*;
use crate::text::str_eq;

verus! {

/// What the program does for a given first token.
#[derive(Clone, Copy, PartialEq, Eq, Structural, Debug)]
pub enum Action {
    /// Submit a measurement.
    Add,
    /// List the stored measurements.
    Query,
    /// Print the usage text and take no action.
    Usage,
}

/// The action selected by a first command-line token.
pub open spec fn dispatch_spec(cmd: Seq<char>) -> Action {
    if cmd == "add"@ {
        Action::Add
    } else if cmd == "query"@ {
        Action::Query
    } else {
        Action::Usage
    }
}

/// Selects the action for the first command-line token; any token other
/// than `add` or `query` asks for the usage text.
pub fn dispatch(cmd: &str) -> (a: Action)
    ensures
        a == dispatch_spec(cmd@),
{
    if str_eq(cmd, "add") {
        Action::Add
    } else if str_eq(cmd, "query") {
        Action::Query
    } else {
        Action::Usage
    }
}

} // verus!
