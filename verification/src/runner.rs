//! The supervisor's ruling on how a pipeline stage ended.

use crate::error::SSClipError;
use vstd::prelude::*;

verus! {

/// The exit status of a process that a fatal error ended.
pub const FATAL_EXIT_CODE: i32 = 1;

/// What the supervisor does when a stage has returned.
#[derive(Clone, Debug, PartialEq, Eq)]
pub enum Verdict {
    /// The stage ended without error: nothing is to be done.
    Finished,
    /// The stage failed: show `message` to the user and end the process with
    /// status `code`.
    Fatal { message: String, code: i32 },
}

/// Rules on the outcome of a stage. Every error that a stage returns is fatal,
/// and its message is shown before the process ends.
pub fn verdict(outcome: &Result<(), SSClipError>) -> (v: Verdict)
    ensures
        outcome is Ok ==> v is Finished,
        outcome matches Err(e) ==> (v matches Verdict::Fatal { message, code } && message@
            == e.prefix() + e.detail() && code == FATAL_EXIT_CODE),
{
    match outcome {
        Ok(_) => Verdict::Finished,
        Err(e) => Verdict::Fatal { message: e.message(), code: FATAL_EXIT_CODE },
    }
}

} // verus!
