//! The copy sink's reaction to what it receives and to how an attempt to
//! copy an image went.

use crate::error::SSClipError;
use vstd::prelude::*;

verus! {

/// How long the copy sink waits before it offers an image to an occupied
/// clipboard again, in milliseconds.
pub const RETRY_DELAY_MILLIS: u64 = 100;

/// Decides what the copy sink does with what its inbound channel gave.
///
/// A path is taken up as it came in. A receive that failed, `reason` being
/// the channel's account of it, ends the sink with `CrossBeamRecvError`.
pub fn received(inbound: Result<String, String>) -> (r: Result<String, SSClipError>)
    ensures
        r == match inbound {
            Ok(path) => Ok::<String, SSClipError>(path),
            Err(reason) => Err::<String, SSClipError>(SSClipError::CrossBeamRecvError(reason)),
        },
{
    match inbound {
        Ok(path) => Ok(path),
        Err(reason) => Err(SSClipError::CrossBeamRecvError(reason)),
    }
}

/// How an attempt to put the image at a path on the clipboard went.
#[derive(Clone, Debug, PartialEq, Eq)]
pub enum CopyOutcome {
    /// The file could not be read as an image, for the reason given.
    Undecodable(String),
    /// The image is on the clipboard.
    Stored,
    /// Another program holds the clipboard at the moment.
    Occupied,
    /// The clipboard failed for the reason given.
    Failed(String),
}

/// What the copy sink does next.
#[derive(Clone, Debug, PartialEq, Eq)]
pub enum CopyStep {
    /// The image was copied; wait for the next path.
    Done,
    /// Nothing was copied: log the reason and wait for the next path.
    Skip(String),
    /// Wait this many milliseconds, then offer the same image again.
    RetryAfter(u64),
    /// Give up: the error is fatal to the pipeline.
    Abort(SSClipError),
}

/// Decides the copy sink's next step. A file that is no image is passed over,
/// an occupied clipboard is tried again after `RETRY_DELAY_MILLIS`, and any
/// other failure of the clipboard ends the sink with `CopyError`.
pub fn after_attempt(outcome: CopyOutcome) -> (step: CopyStep)
    ensures
        step == match outcome {
            CopyOutcome::Undecodable(reason) => CopyStep::Skip(reason),
            CopyOutcome::Stored => CopyStep::Done,
            CopyOutcome::Occupied => CopyStep::RetryAfter(RETRY_DELAY_MILLIS),
            CopyOutcome::Failed(reason) => CopyStep::Abort(SSClipError::CopyError(reason)),
        },
{
    match outcome {
        CopyOutcome::Undecodable(reason) => CopyStep::Skip(reason),
        CopyOutcome::Stored => CopyStep::Done,
        CopyOutcome::Occupied => CopyStep::RetryAfter(RETRY_DELAY_MILLIS),
        CopyOutcome::Failed(reason) => CopyStep::Abort(SSClipError::CopyError(reason)),
    }
}

} // verus!
