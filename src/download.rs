//! The download loop's decisions: after each attempt at a chapter, go on to
//! the next one, try the same one again after the retry delay, or stop.

use vstd::prelude::*;
use crate::render::WriteError;

verus! {

/// The retry delay, in seconds, where none is given.
pub const DEFAULT_RETRY_DELAY: u64 = 2;

/// What the download loop does after an attempt at a chapter.
#[derive(PartialEq, Eq, Structural, Debug, Clone, Copy)]
pub enum Attempt {
    /// The chapter is written: go on with the next one.
    Done,
    /// Sleep this many seconds, then try the same chapter again.
    RetryAfter(u64),
    /// Stop the whole run.
    Abort,
}

pub open spec fn decision(outcome: Result<(), WriteError>, retry_delay: u64) -> Attempt {
    match outcome {
        Ok(()) => Attempt::Done,
        Err(WriteError::Http(_)) => Attempt::RetryAfter(retry_delay),
        Err(_) => Attempt::Abort,
    }
}

/// Decides what follows an attempt at a chapter: a failed fetch is tried
/// again, without limit, after `retry_delay` seconds; a page without the
/// chapter body, or output that cannot be written, stops the run.
pub fn after_attempt(outcome: &Result<(), WriteError>, retry_delay: u64) -> (r: Attempt)
    ensures
        r == decision(*outcome, retry_delay),
{
    match outcome {
        Ok(()) => Attempt::Done,
        Err(WriteError::Http(_)) => Attempt::RetryAfter(retry_delay),
        Err(_) => Attempt::Abort,
    }
}

/// Over any run of attempts at one chapter, each failed fetch is followed by
/// a retry after exactly the configured delay, and the loop leaves the chapter
/// only at the first attempt that is not a failed fetch: on success it goes on,
/// on any other error it stops the run.
pub proof fn lemma_retry_until_settled(outcomes: Seq<Result<(), WriteError>>, retry_delay: u64)
    requires
        outcomes.len() > 0,
        forall|k: int| 0 <= k < outcomes.len() - 1 ==> #[trigger] outcomes[k] matches Err(WriteError::Http(_)),
        !(outcomes.last() matches Err(WriteError::Http(_))),
    ensures
        forall|k: int| 0 <= k < outcomes.len() - 1 ==> #[trigger] decision(outcomes[k], retry_delay) == Attempt::RetryAfter(retry_delay),
        outcomes.last() is Ok ==> decision(outcomes.last(), retry_delay) == Attempt::Done,
        outcomes.last() is Err ==> decision(outcomes.last(), retry_delay) == Attempt::Abort,
{
    assert forall|k: int| 0 <= k < outcomes.len() - 1 implies #[trigger] decision(outcomes[k], retry_delay) == Attempt::RetryAfter(retry_delay) by {
        assert(outcomes[k] matches Err(WriteError::Http(_)));
    }
}

} // verus!
