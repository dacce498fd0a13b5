use vstd::prelude::*;

verus! {

/// Errors surfaced by the decision and decoding logic of the agent.
///
/// `InvalidIdentifier` is fatal at startup (a malformed addressing string);
/// the two decode errors are per-poll-cycle or per-task and are recovered by
/// backing off or by skipping the offending task.
#[derive(Debug, Clone)]
pub enum ExecutorError {
    /// A dotted addressing string did not have the required
    /// `app.proxy.broker` shape.  Carries the offending string.
    InvalidIdentifier(String),
    /// The broker's task-list payload could not be decoded.
    UnableToParseTasks(String),
    /// A single task's body could not be decoded into an execution task.
    ParsingError(String),
}

} // verus!
