//! The execution dispatcher's one decision: which engine runs a task.  The
//! executor kinds are a closed set, matched exhaustively — an unsupported
//! kind is logged and discarded, never silently mis-routed.

use vstd::prelude::*;
use crate::workflow::Executor;

verus! {

/// The engines this agent can drive.
#[derive(Debug, Clone, Copy, PartialEq, Eq, Structural)]
pub enum EngineKind {
    Docker,
}

/// Select the engine for a task's declared executor kind; `None` means the
/// kind is not implemented and the task is dropped (no result reported).
pub fn select_engine(e: Executor) -> (r: Option<EngineKind>)
    ensures
        r == Some(EngineKind::Docker) <==> e == Executor::DockerExecutor,
        r is None <==> e == Executor::HPCExecutor,
{
    match e {
        Executor::DockerExecutor => Some(EngineKind::Docker),
        Executor::HPCExecutor => None,
    }
}

} // verus!
