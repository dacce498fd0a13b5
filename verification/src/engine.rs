//! The container execution engine, modelled as a state machine per
//! invocation: `Created -> Started -> Attached -> InputSent -> Draining ->
//! Removed`, with a failure state reachable from every step.  Each transition
//! consumes the outcome of one container-engine call (an event) and names the
//! next call to make (an action).  The driving loop performs the calls; the
//! machine owns the decisions, among them the cleanup guarantee: once a
//! container was created, exactly one remove call is issued on every path.

use vstd::prelude::*;
use crate::codec::{encode_workflow, spec_encode_workflow};
use crate::workflow::Workflow;

verus! {

/// Which lifecycle step failed, when a run ends in `Failed`.
#[derive(Debug, Clone, Copy, PartialEq, Eq, Structural)]
pub enum EngineFailure {
    ContainerCreateFailed,
    ContainerStartFailed,
    ContainerAttachFailed,
    ContainerIoFailed,
    ContainerRemoveFailed,
}

/// The per-invocation lifecycle states.  `AwaitingRemoval` is the success
/// path's removal step; `CleaningUp` is the removal issued on a failure path,
/// remembering the failure it will report.
#[derive(Debug, Clone, Copy, PartialEq, Eq, Structural)]
pub enum EngineState {
    /// Creation requested, outcome pending.
    Creating,
    /// Container exists; start requested.
    Starting,
    /// Container running; stdio attach requested.
    Attaching,
    /// Streams attached; payload write and end-of-input requested.
    SendingInput,
    /// Input sent; draining the output stream to completion.
    Draining,
    /// Output drained; forced removal requested.
    AwaitingRemoval,
    /// A step failed after creation; forced removal requested before failing.
    CleaningUp(EngineFailure),
    /// Terminal: the container was removed after a full successful run.
    Removed,
    /// Terminal: the run failed for the given reason.  If the container had
    /// been created, its removal was issued before this state was entered.
    Failed(EngineFailure),
}

/// The outcome of the engine call the machine last asked for.
#[derive(Debug, Clone, Copy, PartialEq, Eq, Structural)]
pub enum EngineEvent {
    CreateOk,
    CreateFailed,
    StartOk,
    StartFailed,
    AttachOk,
    AttachFailed,
    InputOk,
    InputFailed,
    /// One chunk of container output arrived and was forwarded.
    OutputChunk,
    /// The output stream ended (or broke); draining is over.
    OutputEnd,
    RemoveOk,
    RemoveFailed,
}

/// The next container-engine call the driving loop must make.
#[derive(Debug, Clone, Copy, PartialEq, Eq, Structural)]
pub enum EngineAction {
    /// Start the created container.
    Start,
    /// Attach combined interactive stdio streams.
    Attach,
    /// Serialize the workload, write it and a newline terminator to stdin,
    /// flush, and close the input stream.
    WriteInput,
    /// Read the next chunk of the output stream, forwarding what arrives.
    ReadOutput,
    /// Forcibly remove the container.
    Remove,
    /// Nothing further: the run is over.
    Stop,
}

/// True in the states where the container exists and its removal has not yet
/// been issued.
pub open spec fn holds_container(s: EngineState) -> bool {
    match s {
        EngineState::Starting => true,
        EngineState::Attaching => true,
        EngineState::SendingInput => true,
        EngineState::Draining => true,
        _ => false,
    }
}

/// True once the (single) remove call of this run has been issued.
pub open spec fn remove_issued(s: EngineState) -> bool {
    match s {
        EngineState::AwaitingRemoval => true,
        EngineState::CleaningUp(_) => true,
        EngineState::Removed => true,
        EngineState::Failed(f) => f != EngineFailure::ContainerCreateFailed,
        _ => false,
    }
}

/// True in the two absorbing states.
pub open spec fn is_terminal(s: EngineState) -> bool {
    s matches EngineState::Removed || s matches EngineState::Failed(_)
}

/// The container was created at some point of the run that reached `s`.
pub open spec fn container_acquired(s: EngineState) -> bool {
    holds_container(s) || remove_issued(s)
}

/// The transition relation: from state `s`, consuming the outcome `e` of the
/// call last asked for, move to the next state and name the next call.
/// Events that cannot answer the pending call of `s` are ignored (the state
/// re-issues its pending action).
pub open spec fn spec_step(s: EngineState, e: EngineEvent) -> (EngineState, EngineAction) {
    match (s, e) {
        (EngineState::Creating, EngineEvent::CreateOk) => (EngineState::Starting, EngineAction::Start),
        (EngineState::Creating, EngineEvent::CreateFailed) => (
            EngineState::Failed(EngineFailure::ContainerCreateFailed),
            EngineAction::Stop,
        ),
        (EngineState::Starting, EngineEvent::StartOk) => (
            EngineState::Attaching,
            EngineAction::Attach,
        ),
        (EngineState::Starting, EngineEvent::StartFailed) => (
            EngineState::CleaningUp(EngineFailure::ContainerStartFailed),
            EngineAction::Remove,
        ),
        (EngineState::Attaching, EngineEvent::AttachOk) => (
            EngineState::SendingInput,
            EngineAction::WriteInput,
        ),
        (EngineState::Attaching, EngineEvent::AttachFailed) => (
            EngineState::CleaningUp(EngineFailure::ContainerAttachFailed),
            EngineAction::Remove,
        ),
        (EngineState::SendingInput, EngineEvent::InputOk) => (
            EngineState::Draining,
            EngineAction::ReadOutput,
        ),
        (EngineState::SendingInput, EngineEvent::InputFailed) => (
            EngineState::CleaningUp(EngineFailure::ContainerIoFailed),
            EngineAction::Remove,
        ),
        (EngineState::Draining, EngineEvent::OutputChunk) => (
            EngineState::Draining,
            EngineAction::ReadOutput,
        ),
        (EngineState::Draining, EngineEvent::OutputEnd) => (
            EngineState::AwaitingRemoval,
            EngineAction::Remove,
        ),
        (EngineState::AwaitingRemoval, EngineEvent::RemoveOk) => (
            EngineState::Removed,
            EngineAction::Stop,
        ),
        (EngineState::AwaitingRemoval, EngineEvent::RemoveFailed) => (
            EngineState::Failed(EngineFailure::ContainerRemoveFailed),
            EngineAction::Stop,
        ),
        (EngineState::CleaningUp(f), EngineEvent::RemoveOk) => (
            EngineState::Failed(f),
            EngineAction::Stop,
        ),
        (EngineState::CleaningUp(f), EngineEvent::RemoveFailed) => (
            EngineState::Failed(f),
            EngineAction::Stop,
        ),
        _ => (s, pending_action(s)),
    }
}

/// The call a state is waiting on, re-issued when an event does not answer
/// it.  `Creating` waits on the creation call itself, which the driving loop
/// makes before the first event and which no action names, so it maps to
/// `Stop` like the terminal states.
pub open spec fn pending_action(s: EngineState) -> EngineAction {
    match s {
        EngineState::Creating => EngineAction::Stop,
        EngineState::Starting => EngineAction::Start,
        EngineState::Attaching => EngineAction::Attach,
        EngineState::SendingInput => EngineAction::WriteInput,
        EngineState::Draining => EngineAction::ReadOutput,
        EngineState::AwaitingRemoval => EngineAction::Remove,
        EngineState::CleaningUp(_) => EngineAction::Remove,
        EngineState::Removed => EngineAction::Stop,
        EngineState::Failed(_) => EngineAction::Stop,
    }
}

/// Executable transition: exactly the transition relation.
pub fn engine_step(s: EngineState, e: EngineEvent) -> (r: (EngineState, EngineAction))
    ensures
        r == spec_step(s, e),
{
    match (s, e) {
        (EngineState::Creating, EngineEvent::CreateOk) => (EngineState::Starting, EngineAction::Start),
        (EngineState::Creating, EngineEvent::CreateFailed) => (
            EngineState::Failed(EngineFailure::ContainerCreateFailed),
            EngineAction::Stop,
        ),
        (EngineState::Starting, EngineEvent::StartOk) => (
            EngineState::Attaching,
            EngineAction::Attach,
        ),
        (EngineState::Starting, EngineEvent::StartFailed) => (
            EngineState::CleaningUp(EngineFailure::ContainerStartFailed),
            EngineAction::Remove,
        ),
        (EngineState::Attaching, EngineEvent::AttachOk) => (
            EngineState::SendingInput,
            EngineAction::WriteInput,
        ),
        (EngineState::Attaching, EngineEvent::AttachFailed) => (
            EngineState::CleaningUp(EngineFailure::ContainerAttachFailed),
            EngineAction::Remove,
        ),
        (EngineState::SendingInput, EngineEvent::InputOk) => (
            EngineState::Draining,
            EngineAction::ReadOutput,
        ),
        (EngineState::SendingInput, EngineEvent::InputFailed) => (
            EngineState::CleaningUp(EngineFailure::ContainerIoFailed),
            EngineAction::Remove,
        ),
        (EngineState::Draining, EngineEvent::OutputChunk) => (
            EngineState::Draining,
            EngineAction::ReadOutput,
        ),
        (EngineState::Draining, EngineEvent::OutputEnd) => (
            EngineState::AwaitingRemoval,
            EngineAction::Remove,
        ),
        (EngineState::AwaitingRemoval, EngineEvent::RemoveOk) => (
            EngineState::Removed,
            EngineAction::Stop,
        ),
        (EngineState::AwaitingRemoval, EngineEvent::RemoveFailed) => (
            EngineState::Failed(EngineFailure::ContainerRemoveFailed),
            EngineAction::Stop,
        ),
        (EngineState::CleaningUp(f), EngineEvent::RemoveOk) => (
            EngineState::Failed(f),
            EngineAction::Stop,
        ),
        (EngineState::CleaningUp(f), EngineEvent::RemoveFailed) => (
            EngineState::Failed(f),
            EngineAction::Stop,
        ),
        (st, _) => {
            let a = match st {
                EngineState::Creating => EngineAction::Stop,
                EngineState::Starting => EngineAction::Start,
                EngineState::Attaching => EngineAction::Attach,
                EngineState::SendingInput => EngineAction::WriteInput,
                EngineState::Draining => EngineAction::ReadOutput,
                EngineState::AwaitingRemoval => EngineAction::Remove,
                EngineState::CleaningUp(_) => EngineAction::Remove,
                EngineState::Removed => EngineAction::Stop,
                EngineState::Failed(_) => EngineAction::Stop,
            };
            (st, a)
        },
    }
}

/// The state after consuming a whole event sequence.
pub open spec fn run_state(s: EngineState, es: Seq<EngineEvent>) -> EngineState
    decreases es.len(),
{
    if es.len() == 0 {
        s
    } else {
        run_state(spec_step(s, es[0]).0, es.subrange(1, es.len() as int))
    }
}

/// The number of `Remove` actions emitted while consuming `es` from `s`.
pub open spec fn removes_emitted(s: EngineState, es: Seq<EngineEvent>) -> nat
    decreases es.len(),
{
    if es.len() == 0 {
        0nat
    } else {
        (if spec_step(s, es[0]).1 == EngineAction::Remove {
            1nat
        } else {
            0nat
        }) + removes_emitted(spec_step(s, es[0]).0, es.subrange(1, es.len() as int))
    }
}

/// `e` answers the call that state `s` is waiting on.  A driving loop that
/// performs each requested call and feeds back its outcome produces exactly
/// such events; anything else is ignored by the machine.
pub open spec fn answers(s: EngineState, e: EngineEvent) -> bool {
    match s {
        EngineState::Creating => e == EngineEvent::CreateOk || e == EngineEvent::CreateFailed,
        EngineState::Starting => e == EngineEvent::StartOk || e == EngineEvent::StartFailed,
        EngineState::Attaching => e == EngineEvent::AttachOk || e == EngineEvent::AttachFailed,
        EngineState::SendingInput => e == EngineEvent::InputOk || e == EngineEvent::InputFailed,
        EngineState::Draining => e == EngineEvent::OutputChunk || e == EngineEvent::OutputEnd,
        EngineState::AwaitingRemoval => e == EngineEvent::RemoveOk || e == EngineEvent::RemoveFailed,
        EngineState::CleaningUp(_) => e == EngineEvent::RemoveOk || e == EngineEvent::RemoveFailed,
        EngineState::Removed => false,
        EngineState::Failed(_) => false,
    }
}

/// Every event of `es` answers the call pending when it arrives.
pub open spec fn admissible(s: EngineState, es: Seq<EngineEvent>) -> bool
    decreases es.len(),
{
    es.len() == 0 || (answers(s, es[0]) && admissible(
        spec_step(s, es[0]).0,
        es.subrange(1, es.len() as int),
    ))
}

/// A cleanup state always remembers a post-creation failure; runs never
/// clean up after a creation that did not happen.
pub open spec fn state_wf(s: EngineState) -> bool {
    s != EngineState::CleaningUp(EngineFailure::ContainerCreateFailed)
}

/// Container lifecycle cleanup: in any terminal state, removal was issued if
/// and only if the container had been created — no terminal state leaks a
/// container, and no run removes what it never created.
pub proof fn lemma_cleanup_on_every_path(es: Seq<EngineEvent>)
    requires
        is_terminal(run_state(EngineState::Creating, es)),
    ensures
        remove_issued(run_state(EngineState::Creating, es)) == container_acquired(
            run_state(EngineState::Creating, es),
        ),
{
}

/// Counting version of the cleanup law: a complete run (admissible events,
/// ending terminal) emits exactly one `Remove` action when creation
/// succeeded, and none otherwise — in particular, a run whose creation call
/// failed never removes anything.
pub proof fn lemma_remove_emitted_once(es: Seq<EngineEvent>)
    requires
        admissible(EngineState::Creating, es),
        is_terminal(run_state(EngineState::Creating, es)),
    ensures
        removes_emitted(EngineState::Creating, es) == (
        if container_acquired(run_state(EngineState::Creating, es)) {
            1nat
        } else {
            0nat
        }),
{
    lemma_remove_accounting_general(EngineState::Creating, es);
}

/// Invariant form of the counting law, over any well-formed start state: the
/// removes emitted along an admissible run to a terminal state settle what
/// the start state owes — one removal while the container is held, none once
/// removal was issued, and one more should a creation succeed on the way.
proof fn lemma_remove_accounting_general(s: EngineState, es: Seq<EngineEvent>)
    requires
        state_wf(s),
        admissible(s, es),
        is_terminal(run_state(s, es)),
    ensures
        removes_emitted(s, es) + (if remove_issued(s) {
            1nat
        } else {
            0nat
        }) == (if container_acquired(run_state(s, es)) {
            1nat
        } else {
            0nat
        }),
    decreases es.len(),
{
    if es.len() > 0 {
        let (s2, a) = spec_step(s, es[0]);
        lemma_remove_accounting_general(s2, es.subrange(1, es.len() as int));
    }
}

/// The fixed, engine-chosen image of the control container each task runs
/// in; the workload's own step images are payload, not what is launched.
pub fn control_image() -> (r: &'static str)
    ensures
        r@ == "orchestrator-tester:local"@,
{
    "orchestrator-tester:local"
}

/// Relies on `uuid::Uuid::new_v4` and `Uuid`'s `Display` impl: a fresh
/// random version-4 identifier, rendered in the canonical hyphenated form of
/// exactly 36 characters.  Nothing relates two calls: the value is random.
#[verifier::external_body]
fn random_run_id() -> (r: String)
    ensures
        r@.len() == 36,
{
    uuid::Uuid::new_v4().to_string()
}

/// The unique container name derived from one run's identifier.
pub fn container_name(run_id: &str) -> (r: String)
    ensures
        r@ == "DockerOrchestrator-"@ + run_id@,
{
    let mut r = String::from_str("DockerOrchestrator-");
    r.append(run_id);
    r
}

/// A container name for a fresh task-scoped run id: the fixed prefix
/// followed by the 36-character identifier.  Distinct runs get distinct
/// names with overwhelming probability; nothing more is assumed of the
/// random identifier than its length.
pub fn fresh_container_name() -> (r: String)
    ensures
        r@.len() == "DockerOrchestrator-"@.len() + 36,
        r@.subrange(0, "DockerOrchestrator-"@.len() as int) == "DockerOrchestrator-"@,
{
    let id = random_run_id();
    let r = container_name(id.as_str());
    proof {
        assert(r@.subrange(0, "DockerOrchestrator-"@.len() as int) =~= "DockerOrchestrator-"@);
    }
    r
}

/// The exact text written to the container's standard input: the workload's
/// canonical encoding followed by the newline terminator, after which the
/// stream is flushed and closed.
pub fn stdin_payload(w: &Workflow) -> (r: String)
    ensures
        r@ == spec_encode_workflow(w.deep_view()) + "\n"@,
{
    let mut r = encode_workflow(w);
    r.append("\n");
    r
}

} // verus!
