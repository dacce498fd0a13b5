use bk_orchestrator::engine::{engine_step, EngineAction, EngineEvent, EngineFailure, EngineState};

/// Drive the machine from `Creating` over the given events, returning every
/// state and action passed through.
fn drive(events: &[EngineEvent]) -> (EngineState, Vec<EngineAction>) {
    let mut state = EngineState::Creating;
    let mut actions = Vec::new();
    for e in events {
        let (next, action) = engine_step(state, *e);
        state = next;
        actions.push(action);
    }
    (state, actions)
}

fn count_removes(actions: &[EngineAction]) -> usize {
    actions.iter().filter(|a| **a == EngineAction::Remove).count()
}

#[test]
fn engine_success_path() {
    let (state, actions) = drive(&[
        EngineEvent::CreateOk,
        EngineEvent::StartOk,
        EngineEvent::AttachOk,
        EngineEvent::InputOk,
        EngineEvent::OutputChunk,
        EngineEvent::OutputChunk,
        EngineEvent::OutputEnd,
        EngineEvent::RemoveOk,
    ]);
    assert_eq!(state, EngineState::Removed);
    assert_eq!(
        actions,
        vec![
            EngineAction::Start,
            EngineAction::Attach,
            EngineAction::WriteInput,
            EngineAction::ReadOutput,
            EngineAction::ReadOutput,
            EngineAction::ReadOutput,
            EngineAction::Remove,
            EngineAction::Stop,
        ]
    );
    assert_eq!(count_removes(&actions), 1);
}

#[test]
fn engine_create_failure_removes_nothing() {
    let (state, actions) = drive(&[EngineEvent::CreateFailed]);
    assert_eq!(state, EngineState::Failed(EngineFailure::ContainerCreateFailed));
    assert_eq!(actions, vec![EngineAction::Stop]);
    assert_eq!(count_removes(&actions), 0);
}

#[test]
fn engine_start_failure_still_cleans_up() {
    let (state, actions) = drive(&[
        EngineEvent::CreateOk,
        EngineEvent::StartFailed,
        EngineEvent::RemoveOk,
    ]);
    assert_eq!(state, EngineState::Failed(EngineFailure::ContainerStartFailed));
    assert_eq!(count_removes(&actions), 1);
}

#[test]
fn engine_attach_failure_still_cleans_up() {
    let (state, actions) = drive(&[
        EngineEvent::CreateOk,
        EngineEvent::StartOk,
        EngineEvent::AttachFailed,
        EngineEvent::RemoveOk,
    ]);
    assert_eq!(state, EngineState::Failed(EngineFailure::ContainerAttachFailed));
    assert_eq!(count_removes(&actions), 1);
}

#[test]
fn engine_input_failure_still_cleans_up() {
    let (state, actions) = drive(&[
        EngineEvent::CreateOk,
        EngineEvent::StartOk,
        EngineEvent::AttachOk,
        EngineEvent::InputFailed,
        EngineEvent::RemoveFailed,
    ]);
    // the removal was issued even though it then failed; the run reports the
    // step that broke it, not the cleanup
    assert_eq!(state, EngineState::Failed(EngineFailure::ContainerIoFailed));
    assert_eq!(count_removes(&actions), 1);
}

#[test]
fn engine_remove_failure_on_success_path() {
    let (state, actions) = drive(&[
        EngineEvent::CreateOk,
        EngineEvent::StartOk,
        EngineEvent::AttachOk,
        EngineEvent::InputOk,
        EngineEvent::OutputEnd,
        EngineEvent::RemoveFailed,
    ]);
    assert_eq!(state, EngineState::Failed(EngineFailure::ContainerRemoveFailed));
    assert_eq!(count_removes(&actions), 1);
}
