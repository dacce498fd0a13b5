use bk_orchestrator::beam::AppId;
use bk_orchestrator::codec::decode_tasks;
use bk_orchestrator::dispatch::{select_engine, EngineKind};
use bk_orchestrator::source::{
    authorization_header, health_url, plan_poll_cycle, probe_step, process_batch, tasks_url,
    PollCycleOutcome, PollResponse, ProbeDecision, ProbeEvent, PROBE_MAX_ATTEMPTS,
};
use bk_orchestrator::workflow::Executor;

#[test]
fn probe_stops_on_first_success() {
    let (attempts, decision) = probe_step(3, ProbeEvent::Success);
    assert_eq!(attempts, 3);
    assert_eq!(decision, ProbeDecision::Available);
}

#[test]
fn probe_retries_with_delay_and_counts() {
    let (attempts, decision) = probe_step(0, ProbeEvent::Unavailable);
    assert_eq!(attempts, 1);
    assert_eq!(decision, ProbeDecision::RetryAfterDelay);
}

#[test]
fn probe_counts_transport_errors_too() {
    let (attempts, decision) = probe_step(4, ProbeEvent::TransportError);
    assert_eq!(attempts, 5);
    assert_eq!(decision, ProbeDecision::RetryAfterDelay);
}

#[test]
fn probe_gives_up_at_cap_without_failing() {
    let mut attempts = 0;
    loop {
        let (next, decision) = probe_step(attempts, ProbeEvent::Unavailable);
        attempts = next;
        match decision {
            ProbeDecision::RetryAfterDelay => continue,
            ProbeDecision::GiveUp => break,
            ProbeDecision::Available => panic!("no success event was given"),
        }
    }
    assert_eq!(attempts, PROBE_MAX_ATTEMPTS);
}

#[test]
fn authorization_header_format() {
    let id = AppId::new("app1.proxy1.broker".to_string()).unwrap();
    assert_eq!(
        authorization_header(&id, "SECRET-REDACTED"),
        "ApiKey app1.proxy1.broker SECRET-REDACTED"
    );
}

#[test]
fn broker_urls() {
    assert_eq!(health_url("https://proxy1.example/"), "https://proxy1.example/v1/health");
    assert_eq!(
        tasks_url("https://proxy1.example/"),
        "https://proxy1.example/v1/tasks?filter=todo&wait_count=1&wait_time=100"
    );
}

#[test]
fn poll_transport_error_backs_off() {
    assert!(matches!(
        plan_poll_cycle(&PollResponse::TransportError),
        PollCycleOutcome::BackoffAndRetry
    ));
}

#[test]
fn poll_server_error_backs_off() {
    let resp = PollResponse::Response(500, String::new());
    assert!(matches!(plan_poll_cycle(&resp), PollCycleOutcome::BackoffAndRetry));
}

#[test]
fn poll_other_status_means_no_tasks_now() {
    let resp = PollResponse::Response(204, String::new());
    match plan_poll_cycle(&resp) {
        PollCycleOutcome::Dispatch(ts) => assert!(ts.is_empty()),
        PollCycleOutcome::BackoffAndRetry => panic!("a no-task status is not a failed cycle"),
    }
}

#[test]
fn poll_undecodable_list_backs_off() {
    let resp = PollResponse::Response(200, "not a task list".to_string());
    assert!(matches!(plan_poll_cycle(&resp), PollCycleOutcome::BackoffAndRetry));
}

#[test]
fn poll_dispatches_decoded_tasks() {
    let wire = "[{\"id\":\"70c0aa90-bfcf-4312-a6af-42cbd57dc0b8\",\"from\":\"app1.proxy1.broker\",\"to\":[\"exec.proxy2.broker\"],\"metadata\":\"\",\"body\":\"{\\\"executor\\\":{\\\"name\\\":\\\"DockerExecutor\\\"},\\\"workflow\\\":{\\\"output\\\":[],\\\"steps\\\":[]}}\",\"ttl\":30,\"failure_strategy\":{\"retry\":{\"backoff_millisecs\":1000,\"max_tries\":5}}}]";
    let resp = PollResponse::Response(206, wire.to_string());
    match plan_poll_cycle(&resp) {
        PollCycleOutcome::Dispatch(ts) => {
            assert_eq!(ts.len(), 1);
            assert_eq!(ts[0].executor.name, Executor::DockerExecutor);
        },
        PollCycleOutcome::BackoffAndRetry => panic!("a decodable batch must dispatch"),
    }
}

#[test]
fn malformed_body_does_not_cost_siblings() {
    let wire = "[{\"id\":\"70c0aa90-bfcf-4312-a6af-42cbd57dc0b8\",\"from\":\"app1.proxy1.broker\",\"to\":[],\"metadata\":\"\",\"body\":\"{\\\"executor\\\":{\\\"name\\\":\\\"DockerExecutor\\\"},\\\"workflow\\\":{\\\"output\\\":[\\\"first\\\"],\\\"steps\\\":[]}}\",\"ttl\":1,\"failure_strategy\":{\"retry\":{\"backoff_millisecs\":1,\"max_tries\":1}}},{\"id\":\"80c0aa90-bfcf-4312-a6af-42cbd57dc0b8\",\"from\":\"app1.proxy1.broker\",\"to\":[],\"metadata\":\"\",\"body\":\"garbage\",\"ttl\":1,\"failure_strategy\":{\"retry\":{\"backoff_millisecs\":1,\"max_tries\":1}}},{\"id\":\"90c0aa90-bfcf-4312-a6af-42cbd57dc0b8\",\"from\":\"app1.proxy1.broker\",\"to\":[],\"metadata\":\"\",\"body\":\"{\\\"executor\\\":{\\\"name\\\":\\\"DockerExecutor\\\"},\\\"workflow\\\":{\\\"output\\\":[\\\"third\\\"],\\\"steps\\\":[]}}\",\"ttl\":1,\"failure_strategy\":{\"retry\":{\"backoff_millisecs\":1,\"max_tries\":1}}}]";
    let tasks = decode_tasks(wire).unwrap();
    assert_eq!(tasks.len(), 3);
    let decoded = process_batch(&tasks);
    // the malformed middle task is dropped; its siblings survive, in order
    assert_eq!(decoded.len(), 2);
    assert_eq!(decoded[0].workflow.output, vec!["first".to_string()]);
    assert_eq!(decoded[1].workflow.output, vec!["third".to_string()]);
}

#[test]
fn dispatcher_selects_engine_by_kind() {
    assert_eq!(select_engine(Executor::DockerExecutor), Some(EngineKind::Docker));
    assert_eq!(select_engine(Executor::HPCExecutor), None);
}
