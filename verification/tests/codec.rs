use bk_orchestrator::codec::{decode_execution_task, decode_tasks, encode_workflow};
use bk_orchestrator::engine::{container_name, control_image, fresh_container_name, stdin_payload};
use bk_orchestrator::error::ExecutorError;
use bk_orchestrator::workflow::{Executor, Workflow, WorkflowStep};

#[test]
fn decodes_minimal_execution_task() {
    let body = r#"{"executor":{"name":"DockerExecutor"},"workflow":{"output":[],"steps":[]}}"#;
    let task = decode_execution_task(body).unwrap();
    assert_eq!(task.executor.name, Executor::DockerExecutor);
    assert!(task.workflow.output.is_empty());
    assert!(task.workflow.steps.is_empty());
}

#[test]
fn minimal_workflow_stdin_payload() {
    let body = r#"{"executor":{"name":"DockerExecutor"},"workflow":{"output":[],"steps":[]}}"#;
    let task = decode_execution_task(body).unwrap();
    assert_eq!(stdin_payload(&task.workflow), "{\"output\":[],\"steps\":[]}\n");
}

#[test]
fn decodes_hpc_executor_kind() {
    let body = r#"{"executor":{"name":"HPCExecutor"},"workflow":{"output":[],"steps":[]}}"#;
    let task = decode_execution_task(body).unwrap();
    assert_eq!(task.executor.name, Executor::HPCExecutor);
}

#[test]
fn decodes_full_workflow() {
    let body = "{\"executor\":{\"name\":\"DockerExecutor\"},\"workflow\":{\"output\":[\"result.txt\"],\"steps\":[{\"name\":\"step1\",\"image\":\"alpine:latest\",\"env\":[\"A=1\",\"B=2\"],\"input\":null,\"output\":\"out1\"},{\"name\":\"step2\",\"image\":\"busybox\",\"env\":null,\"input\":[\"out1\"],\"output\":\"out2\"}]}}";
    let task = decode_execution_task(body).unwrap();
    let w = &task.workflow;
    assert_eq!(w.output, vec!["result.txt".to_string()]);
    assert_eq!(w.steps.len(), 2);
    assert_eq!(w.steps[0].name, "step1");
    assert_eq!(w.steps[0].image, "alpine:latest");
    assert_eq!(w.steps[0].env, Some(vec!["A=1".to_string(), "B=2".to_string()]));
    assert_eq!(w.steps[0].input, None);
    assert_eq!(w.steps[0].output, "out1");
    assert_eq!(w.steps[1].env, None);
    assert_eq!(w.steps[1].input, Some(vec!["out1".to_string()]));
}

#[test]
fn workflow_encode_decode_round_trip() {
    let w = Workflow {
        output: vec!["a".to_string(), "quo\"te".to_string()],
        steps: vec![WorkflowStep {
            name: "line\nbreak".to_string(),
            image: "img".to_string(),
            env: Some(vec![]),
            input: None,
            output: "back\\slash".to_string(),
        }],
    };
    let encoded = encode_workflow(&w);
    let body = format!(
        "{{\"executor\":{{\"name\":\"DockerExecutor\"}},\"workflow\":{}}}",
        encoded
    );
    let decoded = decode_execution_task(&body).unwrap();
    assert_eq!(decoded.workflow.output, w.output);
    assert_eq!(decoded.workflow.steps.len(), 1);
    assert_eq!(decoded.workflow.steps[0].name, w.steps[0].name);
    assert_eq!(decoded.workflow.steps[0].image, w.steps[0].image);
    assert_eq!(decoded.workflow.steps[0].env, w.steps[0].env);
    assert_eq!(decoded.workflow.steps[0].input, w.steps[0].input);
    assert_eq!(decoded.workflow.steps[0].output, w.steps[0].output);
    // the re-encoding is exactly the text that was decoded
    assert_eq!(encode_workflow(&decoded.workflow), encoded);
}

#[test]
fn encode_escapes_specials() {
    let w = Workflow {
        output: vec!["say \"hi\"".to_string()],
        steps: vec![],
    };
    assert_eq!(
        encode_workflow(&w),
        r#"{"output":["say \"hi\""],"steps":[]}"#
    );
}

#[test]
fn decodes_execution_task_with_whitespace() {
    let body = r#"{"executor": {"name":"DockerExecutor"}, "workflow": {"output": [], "steps": []}}"#;
    let task = decode_execution_task(body).unwrap();
    assert_eq!(task.executor.name, Executor::DockerExecutor);
    assert!(task.workflow.output.is_empty());
    assert!(task.workflow.steps.is_empty());
}

#[test]
fn whitespace_inside_strings_is_kept() {
    let body = "{\"executor\": {\"name\": \"DockerExecutor\"},\n  \"workflow\": {\"output\": [\"a b\\tc\"], \"steps\": []}}";
    let task = decode_execution_task(body).unwrap();
    assert_eq!(task.workflow.output, vec!["a b\tc".to_string()]);
}

#[test]
fn decodes_control_character_escapes() {
    let body = r#"{"executor":{"name":"DockerExecutor"},"workflow":{"output":["a\bb\fc\u0007d\u0041"],"steps":[]}}"#;
    let task = decode_execution_task(body).unwrap();
    assert_eq!(
        task.workflow.output,
        vec!["a\u{8}b\u{c}c\u{7}dA".to_string()]
    );
}

#[test]
fn rejects_surrogate_style_unicode_escape() {
    // only the \u00XX control-character form is part of the wire repertoire
    let body = r#"{"executor":{"name":"DockerExecutor"},"workflow":{"output":["\ud83d"],"steps":[]}}"#;
    assert!(decode_execution_task(body).is_err());
}

#[test]
fn rejects_malformed_body() {
    assert!(matches!(
        decode_execution_task("not json at all"),
        Err(ExecutorError::ParsingError(_))
    ));
}

#[test]
fn rejects_unknown_executor_kind() {
    let body = r#"{"executor":{"name":"Mystery"},"workflow":{"output":[],"steps":[]}}"#;
    assert!(decode_execution_task(body).is_err());
}

#[test]
fn rejects_trailing_text() {
    let body = r#"{"executor":{"name":"DockerExecutor"},"workflow":{"output":[],"steps":[]}}x"#;
    assert!(decode_execution_task(body).is_err());
    // trailing whitespace, by contrast, is insignificant
    let spaced = r#"{"executor":{"name":"DockerExecutor"},"workflow":{"output":[],"steps":[]}} "#;
    assert!(decode_execution_task(spaced).is_ok());
}

#[test]
fn decodes_task_batch() {
    let wire = "[{\"id\":\"70c0aa90-bfcf-4312-a6af-42cbd57dc0b8\",\"from\":\"app1.proxy1.broker\",\"to\":[\"exec.proxy2.broker\"],\"metadata\":\"opaque\",\"body\":\"{\\\"executor\\\":{\\\"name\\\":\\\"DockerExecutor\\\"},\\\"workflow\\\":{\\\"output\\\":[],\\\"steps\\\":[]}}\",\"ttl\":30,\"failure_strategy\":{\"retry\":{\"backoff_millisecs\":1000,\"max_tries\":5}}}]";
    let tasks = decode_tasks(wire).unwrap();
    assert_eq!(tasks.len(), 1);
    let t = &tasks[0];
    assert_eq!(t.id, "70c0aa90-bfcf-4312-a6af-42cbd57dc0b8");
    assert_eq!(t.from.get_app_id(), "app1.proxy1.broker");
    assert_eq!(t.to.len(), 1);
    assert_eq!(t.to[0].get_app_id(), "exec.proxy2.broker");
    assert_eq!(t.metadata, "opaque");
    assert_eq!(t.ttl, 30);
    // the escaped body unescapes to the nested document
    assert_eq!(
        t.body,
        r#"{"executor":{"name":"DockerExecutor"},"workflow":{"output":[],"steps":[]}}"#
    );
    let inner = decode_execution_task(&t.body).unwrap();
    assert_eq!(inner.executor.name, Executor::DockerExecutor);
}

#[test]
fn decodes_empty_task_batch() {
    assert!(decode_tasks("[]").unwrap().is_empty());
    assert!(decode_tasks("[ ]").unwrap().is_empty());
    assert!(decode_tasks(" [\n]\n").unwrap().is_empty());
}

#[test]
fn decodes_pretty_printed_task_batch() {
    let wire = "[\n  {\n    \"id\": \"70c0aa90-bfcf-4312-a6af-42cbd57dc0b8\",\n    \"from\": \"app1.proxy1.broker\",\n    \"to\": [\"exec.proxy2.broker\"],\n    \"metadata\": \"m m\",\n    \"body\": \"{\\\"executor\\\":{\\\"name\\\":\\\"DockerExecutor\\\"},\\\"workflow\\\":{\\\"output\\\":[],\\\"steps\\\":[]}}\",\n    \"ttl\": 30,\n    \"failure_strategy\": {\"retry\": {\"backoff_millisecs\": 1000, \"max_tries\": 5}}\n  }\n]";
    let tasks = decode_tasks(wire).unwrap();
    assert_eq!(tasks.len(), 1);
    // whitespace inside the string fields survives; the rest is stripped
    assert_eq!(tasks[0].metadata, "m m");
    let inner = decode_execution_task(&tasks[0].body).unwrap();
    assert_eq!(inner.executor.name, Executor::DockerExecutor);
}

#[test]
fn rejects_batch_with_bad_identity() {
    let wire = "[{\"id\":\"70c0aa90-bfcf-4312-a6af-42cbd57dc0b8\",\"from\":\"nodots\",\"to\":[],\"metadata\":\"\",\"body\":\"\",\"ttl\":0,\"failure_strategy\":{\"retry\":{\"backoff_millisecs\":0,\"max_tries\":0}}}]";
    assert!(matches!(
        decode_tasks(wire),
        Err(ExecutorError::UnableToParseTasks(_))
    ));
}

#[test]
fn rejects_non_array_batch() {
    assert!(decode_tasks("{}").is_err());
}

#[test]
fn container_names_are_task_scoped() {
    assert_eq!(
        container_name("70c0aa90-bfcf-4312-a6af-42cbd57dc0b8"),
        "DockerOrchestrator-70c0aa90-bfcf-4312-a6af-42cbd57dc0b8"
    );
    let fresh = fresh_container_name();
    assert!(fresh.starts_with("DockerOrchestrator-"));
    assert_eq!(fresh.chars().count(), "DockerOrchestrator-".len() + 36);
    // two runs get distinct names
    assert_ne!(fresh, fresh_container_name());
}

#[test]
fn control_image_is_fixed() {
    assert_eq!(control_image(), "orchestrator-tester:local");
}
