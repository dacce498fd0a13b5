use bk_orchestrator::beam::{AppId, ProxyId, BeamResult, Status};
use bk_orchestrator::error::ExecutorError;

#[test]
fn app_id_round_trips() {
    let s = "focus.proxy1.broker.samply.de";
    let id = AppId::new(s.to_string()).unwrap();
    assert_eq!(id.get_app_id(), s);
}

#[test]
fn app_id_minimal_round_trips() {
    let s = "a.b.c";
    let id = AppId::new(s.to_string()).unwrap();
    assert_eq!(id.get_app_id(), s);
}

#[test]
fn app_id_components() {
    let id = AppId::new("focus.proxy1.broker.samply.de".to_string()).unwrap();
    assert_eq!(id.get_proxy_id(), "proxy1.broker.samply.de");
}

#[test]
fn proxy_id_round_trips() {
    let p = ProxyId::new("proxy1.broker.samply.de".to_string()).unwrap();
    assert_eq!(p.get_proxy_id(), "proxy1.broker.samply.de");
    assert_eq!(p.get_broker_id(), "broker.samply.de");
}

#[test]
fn app_id_rejects_two_components() {
    assert!(matches!(
        AppId::new("app.broker".to_string()),
        Err(ExecutorError::InvalidIdentifier(_))
    ));
}

#[test]
fn app_id_rejects_one_component() {
    assert!(matches!(
        AppId::new("app".to_string()),
        Err(ExecutorError::InvalidIdentifier(_))
    ));
}

#[test]
fn app_id_rejects_empty() {
    assert!(AppId::new(String::new()).is_err());
}

#[test]
fn app_id_rejects_empty_components() {
    assert!(AppId::new(".proxy.broker".to_string()).is_err());
    assert!(AppId::new("app..broker".to_string()).is_err());
    assert!(AppId::new("app.proxy.".to_string()).is_err());
    // the remainder after the second dot must hold a name character
    assert!(AppId::new("app.proxy..".to_string()).is_err());
}

#[test]
fn proxy_id_rejects_missing_broker() {
    assert!(ProxyId::new("proxyonly".to_string()).is_err());
    assert!(ProxyId::new("proxy.".to_string()).is_err());
    assert!(ProxyId::new(".broker".to_string()).is_err());
}

#[test]
fn beam_result_constructors_set_status() {
    let from = AppId::new("a.b.c".to_string()).unwrap();
    let to = vec![AppId::new("x.y.z".to_string()).unwrap()];
    let task = "70c0aa90-bfcf-4312-a6af-42cbd57dc0b8".to_string();

    let claimed = BeamResult::claimed(from.clone(), to.clone(), task.clone());
    assert_eq!(claimed.status, Status::Claimed);
    assert_eq!(claimed.metadata, "unused");
    assert_eq!(claimed.body, "unused");
    assert_eq!(claimed.task, task);

    let ok = BeamResult::succeeded(from.clone(), to.clone(), task.clone(), "done".to_string());
    assert_eq!(ok.status, Status::Succeeded);
    assert_eq!(ok.body, "done");

    let perm = BeamResult::perm_failed(from.clone(), to.clone(), task.clone(), "bad".to_string());
    assert_eq!(perm.status, Status::PermFailed);
    assert_eq!(perm.body, "bad");

    let temp = BeamResult::temp_failed(from, to, task, "later".to_string());
    assert_eq!(temp.status, Status::TempFailed);
    assert_eq!(temp.body, "later");
}
