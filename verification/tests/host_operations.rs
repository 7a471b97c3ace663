use choruz_api_gateway::experience::json_to_string;
use choruz_api_gateway::host_operations::{
    channel_visibility_label, host_operation, persist_step, principal_type_label, HostOperation,
    PersistStep,
};
use choruz_api_gateway::redaction::AppError;
use choruz_api_gateway::telemetry::JsonValue;

fn obj(fields: Vec<(&str, JsonValue)>) -> JsonValue {
    JsonValue::Object(fields.into_iter().map(|(k, v)| (k.to_string(), v)).collect())
}

fn s(v: &str) -> JsonValue {
    JsonValue::Str(v.to_string())
}

fn refusal(r: Result<HostOperation, AppError>) -> String {
    match r {
        Err(AppError::Validation(m)) => m,
        Err(other) => panic!("unexpected {:?}", other),
        Ok(_) => panic!("accepted"),
    }
}

#[test]
fn dashboard_operations_name_what_they_need() {
    match host_operation("drivers.inspect", obj(vec![("driver_type", s("codex_terminal"))])) {
        Ok(HostOperation::DriverCatalog { driver_type }) => assert_eq!(driver_type.as_deref(), Some("codex_terminal")),
        _ => panic!("drivers.inspect"),
    }
    assert!(matches!(host_operation("drivers.inspect", JsonValue::Null), Ok(HostOperation::DriverCatalog { driver_type: None })));
    assert!(matches!(host_operation("filesystem.home", JsonValue::Null), Ok(HostOperation::FilesystemHome)));
    match host_operation("filesystem.list", obj(vec![("path", s("/w")), ("show_hidden", JsonValue::Bool(true))])) {
        Ok(HostOperation::FilesystemList { path, show_hidden, include_files }) => {
            assert_eq!((path.as_str(), show_hidden, include_files), ("/w", true, false))
        }
        _ => panic!("filesystem.list"),
    }
    assert_eq!(refusal(host_operation("filesystem.list", obj(vec![]))), "filesystem.list requires path");
    let scan = obj(vec![("workspace_path", s("/w")), ("harnesses", JsonValue::Array(vec![s("codex")]))]);
    match host_operation("workspace_sessions.scan", scan) {
        Ok(HostOperation::ScanSessions { workspace_path, harnesses }) => {
            assert_eq!(workspace_path, "/w");
            assert_eq!(json_to_string(&harnesses), r#"["codex"]"#);
        }
        _ => panic!("scan"),
    }
    assert_eq!(
        refusal(host_operation("workspace_sessions.scan", obj(vec![("workspace_path", JsonValue::Bool(true))]))),
        "workspace_sessions.scan requires workspace_path"
    );
    match host_operation("workspace.provision", obj(vec![("name", s("app")), ("files", JsonValue::Null)])) {
        Ok(HostOperation::ProvisionWorkspace { workspace_path, name, files }) => {
            assert_eq!((workspace_path, name.as_str(), files.is_none()), (None, "app", true))
        }
        _ => panic!("provision"),
    }
    match host_operation("workspace.provision", obj(vec![("name", s("app")), ("files", JsonValue::Array(vec![]))])) {
        Ok(HostOperation::ProvisionWorkspace { files: Some(f), .. }) => assert_eq!(json_to_string(&f), "[]"),
        _ => panic!("provision with files"),
    }
    assert_eq!(refusal(host_operation("workspace.provision", obj(vec![]))), "workspace.provision requires name");
    assert_eq!(refusal(host_operation("shell.run", obj(vec![]))), "unsupported runtime host operation");
}

#[test]
fn follow_up_writes_are_tried_three_times() {
    assert!(matches!(persist_step(0, true), PersistStep::Done));
    assert!(matches!(persist_step(0, false), PersistStep::RetryAfterMs(100)));
    assert!(matches!(persist_step(1, false), PersistStep::RetryAfterMs(200)));
    assert!(matches!(persist_step(2, false), PersistStep::GiveUp));
    assert!(matches!(persist_step(2, true), PersistStep::Done));
    assert_eq!(principal_type_label(true), "agent");
    assert_eq!(principal_type_label(false), "human");
    assert_eq!(channel_visibility_label(true), "internal");
    assert_eq!(channel_visibility_label(false), "visible");
}
