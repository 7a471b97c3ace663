use hmac::Mac;
use sha2::Digest;
use choruz_api_gateway::activity::{
    activity_cursor_bytes, check_summary_query, encode_activity_cursor, page_limit,
};
use choruz_api_gateway::browser::{
    binding_fingerprint, check_account_unchanged, check_agent_access, check_automation_driver,
    check_automation_policy, check_browser_scope, check_run_conversation, check_scope_match,
    device_id,
    mark_stale_automation, request_hash, run_is_finished, run_result,
};
use choruz_api_gateway::cron::UtcInstant;
use choruz_api_gateway::host_link::{check_hello, offline, token_refusal, LinkRegistry};
use choruz_api_gateway::ordering::{sort_texts, text_less};
use choruz_api_gateway::principals::{
    batch_disable_summary, check_batch_conversations, check_conversation_authorization,
};
use choruz_api_gateway::redaction::AppError;
use choruz_api_gateway::runtime_status::{
    command_view, runtime_status_view, AgentRef, AgentRuntimeStatus, RuntimeStatusCommand,
};
use choruz_api_gateway::runtime_bindings::{
    check_binding_creator, check_harness_account_found, check_runtime_host_owned,
    check_runtime_target, normalized_binding_config, requested_harness_account,
    requested_runtime_host,
    codex_capture_metadata_matches_binding, codex_session_provenance_matches, conversation_label,
    conversation_type_label, effective_interaction_mode, runtime_binding_config_for_agent,
    terminal_capture_error_is_permanent, validate_runtime_binding_config, CodexCaptureMetadata,
    ConversationType, RuntimeBinding,
};
use choruz_api_gateway::runtime_hosts::{
    account_model_ids, check_probe_lists, quota_windows, secret, validate_account_identity,
    validate_account_name, validate_host_name,
};
use choruz_api_gateway::sync_socket::{
    ack_failed_detail, on_ack_result, reject_ack_detail, reject_frame_detail, AckStep, ClientStep,
    DrainStep, SyncSession, PAGE_SIZE,
};
use choruz_api_gateway::telemetry::JsonValue;
use choruz_api_gateway::terminals::{
    bind_terminal_context, check_terminal_agent, check_terminal_binding, check_terminal_caller,
    check_terminal_conversation, check_workspace_active, classify_text_frame,
    effective_resume_session, ensure_terminal_response, submission_finished, submission_started,
    terminal_activity_metadata, terminal_spec, terminal_submission, TerminalFrame,
};
use choruz_api_gateway::workspace_sessions::{
    agent_name_candidates, check_import_company, check_import_selections, check_previous_import,
    check_scan_request, check_session_workspace, codex_import_anchor, display_agent_name,
    find_discovered, import_audit_metadata, import_driver, imported_binding_config,
    native_session_import_lock_key, session_account_harness, session_missing, unique_agent_name,
    validate_remote_workspace_path, with_codex_anchor, HarnessKind, ImportSessionSelection,
    NativeSessionSummary, plan_prior_import, PreviousImport, PriorImportPlan, import_step,
    ImportAction, ImportEvent, ImportState,
};

fn obj(fields: Vec<(&str, JsonValue)>) -> JsonValue {
    JsonValue::Object(fields.into_iter().map(|(k, v)| (k.to_string(), v)).collect())
}

fn text(s: &str) -> JsonValue {
    JsonValue::Str(s.to_string())
}

fn validation_message(e: AppError) -> String {
    match e {
        AppError::Validation(m) => m,
        other => panic!("expected a validation error, got {:?}", other),
    }
}

#[test]
fn runtime_binding_model_validation_rejects_cli_option_injection() {
    assert!(validate_runtime_binding_config(Some(&obj(vec![("model", text("--help"))]))).is_err());
    assert!(validate_runtime_binding_config(Some(&obj(vec![("model", text("bad\nmodel"))]))).is_err());
    assert!(
        validate_runtime_binding_config(Some(&obj(vec![("model", text(&"x".repeat(257)))]))).is_err()
    );
}

#[test]
fn runtime_binding_model_validation_accepts_provider_ids() {
    assert!(
        validate_runtime_binding_config(Some(&obj(vec![(
            "model",
            text("openrouter/example-lab/large-model-5:fast")
        )])))
        .is_ok()
    );
    assert!(validate_runtime_binding_config(Some(&obj(vec![]))).is_ok());
}

#[test]
fn model_validation_messages_name_each_refusal() {
    let e = validate_runtime_binding_config(Some(&obj(vec![("model", JsonValue::Number("1".into()))])))
        .unwrap_err();
    assert_eq!(validation_message(e), "config_json.model must be a string");
    let e = validate_runtime_binding_config(Some(&obj(vec![("model", text(&"é".repeat(129)))])))
        .unwrap_err();
    assert_eq!(validation_message(e), "config_json.model must be 256 bytes or fewer");
    let e = validate_runtime_binding_config(Some(&obj(vec![("model", text("  -x"))]))).unwrap_err();
    assert_eq!(validation_message(e), "config_json.model contains unsafe characters");
    assert!(validate_runtime_binding_config(Some(&obj(vec![("model", text("   "))]))).is_ok());
    assert!(validate_runtime_binding_config(Some(&obj(vec![("model", text(&"é".repeat(128)))]))).is_ok());
    assert!(validate_runtime_binding_config(None).is_ok());
    assert!(validate_runtime_binding_config(Some(&JsonValue::Null)).is_ok());
}

fn members(v: &JsonValue) -> &Vec<(String, JsonValue)> {
    match v {
        JsonValue::Object(f) => f,
        other => panic!("expected an object, got {:?}", other),
    }
}

#[test]
fn binding_config_adds_the_agent_name_once() {
    let built = runtime_binding_config_for_agent("Ada", None);
    assert_eq!(
        format!("{:?}", built),
        format!(
            "{:?}",
            obj(vec![
                ("mention_aliases", JsonValue::Array(vec![text("Ada")])),
                ("agent_name", text("Ada")),
            ])
        )
    );
    let input = obj(vec![
        ("model", text("m")),
        ("mention_aliases", JsonValue::Array(vec![text("ada"), JsonValue::Bool(true)])),
        ("agent_name", text("Custom")),
    ]);
    let built = runtime_binding_config_for_agent("Ada", Some(input));
    let f = members(&built);
    assert_eq!(f.len(), 3);
    assert_eq!(
        format!("{:?}", f[1].1),
        format!("{:?}", JsonValue::Array(vec![text("ada"), JsonValue::Bool(true), text("Ada")]))
    );
    assert_eq!(format!("{:?}", f[2].1), format!("{:?}", text("Custom")));
    let again = runtime_binding_config_for_agent("Ada", Some(obj(vec![])));
    let twice = runtime_binding_config_for_agent("Ada", Some(again));
    assert_eq!(format!("{:?}", twice), format!("{:?}", runtime_binding_config_for_agent("Ada", None)));
    let replaced = runtime_binding_config_for_agent("Ada", Some(obj(vec![("mention_aliases", text("x"))])));
    assert_eq!(
        format!("{:?}", members(&replaced)[0].1),
        format!("{:?}", JsonValue::Array(vec![text("Ada")]))
    );
    let not_object = runtime_binding_config_for_agent("Ada", Some(JsonValue::Array(vec![])));
    assert_eq!(members(&not_object).len(), 2);
}

fn binding(config_json: JsonValue) -> RuntimeBinding {
    RuntimeBinding {
        id: "binding-1".into(),
        conversation_id: "conversation-1".into(),
        agent_principal_id: "agent-1".into(),
        driver_type: "codex_terminal".into(),
        workspace_path: "/workspace".into(),
        terminal_generation: 7,
        config_json,
    }
}

#[test]
fn codex_terminal_provenance_accepts_matching_terminal_binding() {
    let binding = binding(obj(vec![
        ("external_session_provenance", text("process_captured")),
        ("external_session_driver_type", text("codex_terminal")),
        ("external_session_binding_id", text("binding-1")),
        ("external_session_mode", text("terminal")),
        ("external_session_captured_at", text("2026-05-11T00:00:00Z")),
    ]));
    assert!(codex_session_provenance_matches(&binding, "binding-1", "terminal"));
}

#[test]
fn codex_terminal_provenance_rejects_headless_mode() {
    let binding = binding(obj(vec![
        ("external_session_provenance", text("process_captured")),
        ("external_session_driver_type", text("codex_terminal")),
        ("external_session_binding_id", text("binding-1")),
        ("external_session_mode", text("headless")),
        ("external_session_captured_at", text("2026-05-11T00:00:00Z")),
    ]));
    assert!(!codex_session_provenance_matches(&binding, "binding-1", "terminal"));
}

fn capture() -> CodexCaptureMetadata {
    CodexCaptureMetadata {
        binding_id: "binding-1".into(),
        conversation_id: "conversation-1".into(),
        agent_principal_id: "agent-1".into(),
        driver_type: "codex_terminal".into(),
        workspace_path: "/workspace".into(),
        binding_generation: 7,
        workspace_id: "workspace-1".into(),
        company_id: "company-1".into(),
    }
}

#[test]
fn capture_metadata_must_match_the_whole_owner_tuple() {
    let b = binding(obj(vec![
        ("agent_workspace_id", text("workspace-1")),
        ("conversation_workspace_id", text("company-1")),
    ]));
    assert!(codex_capture_metadata_matches_binding(&b, &capture()));
    let mut c = capture();
    c.binding_generation = 6;
    assert!(!codex_capture_metadata_matches_binding(&b, &c));
    let mut c = capture();
    c.company_id = "company-2".into();
    assert!(!codex_capture_metadata_matches_binding(&b, &c));
    let mut c = capture();
    c.workspace_path = "/other".into();
    assert!(!codex_capture_metadata_matches_binding(&b, &c));
    let unscoped = binding(obj(vec![("agent_workspace_id", text("workspace-1"))]));
    assert!(!codex_capture_metadata_matches_binding(&unscoped, &capture()));
}

#[test]
fn terminal_capture_stops_retrying_when_binding_context_is_gone() {
    assert!(terminal_capture_error_is_permanent(&AppError::NotFound(
        "runtime binding context changed".into()
    )));
    assert!(!terminal_capture_error_is_permanent(&AppError::Internal(
        "temporary database failure".into()
    )));
}

#[test]
fn interaction_mode_prefers_the_stored_mode() {
    let stored = obj(vec![("interaction_mode", text(" message "))]);
    assert_eq!(effective_interaction_mode(true, &stored), " message ");
    let blank = obj(vec![("interaction_mode", text("  "))]);
    assert_eq!(effective_interaction_mode(true, &blank), "terminal");
    assert_eq!(effective_interaction_mode(false, &blank), "message");
    assert_eq!(effective_interaction_mode(false, &JsonValue::Null), "message");
    assert_eq!(conversation_type_label(ConversationType::Direct), "direct");
    assert_eq!(conversation_type_label(ConversationType::Group), "group");
}

#[test]
fn host_and_account_names_are_trimmed_and_printable() {
    assert_eq!(validate_host_name("  Build box ").unwrap(), "Build box");
    assert_eq!(
        validation_message(validate_host_name("   ").unwrap_err()),
        "name must contain 1 to 80 printable characters"
    );
    assert!(validate_host_name(&"a".repeat(80)).is_ok());
    assert!(validate_host_name(&"a".repeat(81)).is_err());
    assert!(validate_host_name("bad\u{7f}name").is_err());
    assert_eq!(validate_account_name(" main ").unwrap(), "main");
    assert_eq!(
        validation_message(validate_account_name("a\tb").unwrap_err()),
        "account name must contain 1 to 80 printable characters"
    );
    assert_eq!(secret("signing-key"), "signing-key");
}

#[test]
fn account_identity_needs_a_sha256_fingerprint() {
    let digest = "aB".repeat(32);
    assert!(validate_account_identity(&digest, None).is_ok());
    assert!(validate_account_identity(&digest, Some("pro")).is_ok());
    assert_eq!(
        validation_message(validate_account_identity(&"g".repeat(64), None).unwrap_err()),
        "account_fingerprint must be a SHA-256 hex digest"
    );
    assert!(validate_account_identity(&"a".repeat(63), None).is_err());
    assert_eq!(
        validation_message(validate_account_identity(&digest, Some(&"p".repeat(81))).unwrap_err()),
        "subscription_type is invalid"
    );
}

#[test]
fn imported_agent_names_are_short_and_single_line() {
    let name = display_agent_name(
        "  Fix\nremote\tcontrol with a deliberately very long title that should never overflow the sidebar row because it is bounded  ",
        "Codex",
    );
    assert!(!name.contains('\n'));
    assert!(!name.contains('\t'));
    assert!(name.chars().count() <= 80);
}

#[test]
fn agent_names_collapse_whitespace_and_fall_back_to_the_harness() {
    assert_eq!(display_agent_name("  a \u{a0}  b  c ", "Codex"), "a b c");
    assert_eq!(display_agent_name("Fix\nremote", "Codex"), "Fixremote");
    assert_eq!(display_agent_name(" \n\t ", "Codex"), "Codex session");
    assert_eq!(display_agent_name(&"é".repeat(90), "Codex").chars().count(), 80);
    let c = agent_name_candidates("Fix it", "Codex", "0123456789");
    assert_eq!(c, vec!["Fix it", "Fix it \u{b7} Codex", "Fix it \u{b7} 012345"]);
    assert_eq!(unique_agent_name(&c, &[true, false, false]).unwrap(), "Fix it \u{b7} Codex");
    assert_eq!(unique_agent_name(&c, &[false, false, false]).unwrap(), "Fix it");
    match unique_agent_name(&c, &[true, true, true]) {
        Err(AppError::Conflict(m)) => {
            assert_eq!(m, "could not derive a unique Agent name for this session")
        }
        other => panic!("unexpected {:?}", other),
    }
}

#[test]
fn imported_sessions_use_terminal_drivers() {
    assert_eq!(import_driver(HarnessKind::Claude), "claude_terminal");
    assert_eq!(import_driver(HarnessKind::Codex), "codex_terminal");
    assert_eq!(import_driver(HarnessKind::Pi), "pi_terminal");
    assert_eq!(import_driver(HarnessKind::Grok), "grok_terminal");
    assert_eq!(import_driver(HarnessKind::OpenCode), "opencode_terminal");
}

#[test]
fn native_session_import_lock_keys_are_postgres_safe_and_unambiguous() {
    let key = native_session_import_lock_key(
        None,
        "/projects/example",
        "codex_exec",
        "session\0with-control-byte",
        None,
    );
    assert!(!key.contains('\0'));
    assert_ne!(
        native_session_import_lock_key(None, "/projects/a", "bc", "d", None),
        native_session_import_lock_key(None, "/projects/ab", "c", "d", None)
    );
    assert_ne!(
        native_session_import_lock_key(Some("host-a"), "/projects/a", "bc", "d", None),
        native_session_import_lock_key(Some("host-b"), "/projects/a", "bc", "d", None)
    );
}

#[test]
fn lock_keys_are_the_json_array_of_the_tuple() {
    let key = native_session_import_lock_key(
        Some("h\"1"),
        "/p\\q",
        "codex_exec",
        "s\u{1}\n",
        None,
    );
    let expected = serde_json::Value::Array(vec![
        serde_json::Value::String("h\"1".into()),
        serde_json::Value::String("/p\\q".into()),
        serde_json::Value::String("codex_exec".into()),
        serde_json::Value::String("s\u{1}\n".into()),
        serde_json::Value::Null,
    ])
    .to_string();
    assert_eq!(key, expected);
}

#[test]
fn remote_workspace_paths_must_be_absolute_and_normalized() {
    assert_eq!(validate_remote_workspace_path("  /srv/app ").unwrap(), "/srv/app");
    assert!(validate_remote_workspace_path("/srv/./app").is_ok());
    assert!(validate_remote_workspace_path("/srv/..app").is_ok());
    assert_eq!(
        validation_message(validate_remote_workspace_path("srv/app").unwrap_err()),
        "remote workspace path must be an absolute normalized path"
    );
    assert!(validate_remote_workspace_path("/srv/../etc").is_err());
    assert!(validate_remote_workspace_path("/srv/..").is_err());
    assert!(validate_remote_workspace_path("   ").is_err());
    assert!(validate_remote_workspace_path("/srv/a\u{1}b").is_err());
    assert!(validate_remote_workspace_path(&format!("/{}", "a".repeat(4095))).is_ok());
    assert!(validate_remote_workspace_path(&format!("/{}", "a".repeat(4096))).is_err());
}

fn command(last_error: Option<&str>) -> RuntimeStatusCommand {
    RuntimeStatusCommand {
        command_id: "c1".into(),
        message_id: "m1".into(),
        turn_id: "t1".into(),
        status: "running".into(),
        created_at: UtcInstant { secs: 10, nanos: 0 },
        updated_at: UtcInstant { secs: 20, nanos: 5 },
        lease_age_seconds: 3,
        attempt_count: 2,
        last_error: last_error.map(str::to_string),
    }
}

fn agent() -> AgentRef {
    AgentRef { id: "agent-1".into(), name: "Ada".into() }
}

#[test]
fn runtime_status_redacts_errors_and_defaults_to_idle() {
    let idle = runtime_status_view("conv-1", agent(), None);
    assert_eq!(idle.conversation_id, "conv-1");
    assert_eq!(idle.status, "idle");
    assert_eq!(idle.queued_count, 0);
    assert!(idle.active_command.is_none() && idle.last_error.is_none());
    let view = command_view(command(Some("failed with Bearer abc.def")));
    assert_eq!(view.lease_age_seconds, Some(3));
    assert_eq!(view.updated_at, UtcInstant { secs: 20, nanos: 5 });
    assert!(!view.last_error.unwrap().contains("abc.def"));
    let status = AgentRuntimeStatus {
        agent_id: "agent-1".into(),
        conversation_id: "conv-2".into(),
        status: "busy".into(),
        queued_count: 4,
        active_command: Some(command(Some("token=sk-123456789"))),
        last_error: None,
    };
    let shown = runtime_status_view("conv-1", agent(), Some(status));
    assert_eq!(shown.conversation_id, "conv-2");
    assert_eq!(shown.agent_name, "Ada");
    assert_eq!(shown.queued_count, 4);
    let error = shown.last_error.expect("falls back to the command error");
    assert!(!error.contains("sk-123456789"));
    assert_eq!(shown.active_command.unwrap().command_id, "c1");
}

#[test]
fn activity_cursors_round_trip_and_are_bounded() {
    let cursor = encode_activity_cursor(b"{\"id\":7}");
    assert_eq!(cursor, "eyJpZCI6N30");
    assert_eq!(activity_cursor_bytes(Some(&cursor)).unwrap(), Some(b"{\"id\":7}".to_vec()));
    assert_eq!(activity_cursor_bytes(None).unwrap(), None);
    assert_eq!(
        validation_message(activity_cursor_bytes(Some("not base64!")).unwrap_err()),
        "invalid activity cursor"
    );
    assert!(activity_cursor_bytes(Some(&"A".repeat(1025))).is_err());
    assert_eq!(page_limit(None), 100);
    assert_eq!(page_limit(Some(7)), 7);
    assert!(check_summary_query(None, None).is_ok());
    assert_eq!(
        validation_message(check_summary_query(Some("x"), None).unwrap_err()),
        "summary does not accept pagination parameters"
    );
    assert!(check_summary_query(None, Some(1)).is_err());
}

#[test]
fn strings_sort_as_rust_orders_them() {
    let words = vec!["beta", "Alpha", "alpha", "é", "z", "", "alp", "beta"];
    let mut expected: Vec<String> = words.iter().map(|s| s.to_string()).collect();
    expected.sort();
    let sorted = sort_texts(words.iter().map(|s| s.to_string()).collect());
    assert_eq!(sorted, expected);
    assert!(text_less("a", "b"));
    assert!(text_less("", "a"));
    assert!(!text_less("b", "b"));
    assert!(text_less("Z", "a"));
}

#[test]
fn conversation_label_prefers_the_name() {
    assert_eq!(conversation_label(Some("Team".into()), vec!["b".into(), "a".into()]), "Team");
    assert_eq!(
        conversation_label(Some("  ".into()), vec!["Cy".into(), "Ann".into(), "Bo".into()]),
        "Ann / Bo / Cy"
    );
    assert_eq!(conversation_label(None, vec![]), "");
    assert_eq!(conversation_label(None, vec!["solo".into()]), "solo");
}

#[test]
fn a_replaced_link_does_not_unregister_its_successor() {
    let mut links = LinkRegistry::new();
    assert_eq!(links.register("host-1", 1), None);
    assert_eq!(links.register("host-1", 2), Some(1));
    assert!(!links.unregister("host-1", 1));
    assert_eq!(links.get("host-1"), Some(2));
    assert_eq!(links.register("host-2", 3), None);
    assert!(links.unregister("host-1", 2));
    assert_eq!(links.get("host-1"), None);
    assert_eq!(links.get("host-2"), Some(3));
    match offline("Build box") {
        AppError::Conflict(m) => assert_eq!(m, "runtime host Build box is not connected"),
        other => panic!("unexpected {:?}", other),
    }
}

#[test]
fn link_hello_must_speak_the_protocol() {
    assert!(check_hello(true, "v2", "v2").is_none());
    let refused = check_hello(false, "v2", "v2").unwrap();
    assert_eq!((refused.code, refused.reason.as_str()), (1008, "the first link frame must be hello"));
    let refused = check_hello(true, "v1", "v2").unwrap();
    assert_eq!((refused.code, refused.reason.as_str()), (1008, "unsupported link protocol v1"));
    let refused = token_refusal();
    assert_eq!((refused.code, refused.reason.as_str()), (4401, "invalid runtime host token"));
}

#[test]
fn sync_sockets_only_accept_acknowledgements_of_sent_changes() {
    let mut s = SyncSession::new(5);
    assert_eq!(PAGE_SIZE, 200);
    assert_eq!(s.on_page(true, 9, true), DrainStep::Idle);
    assert_eq!(s.last_sent, 5);
    assert_eq!(s.on_page(false, 9, true), DrainStep::SendAndContinue);
    assert_eq!(s.on_page(false, 12, false), DrainStep::SendAndStop);
    assert_eq!(s.last_sent, 12);
    assert_eq!(s.on_client_frame(Some(12)), ClientStep::Acknowledge(12));
    assert_eq!(s.on_client_frame(Some(13)), ClientStep::RejectAckAndClose);
    assert_eq!(s.on_client_frame(None), ClientStep::RejectFrame);
    assert_eq!(on_ack_result(Some(12)), AckStep::Acked(12));
    assert_eq!(on_ack_result(None), AckStep::FailAndClose);
    assert_eq!(reject_frame_detail(), "invalid sync frame");
    assert_eq!(reject_ack_detail(), "cannot acknowledge an unsent cursor");
    assert_eq!(ack_failed_detail(), "sync acknowledgement failed");
}

#[test]
fn batch_deletion_takes_each_conversation_once() {
    let ids: Vec<String> = ["c", "a", "b", "a", "c"].iter().map(|s| s.to_string()).collect();
    assert_eq!(check_batch_conversations(ids).unwrap(), vec!["a", "b", "c"]);
    assert!(check_batch_conversations(vec![]).unwrap().is_empty());
    assert_eq!(
        validation_message(check_batch_conversations(vec!["a".into(), String::new()]).unwrap_err()),
        "conversation ids must not be empty"
    );
    let many: Vec<String> = (0..101).map(|i| format!("c{i}")).collect();
    assert_eq!(
        validation_message(check_batch_conversations(many).unwrap_err()),
        "at most 100 conversations may be deleted at once"
    );
    let hundred: Vec<String> = (0..100).map(|i| format!("c{i}")).collect();
    assert_eq!(check_batch_conversations(hundred).unwrap().len(), 100);
    assert!(check_conversation_authorization(3, 3).is_ok());
    match check_conversation_authorization(2, 3) {
        Err(AppError::Forbidden(m)) => assert_eq!(m, "not a member of every requested conversation"),
        other => panic!("unexpected {:?}", other),
    }
    let summary = batch_disable_summary(2, 1, 3, 5);
    assert_eq!(
        format!("{:?}", summary),
        format!(
            "{:?}",
            obj(vec![
                ("conversations_deleted", JsonValue::Number("3".into())),
                ("conversations_failed", JsonValue::Number("2".into())),
                ("disabled", JsonValue::Number("2".into())),
                ("failed", JsonValue::Number("1".into())),
            ])
        )
    );
    let over = batch_disable_summary(0, 0, 7, 5);
    assert_eq!(format!("{:?}", members(&over)[1].1), format!("{:?}", JsonValue::Number("0".into())));
}

fn sha256_hex(bytes: &[u8]) -> String {
    hex::encode(sha2::Sha256::digest(bytes))
}

#[test]
fn browser_identities_hash_their_inputs() {
    assert_eq!(device_id("w", "b", "r"), sha256_hex(b"w\0b\0r"));
    assert_ne!(device_id("w", "b", "r"), device_id("w", "br", ""));
    let b = binding(obj(vec![
        ("harness_account_id", text("acct")),
        ("model", text("m")),
        ("runtime_host_id", JsonValue::Null),
    ]));
    let expected_text = r#"{"account":"acct","agent":"agent-1","binary":null,"driver":"codex_terminal","host":null,"model":"m","profile":null,"workspace":"/workspace"}"#;
    assert_eq!(binding_fingerprint(&b), sha256_hex(expected_text.as_bytes()));
    let mac = {
        let mut mac = <hmac::Hmac<sha2::Sha256> as Mac>::new_from_slice(b"secret").unwrap();
        mac.update(b"choruz/browser-workflow/admission/v1\0");
        mac.update(b"{\"run\":1}");
        hex::encode(mac.finalize().into_bytes())
    };
    assert_eq!(request_hash("secret", b"{\"run\":1}"), mac);
}

#[test]
fn browser_runs_and_automation_follow_their_binding() {
    assert_eq!(format!("{:?}", run_result(Some(text("ok")))), format!("{:?}", obj(vec![("report", text("ok"))])));
    assert_eq!(
        format!("{:?}", run_result(None)),
        format!(
            "{:?}",
            obj(vec![(
                "error",
                text("Execution unavailable or interrupted; inspect any browser effects before starting a new run")
            )])
        )
    );
    assert!(run_is_finished(&obj(vec![("status", text("finished"))])));
    assert!(!run_is_finished(&obj(vec![("status", text("running"))])));
    assert!(check_automation_driver(true, "claude_terminal").is_ok());
    assert!(check_automation_driver(false, "pi_terminal").is_ok());
    assert_eq!(
        validation_message(check_automation_driver(true, "pi_terminal").unwrap_err()),
        "Automatic browser work requires a native reasoning Agent"
    );
    assert!(check_agent_access("a", "a", false, true).is_ok());
    for (agent, disabled, member) in [("b", false, true), ("a", true, true), ("a", false, false)] {
        match check_agent_access(agent, "a", disabled, member) {
            Err(AppError::Forbidden(m)) => {
                assert_eq!(m, "Only the bound Agent can execute this browser workflow")
            }
            other => panic!("unexpected {:?}", other),
        }
    }
    let approved = obj(vec![("binding_fingerprint", text("f1")), ("ready", JsonValue::Bool(true))]);
    let same = mark_stale_automation(approved, "f1");
    assert_eq!(format!("{:?}", members(&same)[1].1), "Bool(true)");
    let stale = mark_stale_automation(same, "f2");
    assert_eq!(format!("{:?}", members(&stale)[1].1), "Bool(false)");
    let fresh = mark_stale_automation(obj(vec![]), "f2");
    assert_eq!(format!("{:?}", fresh), format!("{:?}", obj(vec![("ready", JsonValue::Bool(false))])));
    assert_eq!(format!("{:?}", mark_stale_automation(JsonValue::Null, "f")), "Null");
}

fn forbidden_message(r: Result<(), AppError>) -> String {
    match r {
        Err(AppError::Forbidden(m)) => m,
        other => panic!("unexpected {:?}", other),
    }
}

#[test]
fn terminal_access_is_checked_in_order() {
    assert!(check_terminal_caller(true).is_ok());
    assert_eq!(
        forbidden_message(check_terminal_caller(false)),
        "terminal bindings are only available to human callers"
    );
    assert_eq!(forbidden_message(check_terminal_binding(false, true)), "runtime binding is not a terminal binding");
    assert_eq!(forbidden_message(check_terminal_binding(true, true)), "runtime binding is disabled");
    assert!(check_terminal_binding(true, false).is_ok());
    assert_eq!(
        forbidden_message(check_terminal_conversation(false, false, false)),
        "terminal bindings are only available for direct conversations"
    );
    assert_eq!(
        forbidden_message(check_terminal_conversation(true, false, true)),
        "caller is not a member of the terminal conversation"
    );
    assert_eq!(
        forbidden_message(check_terminal_conversation(true, true, false)),
        "agent is not a member of the terminal conversation"
    );
    assert!(check_terminal_conversation(true, true, true).is_ok());
    assert_eq!(forbidden_message(check_terminal_agent(true, true, true)), "agent principal is disabled");
    assert_eq!(forbidden_message(check_terminal_agent(false, true, false)), "cross-workspace access denied");
    assert!(check_terminal_agent(false, true, true).is_ok());
    assert_eq!(forbidden_message(check_workspace_active(Ok(true))), "terminal workspace is not active");
    assert!(check_workspace_active(Ok(false)).is_ok());
    assert!(check_workspace_active(Err(AppError::NotFound("c".into()))).is_ok());
    assert!(matches!(
        check_workspace_active(Err(AppError::Internal("db".into()))),
        Err(AppError::Internal(m)) if m == "db"
    ));
}

#[test]
fn terminals_launch_with_their_binding_configuration() {
    let bound = bind_terminal_context(obj(vec![("model", text(" m1 ")), ("agent_workspace_id", text("old"))]), "ws-a", "ws-c");
    assert_eq!(
        format!("{:?}", bound),
        format!(
            "{:?}",
            obj(vec![
                ("model", text(" m1 ")),
                ("agent_workspace_id", text("ws-a")),
                ("conversation_workspace_id", text("ws-c")),
            ])
        )
    );
    let b = binding(bound);
    let spec = terminal_spec(&b, 100, 30, Some("s1".into()), None);
    assert_eq!(spec.terminal_id, "binding-1");
    assert_eq!(spec.model.as_deref(), Some("m1"));
    assert!(spec.binary_path.is_none());
    assert_eq!((spec.cols, spec.rows), (100, 30));
    assert_eq!(effective_resume_session(&Some("home".into()), Some("c".into()), Some("b".into())), Some("c".to_string()));
    assert_eq!(effective_resume_session(&None, Some("c".into()), Some("b".into())), Some("b".to_string()));
    let response = ensure_terminal_response("binding-1", false, true);
    assert_eq!(format!("{:?}", members(&response)[2].1), "Bool(false)");
}

#[test]
fn terminal_input_pastes_multi_line_text() {
    assert_eq!(terminal_submission("ls"), b"ls".to_vec());
    assert_eq!(terminal_submission("a\nb"), b"\x1b[200~a\nb\x1b[201~".to_vec());
    let resize = obj(vec![
        ("type", text("resize")),
        ("cols", JsonValue::Number("65637".into())),
        ("rows", JsonValue::Number("-1".into())),
    ]);
    assert_eq!(classify_text_frame(Some(&resize)), TerminalFrame::Resize { cols: 101, rows: 40 });
    assert_eq!(classify_text_frame(Some(&obj(vec![("type", text("input"))]))), TerminalFrame::Input);
    assert_eq!(classify_text_frame(None), TerminalFrame::Input);
    let started = submission_started("héllo", "s1", None);
    assert_eq!(format!("{:?}", started[0].1), "Number(\"6\")");
    let finished = submission_finished(false, "s1", Some("t"));
    assert_eq!(format!("{:?}", finished[0].1), "Str(\"failed\")");
    let b = binding(obj(vec![("runtime_host_id", text("h1")), ("conversation_workspace_id", text("c1"))]));
    let meta = terminal_activity_metadata(vec![("attachment_id".to_string(), text("a1"))], &b);
    let keys: Vec<&str> = meta.iter().map(|(k, _)| k.as_str()).collect();
    assert_eq!(
        keys,
        vec!["attachment_id", "conversation_id", "agent_id", "company_id", "runtime_host_id", "harness", "harness_account_id"]
    );
    assert_eq!(format!("{:?}", meta[3].1), "Str(\"c1\")");
    assert_eq!(format!("{:?}", meta[6].1), "Null");
}

fn selection(id: &str, workspace: Option<&str>) -> ImportSessionSelection {
    ImportSessionSelection {
        harness: HarnessKind::Codex,
        harness_account_id: None,
        native_session_id: id.into(),
        workspace_path: workspace.map(str::to_string),
    }
}

fn summary(id: &str, workspace: &str, title: &str) -> NativeSessionSummary {
    NativeSessionSummary {
        harness: HarnessKind::Codex,
        native_session_id: id.into(),
        workspace_path: workspace.into(),
        harness_account_id: None,
        title: title.into(),
    }
}

#[test]
fn session_imports_check_selections_company_and_root() {
    assert_eq!(validation_message(check_scan_request(0, false, None).unwrap_err()), "select at least one harness");
    assert_eq!(
        validation_message(check_scan_request(1, true, None).unwrap_err()),
        "company_id is required when scanning another device"
    );
    assert!(check_scan_request(1, true, Some("c")).is_ok());
    assert_eq!(session_account_harness("claude_terminal"), HarnessKind::Claude);
    assert_eq!(session_account_harness("anything"), HarnessKind::Codex);
    assert_eq!(
        validation_message(check_import_selections(&[]).unwrap_err()),
        "select between 1 and 100 sessions"
    );
    assert!(check_import_selections(&[selection("s1", None), selection("s2", Some("/w/a"))]).is_ok());
    assert_eq!(
        validation_message(check_import_selections(&[selection("s1", Some("  "))]).unwrap_err()),
        "native session id and workspace path cannot be empty"
    );
    assert!(check_import_selections(&[selection(" ", None)]).is_err());
    let many: Vec<ImportSessionSelection> = (0..101).map(|i| selection(&format!("s{i}"), None)).collect();
    assert!(check_import_selections(&many).is_err());
    assert_eq!(forbidden_message(check_import_company(None)), "company is not accessible");
    assert_eq!(
        forbidden_message(check_import_company(Some(true))),
        "cannot import sessions into an inactive company"
    );
    assert!(check_import_company(Some(false)).is_ok());
    assert!(check_session_workspace("/w/a/b", "/w/a").is_ok());
    assert!(check_session_workspace("/w/a", "/w/a/").is_ok());
    assert_eq!(
        forbidden_message(check_session_workspace("/w/ab", "/w/a")),
        "session workspace is outside the selected scan root"
    );
    let found = [summary("s1", "/w", "one"), summary("s2", "/w", "two"), summary("s1", "/w", "again")];
    assert_eq!(find_discovered(&found, HarnessKind::Codex, "s1", "/w", None), Some(2));
    assert_eq!(find_discovered(&found, HarnessKind::Codex, "s2", "/w", None), Some(1));
    assert_eq!(find_discovered(&found, HarnessKind::Pi, "s2", "/w", None), None);
    assert_eq!(find_discovered(&found, HarnessKind::Codex, "s2", "/w", Some("acct")), None);
    match session_missing("Codex") {
        AppError::NotFound(m) => assert_eq!(m, "Codex session is no longer present in this workspace"),
        other => panic!("unexpected {:?}", other),
    }
}

#[test]
fn previous_imports_are_taken_over_only_when_idle() {
    let conflict = |r: Result<(), AppError>| match r {
        Err(AppError::Conflict(m)) => m,
        other => panic!("unexpected {:?}", other),
    };
    assert_eq!(
        conflict(check_previous_import(false, true, 0, false, false)),
        "this native session is already imported into another company"
    );
    assert_eq!(
        conflict(check_previous_import(true, false, 0, false, false)),
        "this native session is already imported into another company"
    );
    assert_eq!(
        conflict(check_previous_import(true, true, 1, false, false)),
        "the previous agent has queued or running work; wait for it to finish before importing"
    );
    assert!(check_previous_import(true, true, 0, true, false).is_err());
    assert!(check_previous_import(true, true, 0, false, true).is_err());
    assert!(check_previous_import(true, true, 0, false, false).is_ok());
}

#[test]
fn imported_bindings_record_their_origin() {
    let config = imported_binding_config(
        "Fix it", "open_code", "s1", "Fix it", "/w", "2026-01-01T00:00:00Z",
        "opencode_terminal", "b1", Some("acct"), Some("host-1"),
    );
    let keys: Vec<&str> = config.iter().map(|(k, _)| k.as_str()).collect();
    assert_eq!(keys.len(), 13);
    assert_eq!(keys[12], "runtime_host_id");
    assert_eq!(keys[11], "harness_account_profile_kind");
    let text = format!("{:?}", config[9].1);
    assert!(text.contains("\"open_code\""));
    let bare = imported_binding_config("A", "codex", "s", "t", "/w", "now", "codex_terminal", "b", None, None);
    assert_eq!(bare.len(), 10);
    let anchor = codex_import_anchor("s", "b", "c", "a", "co", "ws", "/w", "/home", "/home/s.jsonl", "now");
    assert_eq!(anchor.len(), 15);
    assert_eq!(format!("{:?}", anchor[6].1), "Str(\"codex_terminal\")");
    let full = with_codex_anchor(bare, anchor);
    assert_eq!(full.len(), 12);
    assert_eq!(full[10].0, "terminal_generation");
    let audit = import_audit_metadata("codex_terminal", None, "/w");
    assert_eq!(format!("{:?}", audit[1].1), "Null");
}

#[test]
fn binding_requests_name_their_host_and_account_properly() {
    assert_eq!(requested_runtime_host(None).unwrap(), None);
    assert_eq!(requested_runtime_host(Some(&obj(vec![]))).unwrap(), None);
    assert_eq!(
        requested_runtime_host(Some(&obj(vec![("runtime_host_id", text(" h1 "))]))).unwrap(),
        Some("h1".to_string())
    );
    assert_eq!(
        validation_message(requested_runtime_host(Some(&obj(vec![("runtime_host_id", text("  "))]))).unwrap_err()),
        "config_json.runtime_host_id must not be empty"
    );
    assert_eq!(
        validation_message(requested_runtime_host(Some(&obj(vec![("runtime_host_id", JsonValue::Null)]))).unwrap_err()),
        "config_json.runtime_host_id must be a string"
    );
    assert_eq!(
        validation_message(check_runtime_host_owned(false).unwrap_err()),
        "runtime host does not belong to the agent's company"
    );
    assert!(check_runtime_host_owned(true).is_ok());
    assert_eq!(requested_harness_account(Some(&obj(vec![("model", text("m"))]))).unwrap(), None);
    assert_eq!(
        validation_message(
            requested_harness_account(Some(&obj(vec![("harness_account_name", text("n"))]))).unwrap_err()
        ),
        "harness account metadata requires harness_account_id"
    );
    assert_eq!(
        requested_harness_account(Some(&obj(vec![("harness_account_id", text("a1")), ("model", text(" m "))])))
            .unwrap(),
        Some(("a1".to_string(), Some("m".to_string())))
    );
    assert_eq!(
        requested_harness_account(Some(&obj(vec![("harness_account_id", text("a1")), ("model", text(" "))])))
            .unwrap(),
        Some(("a1".to_string(), None))
    );
    assert_eq!(
        validation_message(
            requested_harness_account(Some(&obj(vec![("harness_account_id", JsonValue::Bool(true))]))).unwrap_err()
        ),
        "config_json.harness_account_id must be a string"
    );
    assert!(check_harness_account_found(true).is_ok());
    assert!(check_harness_account_found(false).is_err());
    assert_eq!(forbidden_message(check_binding_creator(false, true)), "only humans can create runtime bindings");
    assert_eq!(
        forbidden_message(check_binding_creator(true, false)),
        "must be a conversation member to create a runtime binding"
    );
    assert_eq!(forbidden_message(check_runtime_target(true, false, true, true)), "cross-workspace access denied");
    assert_eq!(
        validation_message(check_runtime_target(true, true, false, true).unwrap_err()),
        "runtime bindings can only target agents"
    );
    assert_eq!(
        validation_message(check_runtime_target(true, true, true, false).unwrap_err()),
        "agent must be a conversation member before binding"
    );
    assert!(check_runtime_target(true, true, true, true).is_ok());
    let normalized = normalized_binding_config(
        Some(obj(vec![("runtime_host_id", text(" h1 ")), ("model", text("m"))])),
        Some("h1".into()),
        Some(("a1".into(), "Main".into(), "isolated".into())),
    )
    .unwrap();
    assert_eq!(
        format!("{:?}", normalized),
        format!(
            "{:?}",
            obj(vec![
                ("runtime_host_id", text("h1")),
                ("model", text("m")),
                ("harness_account_id", text("a1")),
                ("harness_account_name", text("Main")),
                ("harness_account_profile_kind", text("isolated")),
            ])
        )
    );
    assert!(normalized_binding_config(None, None, None).is_none());
}

fn refusal_text(r: Result<impl std::fmt::Debug, AppError>) -> String {
    match r {
        Err(AppError::Validation(m)) => m,
        other => panic!("expected a validation error, got {:?}", other),
    }
}

#[test]
fn account_model_list_must_be_a_short_array() {
    assert_eq!(
        refusal_text(account_model_ids(&obj(vec![]))),
        "models must be an array"
    );
    let many: Vec<JsonValue> = (0..201).map(|i| obj(vec![("id", text(&format!("m{i}")))])).collect();
    assert_eq!(
        refusal_text(account_model_ids(&JsonValue::Array(many))),
        "models must contain at most 200 entries"
    );
    let enough: Vec<JsonValue> = (0..200).map(|i| obj(vec![("id", text(&format!("m{i}")))])).collect();
    let (ids, missing) = account_model_ids(&JsonValue::Array(enough)).unwrap();
    assert_eq!(ids.len(), 200);
    assert_eq!(ids[199], "m199");
    assert!(!missing);
}

#[test]
fn account_model_ids_stop_at_the_first_entry_without_an_id() {
    let models = JsonValue::Array(vec![
        obj(vec![("name", text("x")), ("id", text("gpt-5"))]),
        obj(vec![("id", text("o3"))]),
        obj(vec![("id", JsonValue::Bool(true))]),
        obj(vec![("id", text("later"))]),
    ]);
    let (ids, missing) = account_model_ids(&models).unwrap();
    assert_eq!(ids, vec!["gpt-5".to_string(), "o3".to_string()]);
    assert!(missing);
    let (ids, missing) = account_model_ids(&JsonValue::Array(vec![text("bare")])).unwrap();
    assert!(ids.is_empty());
    assert!(missing);
    let (ids, missing) = account_model_ids(&JsonValue::Array(vec![])).unwrap();
    assert!(ids.is_empty());
    assert!(!missing);
}

#[test]
fn quota_windows_must_be_an_array_of_at_most_100() {
    assert_eq!(
        refusal_text(quota_windows(&obj(vec![("windows", obj(vec![]))]))),
        "usage must contain exact quota windows"
    );
    assert_eq!(
        refusal_text(quota_windows(&JsonValue::Array(vec![]))),
        "usage must contain exact quota windows"
    );
    let many = JsonValue::Array((0..101).map(|_| obj(vec![])).collect());
    assert_eq!(
        refusal_text(quota_windows(&obj(vec![("windows", many)]))),
        "usage must contain at most 100 exact quota windows"
    );
    let usage = obj(vec![("plan", text("pro")), ("windows", JsonValue::Array(vec![obj(vec![])]))]);
    assert_eq!(quota_windows(&usage).unwrap().len(), 1);
}

#[test]
fn probe_snapshots_need_a_model_and_a_window() {
    let models = JsonValue::Array(vec![obj(vec![("id", text("o3"))])]);
    let usage = obj(vec![("windows", JsonValue::Array(vec![obj(vec![])]))]);
    assert!(check_probe_lists(&models, &usage).is_ok());
    assert_eq!(
        refusal_text(check_probe_lists(&JsonValue::Array(vec![]), &usage)),
        "models must contain between 1 and 200 entries"
    );
    assert_eq!(
        refusal_text(check_probe_lists(&JsonValue::Null, &usage)),
        "models must contain between 1 and 200 entries"
    );
    assert_eq!(
        refusal_text(check_probe_lists(&models, &obj(vec![("windows", JsonValue::Array(vec![]))]))),
        "usage must contain between 1 and 100 exact quota windows"
    );
    assert_eq!(
        refusal_text(check_probe_lists(&models, &obj(vec![]))),
        "usage must contain between 1 and 100 exact quota windows"
    );
}

fn previous_import(company: &str) -> PreviousImport {
    PreviousImport {
        company_id: company.into(),
        agent_principal_id: "agent-1".into(),
        conversation_id: "conv-1".into(),
        binding_id: "binding-1".into(),
        agent_name: "Codex Fix login".into(),
    }
}

#[test]
fn reimporting_into_the_same_company_returns_the_earlier_import() {
    let session = summary("s-1", "/work", "Fix login");
    match plan_prior_import("company-1", &session, Some(previous_import("company-1"))) {
        PriorImportPlan::Reuse(imported) => {
            assert_eq!(imported.harness, HarnessKind::Codex);
            assert_eq!(imported.native_session_id, "s-1");
            assert_eq!(imported.agent_principal_id, "agent-1");
            assert_eq!(imported.conversation_id, "conv-1");
            assert_eq!(imported.binding_id, "binding-1");
            assert_eq!(imported.agent_name, "Codex Fix login");
            assert!(imported.already_imported);
        }
        other => panic!("expected the earlier import, got {:?}", other),
    }
}

#[test]
fn an_import_held_by_another_company_is_taken_over_and_a_new_one_starts_fresh() {
    let session = summary("s-1", "/work", "Fix login");
    match plan_prior_import("company-2", &session, Some(previous_import("company-1"))) {
        PriorImportPlan::TakeOver(p) => {
            assert_eq!(p.company_id, "company-1");
            assert_eq!(p.binding_id, "binding-1");
        }
        other => panic!("expected a take-over, got {:?}", other),
    }
    assert!(matches!(plan_prior_import("company-2", &session, None), PriorImportPlan::Fresh));
}

fn forbidden(r: Result<(), AppError>) -> String {
    match r {
        Err(AppError::Forbidden(m)) => m,
        other => panic!("expected a refusal, got {:?}", other),
    }
}

fn conflict(r: Result<(), AppError>) -> String {
    match r {
        Err(AppError::Conflict(m)) => m,
        other => panic!("expected a conflict, got {:?}", other),
    }
}

#[test]
fn automatic_browser_runs_are_admitted_only_within_scope() {
    assert!(check_run_conversation(true, true, true).is_ok());
    assert_eq!(forbidden(check_run_conversation(true, false, true)), "Browser task conversation is not accessible");
    let policy = obj(vec![("binding_fingerprint", text("fp")), ("ready", JsonValue::Bool(true))]);
    assert!(check_automation_policy(&policy, "fp").is_ok());
    assert_eq!(
        forbidden(check_automation_policy(&policy, "other")),
        "Enable browser automation for this device and account first"
    );
    let not_ready = obj(vec![("binding_fingerprint", text("fp")), ("ready", text("true"))]);
    assert!(check_automation_policy(&not_ready, "fp").is_err());
    let allowed = vec!["https://a.example".to_string(), "https://b.example".to_string()];
    assert!(check_browser_scope("Book a room", &["https://b.example".to_string()], &allowed).is_ok());
    let outside = "Task or workflow is outside the configured browser scope";
    assert_eq!(forbidden(check_browser_scope("  ", &[], &allowed)), outside);
    assert_eq!(forbidden(check_browser_scope(&"x".repeat(16001), &[], &allowed)), outside);
    assert!(check_browser_scope(&"é".repeat(8000), &[], &allowed).is_ok());
    assert_eq!(forbidden(check_browser_scope(&"é".repeat(8001), &[], &allowed)), outside);
    assert_eq!(
        forbidden(check_browser_scope("Book", &["https://c.example".to_string()], &allowed)),
        outside
    );
}

#[test]
fn the_scope_match_must_execute_with_the_tested_model_on_the_same_account() {
    assert!(check_scope_match(Some("execute"), "gpt-5", "gpt-5").is_ok());
    let refused = "Task did not match the configured browser scope";
    assert_eq!(conflict(check_scope_match(Some("abstain"), "gpt-5", "gpt-5")), refused);
    assert_eq!(conflict(check_scope_match(None, "gpt-5", "gpt-5")), refused);
    assert_eq!(conflict(check_scope_match(Some("execute"), "gpt-4", "gpt-5")), refused);
    assert!(check_account_unchanged("fp", "fp").is_ok());
    assert_eq!(
        conflict(check_account_unchanged("fp", "fp2")),
        "Execution account changed during matching"
    );
}

#[test]
fn importing_a_session_twice_into_one_company_answers_the_first_import() {
    let session = summary("s-1", "/work", "Fix login");
    let (state, action) = import_step(
        "company-1",
        &session,
        ImportState::AwaitPrevious,
        ImportEvent::Previous(Some(previous_import("company-1"))),
    );
    assert!(matches!(state, ImportState::Done));
    match action {
        ImportAction::Answer(s) => {
            assert_eq!(s.binding_id, "binding-1");
            assert!(s.already_imported);
        }
        other => panic!("expected the earlier import, got {:?}", other),
    }
    let (state, action) = import_step("company-1", &session, ImportState::AwaitPrevious, ImportEvent::Previous(None));
    assert!(matches!(state, ImportState::Done));
    assert!(matches!(action, ImportAction::ImportFresh));
}

#[test]
fn a_session_of_another_company_is_retired_before_it_is_imported_again() {
    let session = summary("s-1", "/work", "Fix login");
    let (state, action) = import_step(
        "company-2",
        &session,
        ImportState::AwaitPrevious,
        ImportEvent::Previous(Some(previous_import("company-1"))),
    );
    assert!(matches!(&action, ImportAction::CheckTakeOver { company_id, .. } if company_id == "company-1"));
    let facts = |owner: bool, deleted: bool, pending: usize| ImportEvent::TakeOverFacts {
        owner_is_operator: owner,
        company_deleted: deleted,
        pending_commands: pending,
        binding_running: false,
        turn_in_flight: false,
    };
    let (_, refused) = import_step("company-2", &session, ImportState::AwaitTakeOverFacts(previous_import("company-1")), facts(true, false, 0));
    assert!(matches!(refused, ImportAction::Fail(AppError::Conflict(m)) if m == "this native session is already imported into another company"));
    let (_, busy) = import_step("company-2", &session, ImportState::AwaitTakeOverFacts(previous_import("company-1")), facts(true, true, 2));
    assert!(matches!(busy, ImportAction::Fail(AppError::Conflict(m)) if m.starts_with("the previous agent has queued")));
    let (state, retire) = import_step("company-2", &session, state, facts(true, true, 0));
    assert!(matches!(&retire, ImportAction::Retire { binding_id, .. } if binding_id == "binding-1"));
    let (state, fresh) = import_step("company-2", &session, state, ImportEvent::Retired);
    assert!(matches!(state, ImportState::Done));
    assert!(matches!(fresh, ImportAction::ImportFresh));
}
