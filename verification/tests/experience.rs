use choruz_api_gateway::experience::{
    applied_before_failure, call_finished, call_started, check_metadata, check_release_message,
    completion_summary, escalation_diagnostics, failure,
    historical_applied_before_failure, input_summary, json_equal, json_to_string,
    repeated_after_prompt, Cursor, HistoricalRecord,
};
use choruz_api_gateway::decisions::{
    check_execution_result, check_program_builder, check_program_input,
    check_transmission_permission, execution_outcome, tested_model, training_examples, CaseSource,
    EvaluationCase, build_status, generation_report, GenerationOutcome, ProgramTrial, TrialAction,
    TrialEvent, TrialPhase,
};
use choruz_api_gateway::evaluation::{
    analyst_fingerprint, check_analyst, check_context, check_contexts_after_review,
    cites_only_seed_evidence, evaluation_error_code, evaluation_output, finish_report, fingerprint,
    next_pair, plan_evaluation, seed_reference, set_member, team_revision, EvaluationPlan,
    SearchStep, TerminalIdentity,
};
use choruz_api_gateway::experience::{observed_metadata, observed_model};
use sha2::Digest;
use choruz_api_gateway::redaction::AppError;
use choruz_api_gateway::telemetry::JsonValue;

fn from_serde(v: &serde_json::Value) -> JsonValue {
    match v {
        serde_json::Value::Null => JsonValue::Null,
        serde_json::Value::Bool(b) => JsonValue::Bool(*b),
        serde_json::Value::Number(n) => JsonValue::Number(n.to_string()),
        serde_json::Value::String(s) => JsonValue::Str(s.clone()),
        serde_json::Value::Array(items) => JsonValue::Array(items.iter().map(from_serde).collect()),
        serde_json::Value::Object(map) => {
            JsonValue::Object(map.iter().map(|(k, v)| (k.clone(), from_serde(v))).collect())
        }
    }
}

fn parse(text: &str) -> serde_json::Value {
    serde_json::from_str(text).expect("test JSON")
}

fn j(text: &str) -> JsonValue {
    from_serde(&parse(text))
}

fn at<'a>(v: &'a JsonValue, key: &str) -> Option<&'a JsonValue> {
    match v {
        JsonValue::Object(m) => m.iter().find(|(k, _)| k == key).map(|(_, v)| v),
        _ => None,
    }
}

fn str_at(v: &JsonValue, key: &str) -> Option<String> {
    match at(v, key) {
        Some(JsonValue::Str(s)) => Some(s.clone()),
        _ => None,
    }
}

#[test]
fn failure_diagnostics_do_not_copy_unstructured_device_errors() {
    for error in [
        AppError::Internal("private source sentence without a secret marker".into()),
        AppError::Validation("private source sentence without a secret marker".into()),
    ] {
        let details = failure(&error);
        assert_eq!(str_at(&details, "outcome").as_deref(), Some("failed"));
        assert!(str_at(&details, "error_category").is_some());
        assert!(at(&details, "error").is_none());
        assert!(!json_to_string(&details).contains("private source"));
    }
}

#[test]
fn failure_categories_follow_the_error_kind() {
    let cases = [
        (AppError::Validation("x".into()), "validation"),
        (AppError::Conflict("x".into()), "conflict"),
        (AppError::Unauthorized("x".into()), "unauthorized"),
        (AppError::Forbidden("x".into()), "forbidden"),
        (AppError::NotFound("x".into()), "not_found"),
        (AppError::Internal("x".into()), "internal"),
        (AppError::RateLimited { retry_after_ms: 5 }, "internal"),
    ];
    for (error, category) in cases {
        assert_eq!(
            json_to_string(&failure(&error)),
            format!("{{\"error_category\":\"{category}\",\"outcome\":\"failed\"}}")
        );
    }
}

#[test]
fn summaries_record_size_and_digest_only() {
    let summary = json_to_string(&input_summary("abc"));
    assert_eq!(
        summary,
        "{\"input_bytes\":3,\"input_digest\":\"ba7816bf8f01cfea414140de5dae2223b00361a396177a9cb410ff61f20015ad\"}"
    );
    let done = json_to_string(&completion_summary(b""));
    assert_eq!(
        done,
        "{\"outcome\":\"completed\",\"output_bytes\":0,\"output_digest\":\"e3b0c44298fc1c149afbf4c8996fb92427ae41e4649b934ca495991b7852b855\"}"
    );
}

#[test]
fn json_text_matches_serde_json() {
    for text in [
        r#"{"b":[1,2.5,-3,true,null],"a":{"q":"x\"y\\z\n\u0001"},"c":""}"#,
        r#"[]"#,
        r#"{}"#,
        r#""é""#,
    ] {
        let v = parse(text);
        assert_eq!(json_to_string(&from_serde(&v)), v.to_string());
    }
    assert!(json_equal(&j(r#"{"a":[1,{"b":null}]}"#), &j(r#"{"a":[1,{"b":null}]}"#)));
    assert!(!json_equal(&j(r#"{"a":[1,{"b":null}]}"#), &j(r#"{"a":[1,{"b":false}]}"#)));
    assert!(!json_equal(&j("1"), &j("1.0")));
}

fn marker() -> HistoricalRecord {
    HistoricalRecord {
        reference: "owned:9".into(),
        session: "owned".into(),
        offset: 9,
        record: j(r#"{"payload":{"role":"user","content":"[choruz-experience revision=p1]"}}"#),
    }
}

fn start() -> Cursor {
    Cursor {
        session: "owned".into(),
        offset: 10,
    }
}

#[test]
fn historical_marker_requires_same_source_and_new_ordered_evidence() {
    let records = vec![j(r#"{"ref":"owned:10","record":{"type":"assistant"}}"#)];
    let check = |marker: &HistoricalRecord, start: Option<&Cursor>, evidence: &[String]| {
        historical_applied_before_failure(
            &records,
            start,
            std::slice::from_ref(marker),
            "owned:9",
            "p1",
            evidence,
        )
    };
    let evidence: Vec<String> = vec!["owned:10".into()];
    assert!(!applied_before_failure(&records, "owned:9", "p1", &evidence));
    assert!(check(&marker(), Some(&start()), &evidence));
    assert!(!check(&marker(), None, &evidence));
    assert!(!historical_applied_before_failure(
        &records,
        Some(&start()),
        &[],
        "owned:9",
        "p1",
        &evidence
    ));
    for reference in ["other:10", "message:feedback", "owned:010", "owned:8"] {
        let only = vec![JsonValue::Object(vec![(
            "ref".to_string(),
            JsonValue::Str(reference.to_string()),
        )])];
        assert!(!historical_applied_before_failure(
            &only,
            Some(&start()),
            std::slice::from_ref(&marker()),
            "owned:9",
            "p1",
            &[reference.to_string()]
        ));
    }
    assert!(!check(&marker(), Some(&start()), &["owned:8".into()]));
    assert!(!check(&marker(), Some(&start()), &["other:10".into()]));
    let changed = [
        HistoricalRecord { session: "other".into(), ..marker() },
        HistoricalRecord { reference: "owned:09".into(), ..marker() },
        HistoricalRecord { offset: 10, ..marker() },
        HistoricalRecord {
            record: j(r#"{"payload":{"role":"assistant","content":"[choruz-experience revision=p1]"}}"#),
            ..marker()
        },
        HistoricalRecord {
            record: j(r#"{"type":"user","message":{"content":"[choruz-experience revision=p2]"}}"#),
            ..marker()
        },
    ];
    for changed in changed.iter() {
        assert!(!check(changed, Some(&start()), &evidence));
    }
    let typed = HistoricalRecord {
        record: j(r#"{"type":"user","message":{"content":"[choruz-experience revision=p1]"}}"#),
        ..marker()
    };
    assert!(check(&typed, Some(&start()), &evidence));
    assert!(!check(&marker(), Some(&Cursor { offset: 9, ..start() }), &evidence));
    assert!(!check(&marker(), Some(&Cursor { offset: 11, ..start() }), &evidence));
}

#[test]
fn escalation_requires_a_distinct_episode_after_the_prompt_intervention() {
    let history = j(r#"[{"key":"skipped-check","prompt_revision_id":"p1","episodes":[{"episode_ref":"task1"}]}]"#);
    let observation = parse(r#"{"key":"skipped-check","episode_ref":"task2","applied_revision_id":"p1"}"#);
    assert_eq!(
        repeated_after_prompt(&history, &[from_serde(&observation)]),
        vec!["skipped-check".to_string()]
    );
    let mismatch = j(r#"{"key":"skipped-check","episode_ref":"task2","applied_revision_id":"p2"}"#);
    let diagnostics = escalation_diagnostics(&history, &[mismatch]);
    assert_eq!(str_at(&diagnostics[0], "reason").as_deref(), Some("intervention_revision_mismatch"));
    assert_eq!(str_at(&diagnostics[0], "intervention_revision_id").as_deref(), Some("p1"));
    assert_eq!(str_at(&diagnostics[0], "applied_revision_id").as_deref(), Some("p2"));
    for (field, value) in [
        ("episode_ref", "\"task1\""),
        ("applied_revision_id", "null"),
        ("applied_revision_id", "\"unrelated\""),
        ("key", "\"other-problem\""),
    ] {
        let mut changed = observation.clone();
        changed[field] = parse(value);
        assert!(repeated_after_prompt(&history, &[from_serde(&changed)]).is_empty());
    }
    let records = vec![
        j(r#"{"ref":"use","record":{"type":"user","message":{"content":"[choruz-experience revision=p1]"}}}"#),
        j(r#"{"ref":"failure","record":{"type":"assistant"}}"#),
    ];
    assert!(applied_before_failure(&records, "use", "p1", &["failure".into()]));
    assert!(!applied_before_failure(&records, "use", "p2", &["failure".into()]));
    let reversed = vec![
        j(r#"{"ref":"failure","record":{"type":"assistant"}}"#),
        j(r#"{"ref":"use","record":{"type":"user","message":{"content":"[choruz-experience revision=p1]"}}}"#),
    ];
    assert!(!applied_before_failure(&reversed, "use", "p1", &["failure".into()]));
    let quoted = vec![
        j(r#"{"ref":"use","record":{"type":"assistant","message":{"content":"[choruz-experience revision=p1]"}}}"#),
        j(r#"{"ref":"failure","record":{"type":"assistant"}}"#),
    ];
    assert!(!applied_before_failure(&quoted, "use", "p1", &["failure".into()]));
}

#[test]
fn escalation_reasons_cover_every_case() {
    let history = j(r#"[{"key":"a","prompt_revision_id":"p1","episodes":[]},{"key":"b","prompt_revision_id":"p1"}]"#);
    let reasons: Vec<Option<String>> = escalation_diagnostics(
        &history,
        &[
            j(r#"{"key":"a","episode_ref":"t","applied_revision_id":"p1"}"#),
            j(r#"{"key":"b","episode_ref":"t","applied_revision_id":"p1"}"#),
            j(r#"{"key":"c","episode_ref":"t","applied_revision_id":"p1"}"#),
            j(r#"{"key":"a","episode_ref":"t","applied_revision_id":7}"#),
        ],
    )
    .iter()
    .map(|d| str_at(d, "reason"))
    .collect();
    assert_eq!(
        reasons,
        vec![
            Some("no_prior_episode".to_string()),
            Some("no_prior_episode".to_string()),
            Some("no_prior_problem".to_string()),
            Some("no_verified_applied_revision".to_string()),
        ]
    );
    let d = escalation_diagnostics(&history, &[j(r#"{"key":"c"}"#)]);
    assert_eq!(
        json_to_string(&d[0]),
        "{\"applied_revision_id\":null,\"episode_ref\":null,\"intervention_revision_id\":null,\"problem_key\":\"c\",\"reason\":\"no_verified_applied_revision\"}"
    );
}

#[test]
fn builder_receives_only_referenced_training_actions_not_heldout_or_shared_records() {
    let cases: Vec<EvaluationCase> = [true, false]
        .into_iter()
        .enumerate()
        .map(|(index, train)| EvaluationCase {
            train,
            source: Some(CaseSource {
                episode_ref: format!("task-{index}"),
                evidence: vec![format!("action-{index}"), "shared".into()],
            }),
            input: format!("task {index}"),
            check: j(&format!(r#"{{"type":"exact","expected":"answer {index}"}}"#)),
        })
        .collect();
    let examples = training_examples(
        &cases,
        &[
            j(r#"{"ref":"action-0","record":{"tool":"click Save"}}"#),
            j(r#"{"ref":"action-1","record":"heldout-secret"}"#),
            j(r#"{"ref":"shared","record":"cross-split-secret"}"#),
            j(r#"{"ref":"unrelated","record":"unrelated-secret"}"#),
        ],
    );
    let expected = parse(
        r#"[{"input":"task 0","check":{"type":"exact","expected":"answer 0"},
            "action_evidence":[{"ref":"action-0","record":{"tool":"click Save"}}]}]"#,
    );
    assert_eq!(json_to_string(&examples), expected.to_string());
}

fn message(e: AppError) -> String {
    match e {
        AppError::Validation(m) | AppError::Conflict(m) | AppError::Forbidden(m) => m,
        other => panic!("unexpected {:?}", other),
    }
}

#[test]
fn decision_programs_check_their_inputs_and_results() {
    assert!(check_program_input("run it").is_ok());
    assert_eq!(
        message(check_program_input("  \n").unwrap_err()),
        "Program input must contain 1 to 16000 bytes"
    );
    assert!(check_program_input(&"x".repeat(16000)).is_ok());
    assert!(check_program_input(&"x".repeat(16001)).is_err());
    assert_eq!(tested_model(&j(r#"{"resolved_model":"m-1"}"#)).unwrap(), "m-1");
    assert_eq!(
        message(tested_model(&j(r#"{"resolved_model":7}"#)).unwrap_err()),
        "Program has no tested model identity"
    );
    assert!(check_execution_result("m", "m", "r1", "r1").is_ok());
    assert_eq!(
        message(check_execution_result("m2", "m", "r1", "r1").unwrap_err()),
        "Provider model changed; revalidate the program before use"
    );
    assert_eq!(
        message(check_execution_result("m", "m", "r2", "r1").unwrap_err()),
        "Selected program changed during execution"
    );
    assert!(check_transmission_permission(true).is_ok());
    assert_eq!(
        message(check_transmission_permission(false).unwrap_err()),
        "Decision inference requires permission to send the supplied state to TypeSafe"
    );
    assert!(check_program_builder("codex_terminal").is_ok());
    assert_eq!(
        message(check_program_builder("pi_terminal").unwrap_err()),
        "Select a Codex program builder"
    );
    assert_eq!(
        json_to_string(&execution_outcome(true, "m-1", j(r#"{"tokens":3}"#))),
        r#"{"abstained":true,"model":"m-1","outcome":"completed","usage":{"tokens":3}}"#
    );
}

#[test]
fn observed_metadata_needs_one_agreed_value() {
    let run = |model: &str| j(&format!(r#"{{"record":{{"_execution":{{"model":"{model}"}}}}}}"#));
    assert_eq!(observed_model(&[run("a"), run("a"), j("{}")]), Some("a".to_string()));
    assert_eq!(observed_model(&[run("a"), run("b")]), None);
    assert_eq!(observed_model(&[run("<synthetic>"), run("")]), None);
    assert_eq!(observed_model(&[]), None);
    assert_eq!(observed_metadata(&[run("<synthetic>"), run("c")], "model"), Some("c".to_string()));
}

fn sha256_hex(bytes: &[u8]) -> String {
    hex::encode(sha2::Sha256::digest(bytes))
}

fn terminal(model: Option<&str>) -> TerminalIdentity {
    TerminalIdentity {
        driver_type: "codex_terminal".into(),
        model: model.map(str::to_string),
        binary_path: None,
        workspace_path: "/w".into(),
        harness_account: j(r#"{"harness_account_id":"a1","runtime_host_id":null}"#),
    }
}

#[test]
fn evaluation_contexts_are_fingerprinted_by_their_identity() {
    let expected = sha256_hex(
        br#"{"account":"a1","binary":null,"driver":"codex_terminal","host":null,"model":"m","profile":null,"workspace":"/w"}"#,
    );
    assert_eq!(fingerprint(&terminal(Some("m"))).unwrap(), expected);
    for model in [None, Some("  ")] {
        match fingerprint(&terminal(model)) {
            Err(AppError::Validation(m)) => {
                assert_eq!(m, "Select an explicit model before evaluating guidance")
            }
            other => panic!("unexpected {:?}", other),
        }
    }
    let analyst = analyst_fingerprint(&terminal(Some("m")), "P", "R", "A").unwrap();
    assert_eq!(analyst, sha256_hex(format!("{expected}:P:R:A").as_bytes()));
    assert_ne!(analyst, analyst_fingerprint(&terminal(Some("m")), "P", "R", "B").unwrap());
}

#[test]
fn finished_cases_report_ordinal_duration_and_error() {
    assert_eq!(evaluation_error_code(&AppError::NotFound("x".into())), "access_revoked");
    assert_eq!(evaluation_error_code(&AppError::Unauthorized("x".into())), "access_revoked");
    assert_eq!(evaluation_error_code(&AppError::Conflict("x".into())), "context_changed");
    assert_eq!(evaluation_error_code(&AppError::Internal("x".into())), "execution_failed");
    let failed = finish_report(None, 3, 40, Some(&AppError::Conflict("x".into())));
    assert_eq!(
        json_to_string(&failed),
        r#"{"duration_ms":40,"error_code":"context_changed","ordinal":3,"status":"failed"}"#
    );
    let own = match j(r#"{"score":1,"ordinal":0}"#) {
        JsonValue::Object(f) => f,
        _ => unreachable!(),
    };
    let ok = finish_report(Some(own), 7, 5, None);
    assert_eq!(json_to_string(&ok), r#"{"duration_ms":5,"ordinal":7,"score":1}"#);
    let mut f = vec![];
    set_member(&mut f, "a", JsonValue::Bool(true));
    set_member(&mut f, "a", JsonValue::Null);
    assert_eq!(json_to_string(&JsonValue::Object(f)), r#"{"a":null}"#);
}

#[test]
fn cases_run_only_in_the_context_they_were_queued_for() {
    assert!(check_context("f1", "f1").is_ok());
    match check_context("f1", "f2") {
        Err(AppError::Conflict(m)) => assert_eq!(m, "Evaluation context changed"),
        other => panic!("unexpected {:?}", other),
    }
    match check_analyst(None, Some("a"), Some("a")) {
        Err(AppError::Validation(m)) => assert_eq!(m, "Optimization analyst is missing"),
        other => panic!("unexpected {:?}", other),
    }
    assert!(check_analyst(Some("b"), Some("a"), Some("a")).is_ok());
    assert!(check_analyst(Some("b"), None, None).is_ok());
    match check_analyst(Some("b"), Some("a"), None) {
        Err(AppError::Conflict(m)) => assert_eq!(m, "Optimization analyst context changed"),
        other => panic!("unexpected {:?}", other),
    }
    assert!(check_contexts_after_review(false, false).is_ok());
    for (t, a) in [(true, false), (false, true), (true, true)] {
        match check_contexts_after_review(t, a) {
            Err(AppError::Conflict(m)) => assert_eq!(m, "Execution context changed during review"),
            other => panic!("unexpected {:?}", other),
        }
    }
}

#[test]
fn reviews_cite_only_the_seed_and_its_evidence() {
    let seed = seed_reference("r9");
    assert_eq!(seed, "reviewed-seed:r9");
    let evidence = j(r#"{"references":["run:1",2,"run:3"]}"#);
    assert!(cites_only_seed_evidence(&[], &seed, &evidence));
    assert!(cites_only_seed_evidence(
        &[seed.clone(), "run:3".to_string(), "run:1".to_string()],
        &seed,
        &evidence
    ));
    assert!(!cites_only_seed_evidence(&["run:2".to_string()], &seed, &evidence));
    assert!(!cites_only_seed_evidence(&["run:1".to_string()], &seed, &j(r#"{"references":"run:1"}"#)));
    assert!(!cites_only_seed_evidence(&["run:1".to_string()], &seed, &j("{}")));
}

#[test]
fn candidates_alternate_case_by_case() {
    assert_eq!(next_pair(0, 2), (0, 0));
    assert_eq!(next_pair(1, 2), (1, 0));
    assert_eq!(next_pair(2, 2), (0, 1));
    assert_eq!(next_pair(7, 3), (1, 2));
    assert_eq!(team_revision(Some("rev-4")), "rev-4");
    assert_eq!(team_revision(None), "baseline");
}

#[test]
fn evaluation_output_is_a_bounded_string() {
    assert_eq!(evaluation_output(&JsonValue::Str("ok".into())).unwrap(), "ok");
    let exact = "é".repeat(8000);
    assert_eq!(evaluation_output(&JsonValue::Str(exact.clone())).unwrap(), exact);
    match evaluation_output(&JsonValue::Str(format!("{exact}x"))) {
        Err(AppError::Validation(m)) => assert_eq!(m, "Evaluation output exceeds its limit"),
        other => panic!("unexpected {:?}", other),
    }
    match evaluation_output(&JsonValue::Null) {
        Err(AppError::Validation(m)) => assert_eq!(m, "Invalid evaluation output"),
        other => panic!("unexpected {:?}", other),
    }
}

#[test]
fn learning_check_records_carry_the_check_and_let_stage_data_override() {
    let data = JsonValue::Object(vec![
        ("outcome".to_string(), JsonValue::Str("started".into())),
        ("stage".to_string(), JsonValue::Str("overridden".into())),
    ]);
    let m = check_metadata("trace-1", "analysis", "analyst-1", 7, None, data);
    let keys: Vec<&str> = m.iter().map(|(k, _)| k.as_str()).collect();
    assert_eq!(
        keys,
        vec!["active_revision_id", "analyst_binding_id", "outcome", "policy_generation", "stage", "trace_id"]
    );
    assert!(matches!(&m[0].1, JsonValue::Null));
    assert!(matches!(&m[1].1, JsonValue::Str(s) if s == "analyst-1"));
    assert!(matches!(&m[2].1, JsonValue::Str(s) if s == "started"));
    assert!(matches!(&m[3].1, JsonValue::Number(n) if n == "7"));
    assert!(matches!(&m[4].1, JsonValue::Str(s) if s == "overridden"));
    assert!(matches!(&m[5].1, JsonValue::Str(s) if s == "trace-1"));
    let plain = check_metadata("t", "check", "a", -2, Some("rev-3"), JsonValue::Str("ignored".into()));
    assert_eq!(plain.len(), 5);
    assert!(matches!(&plain[0].1, JsonValue::Str(s) if s == "rev-3"));
    assert!(matches!(&plain[2].1, JsonValue::Number(n) if n == "-2"));
}

#[test]
fn harness_calls_are_recorded_when_they_start_and_when_they_end() {
    let started = call_started("call-1", input_summary("prompt"));
    match &started {
        JsonValue::Object(m) => {
            let keys: Vec<&str> = m.iter().map(|(k, _)| k.as_str()).collect();
            assert_eq!(keys, vec!["call_id", "input", "outcome"]);
            assert!(matches!(&m[0].1, JsonValue::Str(s) if s == "call-1"));
            assert!(matches!(&m[2].1, JsonValue::Str(s) if s == "started"));
        }
        other => panic!("object expected, got {:?}", other),
    }
    assert!(!json_to_string(&started).contains("prompt\""));
    let finished = call_finished("call-1", 1234, failure(&AppError::Internal("boom".into())));
    match &finished {
        JsonValue::Object(m) => {
            let keys: Vec<&str> = m.iter().map(|(k, _)| k.as_str()).collect();
            assert_eq!(keys, vec!["call_id", "duration_ms", "result"]);
            assert!(matches!(&m[1].1, JsonValue::Number(n) if n == "1234"));
        }
        other => panic!("object expected, got {:?}", other),
    }
    assert!(!json_to_string(&finished).contains("boom"));
}

#[test]
fn released_claims_keep_refusals_and_hide_device_errors() {
    assert_eq!(check_release_message(&AppError::Validation("Learning source records are missing".into())), "Learning source records are missing");
    assert_eq!(check_release_message(&AppError::Conflict("busy".into())), "busy");
    assert_eq!(check_release_message(&AppError::NotFound("gone".into())), "gone");
    assert_eq!(
        check_release_message(&AppError::Forbidden("x".into())),
        "Learning no longer has access to the selected Agent or workspace."
    );
    assert_eq!(
        check_release_message(&AppError::Unauthorized("x".into())),
        "Learning no longer has access to the selected Agent or workspace."
    );
    assert_eq!(
        check_release_message(&AppError::Internal("device path /home/x".into())),
        "Background analysis failed. Check the selected account and device; learning will retry."
    );
}

fn plan_error(r: Result<EvaluationPlan, AppError>) -> String {
    match r {
        Err(AppError::Validation(m)) => m,
        other => panic!("expected a validation error, got {:?}", other),
    }
}

#[test]
fn an_evaluation_step_runs_the_review_the_search_action_or_the_next_comparison() {
    let seeds = vec![None, Some("rev-2".to_string())];
    match plan_evaluation(true, true, Some(3), &seeds, None, 0, 0) {
        Ok(EvaluationPlan::ApplicationReview { winner, seed_reference }) => {
            assert_eq!(winner, 3);
            assert_eq!(seed_reference, "reviewed-seed:rev-2");
        }
        other => panic!("expected the application review, got {:?}", other),
    }
    assert_eq!(plan_error(plan_evaluation(true, true, None, &[], None, 0, 0)), "Missing winner");
    assert_eq!(
        plan_error(plan_evaluation(true, true, Some(0), &[Some("a".into()), None], None, 0, 0)),
        "Missing seed revision"
    );
    assert_eq!(
        plan_error(plan_evaluation(true, false, None, &[], None, 0, 0)),
        "Optimization action is missing"
    );
    assert!(matches!(
        plan_evaluation(true, false, None, &[], Some(SearchStep::Evaluate { candidate: 1, case: 4 }), 0, 0),
        Ok(EvaluationPlan::SearchEvaluate { candidate: 1, case: 4 })
    ));
    assert!(matches!(
        plan_evaluation(true, false, None, &[], Some(SearchStep::Propose), 0, 0),
        Ok(EvaluationPlan::SearchPropose)
    ));
    assert!(matches!(
        plan_evaluation(false, false, None, &[], None, 5, 2),
        Ok(EvaluationPlan::Compare { candidate: 1, case: 2 })
    ));
}

fn decided(model: &str) -> TrialEvent {
    TrialEvent::Decided { output: true, model: model.to_string() }
}

/// Runs a trial over `cases` cases, answering each request from `answers`.
fn run_trial(cases: usize, answers: Vec<TrialEvent>) -> TrialAction {
    let (mut trial, mut action) = ProgramTrial::start(cases);
    for event in answers {
        match action {
            TrialAction::Finish { .. } | TrialAction::Fail(_) => panic!("trial already over"),
            _ => {}
        }
        let (t, a) = trial.step(event);
        trial = t;
        action = a;
    }
    action
}

#[test]
fn a_program_is_validated_only_when_every_case_scores_fully_under_one_model() {
    let perfect = || TrialEvent::Assessed { perfect: true };
    let ok = run_trial(2, vec![
        TrialEvent::ClaimCurrent(true), decided("m"), TrialEvent::ClaimCurrent(true), perfect(),
        TrialEvent::ClaimCurrent(true), decided("m"), TrialEvent::ClaimCurrent(true), perfect(),
    ]);
    assert!(matches!(ok, TrialAction::Finish { validated: true }));
    let two_models = run_trial(2, vec![
        TrialEvent::ClaimCurrent(true), decided("m"), TrialEvent::ClaimCurrent(true), perfect(),
        TrialEvent::ClaimCurrent(true), decided("n"), TrialEvent::ClaimCurrent(true), perfect(),
    ]);
    assert!(matches!(two_models, TrialAction::Finish { validated: false }));
    let no_output = run_trial(1, vec![
        TrialEvent::ClaimCurrent(true),
        TrialEvent::Decided { output: false, model: "m".into() },
    ]);
    assert!(matches!(no_output, TrialAction::Finish { validated: false }));
    let failed = run_trial(3, vec![TrialEvent::ClaimCurrent(true), TrialEvent::DecisionFailed]);
    assert!(matches!(failed, TrialAction::Finish { validated: false }));
    let assess_failed = run_trial(3, vec![
        TrialEvent::ClaimCurrent(true), decided("m"), TrialEvent::ClaimCurrent(true),
        TrialEvent::AssessmentFailed,
    ]);
    assert!(matches!(assess_failed, TrialAction::Finish { validated: false }));
    assert!(matches!(run_trial(0, vec![]), TrialAction::Finish { validated: true }));
}

#[test]
fn a_lost_lease_ends_the_trial_with_a_conflict() {
    match run_trial(2, vec![TrialEvent::ClaimCurrent(false)]) {
        TrialAction::Fail(AppError::Conflict(m)) => assert_eq!(m, "Decision learning was disabled or its lease expired"),
        other => panic!("expected a conflict, got {:?}", other),
    }
    match run_trial(2, vec![TrialEvent::ClaimCurrent(true), decided("m"), TrialEvent::ClaimCurrent(false)]) {
        TrialAction::Fail(AppError::Conflict(m)) => assert_eq!(m, "Decision learning changed during evaluation"),
        other => panic!("expected a conflict, got {:?}", other),
    }
    let (trial, action) = ProgramTrial::start(2);
    assert_eq!(trial.phase, TrialPhase::AwaitClaim);
    let (trial, action2) = trial.step(TrialEvent::ClaimCurrent(true));
    assert!(matches!(action, TrialAction::CheckClaim));
    assert!(matches!(action2, TrialAction::Decide(0)));
    assert_eq!(trial.next, 0);
}

#[test]
fn builds_without_a_finite_program_report_why() {
    assert_eq!(json_to_string(&build_status("corpus_reserved_or_completed")), r#"{"status":"corpus_reserved_or_completed"}"#);
    assert!(generation_report("c1", GenerationOutcome::Finite, "m").is_none());
    assert_eq!(
        json_to_string(&generation_report("c1", GenerationOutcome::NotSuitable, "m").unwrap()),
        r#"{"corpus":"c1","status":"not_suitable"}"#
    );
    assert_eq!(
        json_to_string(&generation_report("c1", GenerationOutcome::Browser(JsonValue::Null), "m").unwrap()),
        r#"{"corpus":"c1","model":"m","status":"browser_ready_for_current_task","workflow":null}"#
    );
    assert_eq!(
        json_to_string(&generation_report("c1", GenerationOutcome::Failed(AppError::Internal("x".into())), "m").unwrap()),
        r#"{"corpus":"c1","failure":{"error_category":"internal","outcome":"failed"},"status":"generation_failed"}"#
    );
}
