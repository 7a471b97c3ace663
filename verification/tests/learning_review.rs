use choruz_api_gateway::experience::{json_to_string, Cursor};
use choruz_api_gateway::learning_review::{
    case_grounded, check_addressed_problems, check_analysis, current_start, deferred_problems,
    instruction_review, is_retained, keeps_native_source, merge_related_refs, missing_references,
    already_analyzed_record, no_new_records_record, review_details, review_diagnostics,
    saves_source_only, select_source, selected_record, ReviewAction, ReviewEvent, ReviewPhase,
    ReviewRun, session_key, source_sessions, ungrounded_case_reason, CaseGrounding,
    CaseRefs, InstructionReview, Observation, ReviewSource,
};
use choruz_api_gateway::redaction::AppError;
use choruz_api_gateway::telemetry::JsonValue;

fn from_serde(v: &serde_json::Value) -> JsonValue {
    match v {
        serde_json::Value::Null => JsonValue::Null,
        serde_json::Value::Bool(b) => JsonValue::Bool(*b),
        serde_json::Value::Number(n) => JsonValue::Number(n.to_string()),
        serde_json::Value::String(s) => JsonValue::Str(s.clone()),
        serde_json::Value::Array(items) => JsonValue::Array(items.iter().map(from_serde).collect()),
        serde_json::Value::Object(map) => {
            JsonValue::Object(map.iter().map(|(k, v)| (k.clone(), from_serde(v))).collect())
        }
    }
}

fn j(text: &str) -> JsonValue {
    from_serde(&serde_json::from_str(text).expect("test JSON"))
}

fn fields(v: JsonValue) -> Vec<(String, JsonValue)> {
    match v {
        JsonValue::Object(f) => f,
        _ => panic!("object expected"),
    }
}

fn strings(items: &[&str]) -> Vec<String> {
    items.iter().map(|s| s.to_string()).collect()
}

fn validation(r: Result<Vec<Option<String>>, AppError>) -> String {
    match r {
        Err(AppError::Validation(m)) => m,
        other => panic!("unexpected {:?}", other),
    }
}

#[test]
fn equivalence_links_merge_sorted_and_bounded() {
    assert_eq!(merge_related_refs(strings(&["b", "a"]), &strings(&["c", "a"])), strings(&["a", "b", "c"]));
    let many: Vec<String> = (0..70).map(|i| format!("r{i:02}")).collect();
    let merged = merge_related_refs(many[10..].to_vec(), &many[..20]);
    assert_eq!(merged.len(), 64);
    assert_eq!(merged, many[..64].to_vec());
}

#[test]
fn interventions_address_only_observed_problems() {
    assert!(check_addressed_problems(&strings(&["p1"]), &strings(&["p1", "p2"])).is_ok());
    match check_addressed_problems(&strings(&["p3"]), &strings(&["p1"])) {
        Err(AppError::Validation(m)) => assert_eq!(m, "Prompt intervention names an unobserved problem"),
        other => panic!("unexpected {:?}", other),
    }
}

#[test]
fn proposed_instructions_go_to_review_only_when_the_source_is_complete() {
    let (adopted, review) = instruction_review(None, "seed", true, false, false, true);
    assert_eq!(adopted.as_deref(), Some("seed"));
    assert!(matches!(review, InstructionReview::Review(ref x) if x == "seed"));
    let (adopted, review) = instruction_review(Some("new".into()), "seed", false, false, false, true);
    assert_eq!(adopted.as_deref(), Some("new"));
    assert!(matches!(review, InstructionReview::Review(ref x) if x == "new"));
    let (adopted, review) = instruction_review(None, "seed", false, true, true, true);
    assert_eq!(adopted, None);
    assert!(matches!(review, InstructionReview::UnchangedSeed));
    assert_eq!(
        json_to_string(&review_details(&review).unwrap()),
        r#"{"passed":true,"reason":"unchanged_seed_for_trace_evaluation"}"#
    );
    let (_, review) = instruction_review(Some("new".into()), "seed", true, true, true, false);
    assert_eq!(json_to_string(&review_details(&review).unwrap()), r#"{"passed":false,"reason":"source_incomplete"}"#);
    let (_, review) = instruction_review(None, "seed", false, true, false, true);
    assert_eq!(
        json_to_string(&review_details(&review).unwrap()),
        r#"{"passed":false,"reason":"no_proposed_instruction"}"#
    );
    assert!(review_details(&InstructionReview::Review("x".into())).is_none());
}

fn records() -> Vec<JsonValue> {
    vec![
        j(r#"{"ref":"s:1","record":{"type":"user","text":"[choruz-experience revision=rev-1] go"}}"#),
        j(r#"{"ref":"s:2","record":{"type":"assistant"}}"#),
    ]
}

#[test]
fn reviews_recover_only_what_they_do_not_hold() {
    let prior = j(r#"["p:1"]"#);
    let known = j(r#"[{"key":"k","episodes":[{"episode_ref":"k:1","evidence":["k:2"]}]}]"#);
    let recs = records();
    for held in ["s:1", "p:1", "k:1", "k:2"] {
        assert!(is_retained(&recs, &prior, &known, &held.to_string()), "{held}");
    }
    assert!(!is_retained(&recs, &prior, &known, &"x:9".to_string()));
    let problems = vec![Observation {
        key: "k".into(),
        episode_ref: "k:1".into(),
        evidence: strings(&["y:1", "s:2"]),
        applied_revision_ref: Some("s:3".into()),
    }];
    let cases = vec![CaseRefs { episode_ref: "s:1".into(), evidence: strings(&["z:1", "p:1"]) }];
    let missing = missing_references(&strings(&["s:1", "x:9", "p:1", "k:2", "x:9"]), &problems, &cases, &recs, &prior, &known);
    assert_eq!(missing, strings(&["p:1", "s:3", "x:9", "y:1", "z:1"]));
}

#[test]
fn analyses_stand_only_on_their_verified_source() {
    let recs = records();
    let prior = j("[]");
    let known = j("[]");
    let recovered = strings(&["old:7"]);
    let src = ReviewSource {
        records: &recs,
        prior_references: &prior,
        known_problems: &known,
        recovered: &recovered,
        revision: Some("rev-1"),
        start: None,
        historical: &[],
    };
    let problem = |opener: &str, evidence: &[&str], applied: Option<&str>| Observation {
        key: "k".into(),
        episode_ref: opener.into(),
        evidence: strings(evidence),
        applied_revision_ref: applied.map(str::to_string),
    };
    let ok = check_analysis(&src, &strings(&["s:1", "old:7"]), &[problem("s:1", &["s:2"], Some("s:1")), problem("old:7", &["s:2"], None)]);
    assert_eq!(ok.unwrap(), vec![Some("rev-1".to_string()), None]);
    assert_eq!(
        validation(check_analysis(&src, &strings(&["x:1"]), &[])),
        "Analysis cited a record outside its source window"
    );
    assert_eq!(
        validation(check_analysis(&src, &[], &[problem("x:1", &["s:2"], None)])),
        "Learning objective opener is absent from its verified source; restore the original source to recover it"
    );
    assert_eq!(
        validation(check_analysis(&src, &[], &[problem("s:1", &["x:1"], None)])),
        "Learning failure cites evidence absent from its verified source"
    );
    assert_eq!(
        validation(check_analysis(&src, &[], &[problem("s:1", &["old:7"], None)])),
        "Learning problem lacks new source evidence"
    );
    assert_eq!(
        validation(check_analysis(&src, &[], &[problem("s:1", &["s:2"], Some("s:2"))])),
        "Learning observation lacks its claimed revision marker"
    );
    let unrevised = ReviewSource { revision: None, ..src };
    assert_eq!(
        validation(check_analysis(&unrevised, &[], &[problem("s:1", &["s:2"], Some("s:1"))])),
        "Learning observation lacks its claimed revision marker"
    );
}

#[test]
fn the_first_window_with_records_is_analysed() {
    let windows = vec![
        ("feedback".to_string(), j(r#"{"records":[],"cursor":{"after":"m9"},"more":false}"#)),
        ("s1".to_string(), j(r#"{"records":[{"ref":"s1:4"}],"cursor":{"session":"s1","offset":5},"more":true,"project_guidance":"Use tabs"}"#)),
        ("s2".to_string(), j(r#"{"records":[{"ref":"s2:1"}],"cursor":{"session":"s2","offset":2},"more":false}"#)),
    ];
    let checkpoint = fields(j(r#"{"feedback":{"after":"m1"},"old":1}"#));
    let r = select_source(windows, &j("[]"), checkpoint, Some(j(r#""2024-01-01""#)));
    assert!(r.unread);
    let (key, source) = r.selected.unwrap();
    assert_eq!(key, "s1");
    assert_eq!(
        json_to_string(&source),
        r#"{"curation_cycle":"2024-01-01","cursor":{"offset":5,"session":"s1"},"more":true,"project_guidance":"Use tabs","records":[{"ref":"s1:4"}]}"#
    );
    assert_eq!(
        json_to_string(&JsonValue::Object(r.checkpoint)),
        r#"{"_more":true,"feedback":{"after":"m9"},"old":1,"s1":{"offset":5,"session":"s1"}}"#
    );
}

#[test]
fn unaddressed_problems_are_revisited_when_nothing_is_new() {
    let windows = vec![("feedback".to_string(), j(r#"{"records":[],"cursor":{"after":"m2"},"more":false}"#))];
    let known = j(r#"[{"key":"a","prompt_revision_id":null},{"key":"b","prompt_revision_id":"r1"},{"key":"c"}]"#);
    let r = select_source(windows, &known, vec![], None);
    let (key, source) = r.selected.unwrap();
    assert_eq!(key, "_pending_problems");
    assert_eq!(json_to_string(&source), r#"{"cursor":["a","c"],"more":false,"records":[]}"#);
    assert_eq!(
        json_to_string(&JsonValue::Object(r.checkpoint)),
        r#"{"_more":false,"_pending_problems":["a","c"],"feedback":{"after":"m2"}}"#
    );
    // While older work is unread, nothing is revisited.
    let windows = vec![("s1".to_string(), j(r#"{"records":[],"cursor":{"session":"s1"},"more":true}"#))];
    let r = select_source(windows, &known, vec![], None);
    assert!(r.selected.is_none());
    assert_eq!(json_to_string(&JsonValue::Object(r.checkpoint)), r#"{"_more":true,"s1":{"session":"s1"}}"#);
}

#[test]
fn sessions_and_cursors_of_a_review() {
    let s = |v: &str| Some(v.to_string());
    assert_eq!(source_sessions(s("a"), s("e")), vec![s("a"), s("e")]);
    assert_eq!(source_sessions(s("e"), s("e")), vec![s("e")]);
    assert_eq!(source_sessions(None, s("e")), vec![s("e")]);
    assert_eq!(source_sessions(s("a"), None), vec![s("a")]);
    assert_eq!(source_sessions(None, None), vec![None]);
    assert_eq!(session_key(&None), "live");
    assert_eq!(session_key(&s("a")), "a");
    assert!(keeps_native_source(&j(r#"{"reset":false}"#), 3));
    assert!(!keeps_native_source(&j(r#"{"reset":true}"#), 3));
    assert!(!keeps_native_source(&j("{}"), 0));
    let cursors = vec![
        Cursor { session: "s0".into(), offset: 1 },
        Cursor { session: "s1".into(), offset: 4 },
    ];
    assert_eq!(current_start(&j(r#"{"cursor":{"session":"s1"}}"#), &cursors), Some(1));
    assert_eq!(current_start(&j(r#"{"cursor":{"session":"s1"},"reset":true}"#), &cursors), None);
    assert_eq!(current_start(&j(r#"{"cursor":{"session":"s9"}}"#), &cursors), None);
}

#[test]
fn cases_must_be_grounded_in_their_source() {
    let recs = records();
    let known = strings(&["e:1", "e:2"]);
    let historical = strings(&["old:3"]);
    let case = |rel: Option<&[&str]>, opener: &str, evidence: &[&str]| CaseGrounding {
        episode_ref: opener.into(),
        evidence: strings(evidence),
        related_refs: rel.map(strings),
    };
    assert!(case_grounded(&case(Some(&["e:1"]), "s:1", &["s:2", "old:3"]), &known, &recs, &historical));
    assert!(case_grounded(&case(Some(&[]), "old:3", &[]), &known, &recs, &historical));
    assert!(!case_grounded(&case(None, "s:1", &["s:2"]), &known, &recs, &historical));
    assert!(!case_grounded(&case(Some(&["e:9"]), "s:1", &["s:2"]), &known, &recs, &historical));
    assert!(!case_grounded(&case(Some(&["e:1"]), "x:1", &["s:2"]), &known, &recs, &historical));
    assert!(!case_grounded(&case(Some(&["e:1"]), "s:1", &["x:2"]), &known, &recs, &historical));
    assert_eq!(ungrounded_case_reason(), "Dataset review could not establish a grounded, self-contained answer");
}

#[test]
fn deferred_problems_are_carried_into_the_revision() {
    let known = j(r#"[
        {"key":"a","description":"slow","prompt_revision_id":null,"episodes":[{"episode_ref":"s:1","evidence":["s:2"]},{"episode_ref":"s:9","evidence":[]}]},
        {"key":"b","prompt_revision_id":"r1","episodes":[{"episode_ref":"s:3","evidence":[]}]},
        {"key":"c","episodes":[{"episode_ref":"s:4","evidence":["s:5","s:6"]}]},
        {"key":"d","episodes":[]},
        {"key":"e","episodes":[{"episode_ref":"s:7","evidence":[]}]}
    ]"#);
    let out = deferred_problems(&known, &strings(&["e"])).unwrap();
    let got: Vec<(String, String, String, Vec<String>)> =
        out.into_iter().map(|d| (d.key, d.description, d.episode_ref, d.evidence)).collect();
    assert_eq!(
        got,
        vec![
            ("a".to_string(), "slow".to_string(), "s:1".to_string(), strings(&["s:2"])),
            ("c".to_string(), String::new(), "s:4".to_string(), strings(&["s:5", "s:6"])),
        ]
    );
    let broken = j(r#"[{"key":"a","episodes":[{"episode_ref":"s:1","evidence":"s:2"}]}]"#);
    match deferred_problems(&broken, &[]) {
        Err(AppError::Internal(m)) => assert_eq!(m, "Stored problem evidence is invalid"),
        other => panic!("unexpected {:?}", other.map(|v| v.len())),
    }
    assert!(deferred_problems(&j("null"), &[]).unwrap().is_empty());
}

struct Report {
    summary: String,
    instruction: Option<String>,
    evidence: Vec<String>,
    addressed_problems: Vec<String>,
}

impl Report {
    fn json(&self) -> JsonValue {
        let texts = |v: &[String]| JsonValue::Array(v.iter().map(|s| JsonValue::Str(s.clone())).collect());
        JsonValue::Object(vec![
            ("addressed_problems".to_string(), texts(&self.addressed_problems)),
            ("evaluation_cases".to_string(), JsonValue::Array(vec![])),
            ("evidence".to_string(), texts(&self.evidence)),
            (
                "instruction".to_string(),
                match &self.instruction {
                    Some(s) => JsonValue::Str(s.clone()),
                    None => JsonValue::Null,
                },
            ),
            ("previous_revision_outcome".to_string(), JsonValue::Str("not_observed".into())),
            ("problems".to_string(), JsonValue::Array(vec![])),
            ("summary".to_string(), JsonValue::Str(self.summary.clone())),
        ])
    }
}

/// The review diagnostics of `report`, citing evidence judged by `known`.
fn diagnose(instruction: &str, addressed: &[String], report: &Report, known: impl Fn(&String) -> bool) -> JsonValue {
    let flags: Vec<bool> = report.evidence.iter().map(known).collect();
    review_diagnostics(
        instruction,
        addressed,
        report.instruction.as_deref(),
        &flags,
        &report.addressed_problems,
        report.json(),
    )
}

fn member<'a>(v: &'a JsonValue, key: &str) -> &'a JsonValue {
    match v {
        JsonValue::Object(f) => f.iter().find(|(k, _)| k == key).map(|(_, v)| v).expect("member"),
        _ => panic!("object expected"),
    }
}

fn flag(v: &JsonValue, key: &str) -> bool {
    match member(v, key) {
        JsonValue::Bool(b) => *b,
        other => panic!("boolean expected, got {:?}", other),
    }
}

#[test]
fn review_diagnostics_distinguish_rejection_from_protocol_mismatch() {
    let report = Report {
        summary: "Missing evidence. token=fixture-secret".into(),
        instruction: None,
        evidence: vec!["verified".into()],
        addressed_problems: vec![],
    };
    let rejected = diagnose("Check", &[], &report, |r| r == "verified");
    assert_eq!(flag(&rejected, "passed"), false);
    assert_eq!(flag(&rejected, "instruction_matches"), false);
    assert_eq!(flag(&rejected, "evidence_verified"), true);
    match member(member(&rejected, "reviewer_report"), "summary") {
        JsonValue::Str(s) => assert!(s.contains("Missing evidence")),
        other => panic!("summary expected, got {:?}", other),
    }
    assert!(!json_to_string(&rejected).contains("fixture-secret"));
    let mut report = report;
    report.instruction = Some("Check".into());
    assert_eq!(flag(&diagnose("Check", &[], &report, |_| true), "passed"), true);
    assert_eq!(
        flag(&diagnose("Check", &[], &report, |_| false), "evidence_verified"),
        false
    );
    assert_eq!(
        flag(&diagnose("Check", &["p".into()], &report, |_| true), "addressed_problems_match"),
        false
    );
}

#[test]
fn addressed_problems_compare_as_sets() {
    let report = Report {
        summary: "ok".into(),
        instruction: Some("Check".into()),
        evidence: vec![],
        addressed_problems: strings(&["b", "a", "a"]),
    };
    let d = diagnose("Check", &strings(&["a", "b"]), &report, |_| false);
    assert!(flag(&d, "addressed_problems_match"));
    assert!(flag(&d, "evidence_verified"));
    assert!(flag(&d, "passed"));
    let keys: Vec<&str> = match &d {
        JsonValue::Object(f) => f.iter().map(|(k, _)| k.as_str()).collect(),
        _ => panic!("object expected"),
    };
    assert_eq!(
        keys,
        vec!["addressed_problems_match", "evidence_verified", "instruction_matches", "passed", "reviewer_report"]
    );
    assert!(!flag(&diagnose("Check", &strings(&["a", "c"]), &report, |_| true), "passed"));
}

#[test]
fn source_selection_records_name_the_outcome() {
    assert_eq!(
        json_to_string(&no_new_records_record(true)),
        r#"{"outcome":"no_new_records","unread":true}"#
    );
    assert_eq!(
        json_to_string(&already_analyzed_record("abc")),
        r#"{"outcome":"already_analyzed","source_digest":"abc"}"#
    );
    assert_eq!(
        json_to_string(&selected_record("abc", j(r#"{"offset":3}"#), &JsonValue::Bool(false))),
        r#"{"outcome":"selected","source_complete":true,"source_cursor":{"offset":3},"source_digest":"abc"}"#
    );
    assert_eq!(
        json_to_string(&selected_record("abc", JsonValue::Null, &JsonValue::Bool(true))),
        r#"{"outcome":"selected","source_complete":false,"source_cursor":null,"source_digest":"abc"}"#
    );
    assert_eq!(
        json_to_string(&selected_record("abc", JsonValue::Null, &JsonValue::Null)),
        r#"{"outcome":"selected","source_complete":false,"source_cursor":null,"source_digest":"abc"}"#
    );
}

#[test]
fn nothing_new_is_saved_only_when_the_checkpoint_moved_or_cases_were_withdrawn() {
    let before = j(r#"{"_more":false,"live":{"offset":4}}"#);
    assert!(!saves_source_only(&j(r#"{"_more":false,"live":{"offset":4}}"#), &before, 0));
    assert!(saves_source_only(&j(r#"{"_more":false,"live":{"offset":5}}"#), &before, 0));
    assert!(saves_source_only(&before, &before, 1));
}

#[test]
fn a_review_with_nothing_new_records_it_and_stops() {
    let (run, action) = ReviewRun::start(true).step(ReviewEvent::Selected { window: false, unread: true, more: false });
    assert_eq!(run.phase, ReviewPhase::Done);
    match action {
        ReviewAction::NothingNew { record, curate } => {
            assert_eq!(json_to_string(&record), r#"{"outcome":"no_new_records","unread":true}"#);
            assert_eq!(curate, Some(false));
        }
        other => panic!("expected nothing new, got {:?}", other),
    }
    let (_, action) = ReviewRun::start(false).step(ReviewEvent::Selected { window: false, unread: false, more: false });
    assert!(matches!(action, ReviewAction::NothingNew { curate: None, .. }));
}

#[test]
fn a_review_stops_at_a_window_seen_before_and_otherwise_runs_its_stages_in_order() {
    let (run, action) = ReviewRun::start(true).step(ReviewEvent::Selected { window: true, unread: true, more: true });
    assert!(matches!(action, ReviewAction::CheckSeen));
    let (done, stop) = run.step(ReviewEvent::Seen(true));
    assert_eq!(done.phase, ReviewPhase::Done);
    assert!(matches!(stop, ReviewAction::AlreadyAnalyzed));
    let (run, action) = run.step(ReviewEvent::Seen(false));
    assert!(matches!(action, ReviewAction::Analyse));
    let (run, action) = run.step(ReviewEvent::Analysed { cases: 2 });
    assert!(matches!(action, ReviewAction::RecoverMissing));
    let (run, action) = run.step(ReviewEvent::Recovered);
    assert!(matches!(action, ReviewAction::AdmitCases));
    let (run, action) = run.step(ReviewEvent::CasesAdmitted);
    assert_eq!(run.phase, ReviewPhase::Done);
    assert!(matches!(action, ReviewAction::Conclude { curate: Some(false) }));
    let (run, _) = ReviewRun::start(true).step(ReviewEvent::Selected { window: true, unread: false, more: false });
    let (run, _) = run.step(ReviewEvent::Seen(false));
    let (run, _) = run.step(ReviewEvent::Analysed { cases: 0 });
    let (_, action) = run.step(ReviewEvent::Recovered);
    assert!(matches!(action, ReviewAction::Conclude { curate: Some(true) }));
}
