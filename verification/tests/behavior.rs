use choruz_api_gateway::behavior::{
    behavior_references, check_behavior_evidence, check_privacy_review, check_public_projection,
    preparation_result, publication_record, publication_review, recovered_record,
    scrubbing_keeps, session_home, session_references, PublicationStep,
    MAX_BEHAVIOR_EVIDENCE_BYTES,
};
use choruz_api_gateway::experience::{json_clone, json_to_string};
use choruz_api_gateway::redaction::AppError;
use choruz_api_gateway::telemetry::{sanitize_telemetry_value, JsonValue};
use sha2::Digest;

fn from_serde(v: &serde_json::Value) -> JsonValue {
    match v {
        serde_json::Value::Null => JsonValue::Null,
        serde_json::Value::Bool(b) => JsonValue::Bool(*b),
        serde_json::Value::Number(n) => JsonValue::Number(n.to_string()),
        serde_json::Value::String(s) => JsonValue::Str(s.clone()),
        serde_json::Value::Array(items) => JsonValue::Array(items.iter().map(from_serde).collect()),
        serde_json::Value::Object(map) => {
            JsonValue::Object(map.iter().map(|(k, v)| (k.clone(), from_serde(v))).collect())
        }
    }
}

fn j(text: &str) -> JsonValue {
    from_serde(&serde_json::from_str(text).expect("test JSON"))
}

fn validation(r: Result<(), AppError>) -> String {
    match r {
        Err(AppError::Validation(m)) => m,
        other => panic!("unexpected {:?}", other),
    }
}

#[test]
fn behavior_references_add_the_episode_sorted_without_repeats() {
    let refs = behavior_references(&j(r#"["s2:9","s1:4","s2:9"]"#), "s1:1").unwrap();
    assert_eq!(refs, vec!["s1:1", "s1:4", "s2:9"]);
    let refs = behavior_references(&j(r#"["s1:1"]"#), "s1:1").unwrap();
    assert_eq!(refs, vec!["s1:1"]);
    assert_eq!(behavior_references(&j("[]"), "e").unwrap(), vec!["e"]);
    for bad in [r#"["a",1]"#, "null", r#"{"a":"b"}"#, r#""a""#] {
        match behavior_references(&j(bad), "e") {
            Err(AppError::Validation(m)) => assert_eq!(m, "Invalid behavior evidence references"),
            other => panic!("unexpected {:?}", other),
        }
    }
}

#[test]
fn sessions_are_asked_only_for_their_own_references() {
    let refs: Vec<String> = ["s1:4", "s10:2", "s1", "s1:9", "x:s1:3"].iter().map(|s| s.to_string()).collect();
    assert_eq!(session_references(&refs, "s1"), vec!["s1:4", "s1:9"]);
    assert_eq!(session_references(&refs, "s10"), vec!["s10:2"]);
    assert!(session_references(&refs, "s2").is_empty());
    assert_eq!(session_home(Some(("s1", "/home/a")), "s1"), Some("/home/a".to_string()));
    assert_eq!(session_home(Some(("s1", "")), "s1"), None);
    assert_eq!(session_home(Some(("s2", "/home/a")), "s1"), None);
    assert_eq!(session_home(None, "s1"), None);
}

#[test]
fn evidence_must_cover_every_reference_and_fit_the_window() {
    let records = vec![
        j(r#"{"record":{"tool":"x"},"ref":"s1:1"}"#),
        recovered_record("s1:4", j(r#"{"text":"y"}"#)),
    ];
    assert_eq!(json_to_string(&records[1]), r#"{"record":{"text":"y"},"ref":"s1:4"}"#);
    let refs = vec!["s1:1".to_string(), "s1:4".to_string()];
    assert!(check_behavior_evidence(&refs, &records).is_ok());
    assert!(check_behavior_evidence(&[], &[]).is_ok());
    let missing = vec!["s1:1".to_string(), "s1:5".to_string()];
    assert_eq!(validation(check_behavior_evidence(&missing, &records)), "Original behavior evidence is unavailable");
    // `[` + the record + `]` is exactly the limit, one byte more is refused.
    let frame = json_to_string(&recovered_record("r", JsonValue::Str(String::new()))).len() + 2;
    let exact = recovered_record("r", JsonValue::Str("a".repeat(MAX_BEHAVIOR_EVIDENCE_BYTES - frame)));
    let refs = vec!["r".to_string()];
    assert!(check_behavior_evidence(&refs, &[exact]).is_ok());
    let over = recovered_record("r", JsonValue::Str("a".repeat(MAX_BEHAVIOR_EVIDENCE_BYTES - frame + 1)));
    assert_eq!(
        validation(check_behavior_evidence(&refs, &[over])),
        "Behavior evidence exceeds the source window limit"
    );
}

#[test]
fn public_projections_keep_no_recognized_credential() {
    let clean = j(r#"{"title":"Save before exit","tags":["ui"],"steps":[1,2]}"#);
    assert!(scrubbing_keeps(&clean));
    assert_eq!(json_to_string(&check_public_projection(Some(json_clone(&clean))).unwrap()), json_to_string(&clean));
    for leaky in [
        r#"{"title":"use Bearer abc.def"}"#,
        r#"{"client_secret":"k"}"#,
        r#"{"private":true,"content":"hello"}"#,
        r#"["token=xyz"]"#,
    ] {
        let v = j(leaky);
        assert!(!scrubbing_keeps(&v), "{leaky}");
        let scrubbed = sanitize_telemetry_value(json_clone(&v));
        assert_ne!(json_to_string(&scrubbed), json_to_string(&v));
        match check_public_projection(Some(v)) {
            Err(AppError::Validation(m)) => assert_eq!(m, "Public projection retains a recognized credential"),
            other => panic!("unexpected {:?}", other),
        }
    }
    // Already withheld values pass unchanged.
    let marked = j(r#"{"client_secret":"[REDACTED]","private":true,"content":"[REDACTED]"}"#);
    assert!(scrubbing_keeps(&marked));
    assert_eq!(json_to_string(&sanitize_telemetry_value(json_clone(&marked))), json_to_string(&marked));
    match check_public_projection(None) {
        Err(AppError::Validation(m)) => assert_eq!(m, "Public projection abstained"),
        other => panic!("unexpected {:?}", other),
    }
    assert!(check_privacy_review(true).is_ok());
    assert_eq!(validation(check_privacy_review(false)), "Public privacy review rejected the projection");
}

#[test]
fn publications_record_their_review_and_outcome() {
    let review = publication_review(JsonValue::Str("no personal data".into()), "review skill");
    let hash = hex::encode(sha2::Sha256::digest(b"review skill"));
    assert_eq!(
        json_to_string(&review),
        format!(r#"{{"accepted":true,"reason":"no personal data","skill_sha256":"{hash}"}}"#)
    );
    assert_eq!(publication_record(PublicationStep::NotDispatched), None);
    assert_eq!(
        publication_record(PublicationStep::Contributed("c-1".into())),
        Some((Some("c-1".to_string()), true, None))
    );
    assert_eq!(
        publication_record(PublicationStep::ContributionFailed),
        Some((
            None,
            true,
            Some("Contribution result is uncertain. Automatic retry is disabled; check the community before resubmitting.")
        ))
    );
    assert_eq!(
        publication_record(PublicationStep::ProjectionRefused),
        Some((
            None,
            false,
            Some("Public projection or independent privacy review did not pass. The experience remains local.")
        ))
    );
    let (error, audit) = preparation_result("ev-1", true);
    assert_eq!(error, None);
    assert_eq!(json_to_string(&audit), r#"{"event_id":"ev-1","success":true}"#);
    let (error, audit) = preparation_result("ev-2", false);
    assert_eq!(
        error,
        Some("Unable to prepare grounded behavior evidence. Check the analysis account and original source.")
    );
    assert_eq!(json_to_string(&audit), r#"{"event_id":"ev-2","success":false}"#);
}
