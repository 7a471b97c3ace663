use choruz_api_gateway::curation::{finish_curation, prepare_curation, withdrawn_reason};
use choruz_api_gateway::telemetry::JsonValue;

#[derive(Debug, Clone)]
struct Case {
    episode_ref: String,
    check: Option<String>,
    reason: String,
}

fn num(n: i64) -> JsonValue {
    JsonValue::Number(n.to_string())
}

fn obj(fields: Vec<(&str, JsonValue)>) -> JsonValue {
    JsonValue::Object(fields.into_iter().map(|(k, v)| (k.to_string(), v)).collect())
}

fn at<'a>(v: &'a JsonValue, key: &str) -> Option<&'a JsonValue> {
    match v {
        JsonValue::Object(f) => f.iter().find(|(k, _)| k == key).map(|(_, v)| v),
        _ => None,
    }
}

fn set(v: &mut JsonValue, key: &str, value: JsonValue) {
    if let JsonValue::Object(f) = v {
        match f.iter_mut().find(|(k, _)| k == key) {
            Some(slot) => slot.1 = value,
            None => f.push((key.to_string(), value)),
        }
    }
}

fn offset(cursor: &JsonValue) -> Option<String> {
    match at(cursor, "session").and_then(|s| at(s, "offset")) {
        Some(JsonValue::Number(n)) => Some(n.clone()),
        _ => None,
    }
}

/// One page of a sweep over `previous`, applying the withdrawals to `changes`.
fn curate(cursor: &mut Vec<(String, JsonValue)>, previous: &[Case], changes: &mut Vec<Case>, complete: bool) {
    let refs: Vec<(String, bool)> =
        previous.iter().map(|c| (c.episode_ref.clone(), c.check.is_some())).collect();
    let change_refs: Vec<String> = changes.iter().map(|c| c.episode_ref.clone()).collect();
    for i in finish_curation(cursor, &refs, &change_refs, complete) {
        let mut withdrawn = previous[i].clone();
        withdrawn.check = None;
        withdrawn.reason = withdrawn_reason();
        changes.push(withdrawn);
    }
}

#[test]
fn daily_curation_resumes_paging_and_withdraws_unverifiable_evidence() {
    let mut source_cursor = obj(vec![
        ("_curation_started", num(100)),
        ("session", obj(vec![("offset", num(12))])),
        ("_more", JsonValue::Bool(true)),
    ]);
    prepare_curation(true, &mut source_cursor, 90000);
    assert_eq!(offset(&source_cursor), Some("12".to_string()));
    set(&mut source_cursor, "_more", JsonValue::Bool(false));
    prepare_curation(true, &mut source_cursor, 90000);
    assert!(at(&source_cursor, "session").is_none());
    set(&mut source_cursor, "session", obj(vec![("offset", num(3))]));
    prepare_curation(true, &mut source_cursor, 90001);
    assert_eq!(offset(&source_cursor), Some("3".to_string()));
    let old = Case {
        episode_ref: "missing".into(),
        check: Some("ok".into()),
        reason: "Checked".into(),
    };
    let mut changes = vec![];
    let mut cursor: Vec<(String, JsonValue)> = Vec::new();
    curate(&mut cursor, std::slice::from_ref(&old), &mut changes, false);
    assert!(changes.is_empty());
    curate(&mut cursor, std::slice::from_ref(&old), &mut changes, true);
    assert_eq!(changes.len(), 1);
    assert!(changes[0].check.is_none());
    assert!(old.check.is_some());
    cursor.clear();
    changes = vec![old.clone()];
    curate(&mut cursor, std::slice::from_ref(&old), &mut changes, false);
    for page in 0..10 {
        changes = (0..20)
            .map(|i| {
                let mut case = old.clone();
                case.episode_ref = format!("z-new:{page}:{i}");
                case
            })
            .collect();
        curate(&mut cursor, std::slice::from_ref(&old), &mut changes, false);
    }
    changes.clear();
    curate(&mut cursor, std::slice::from_ref(&old), &mut changes, true);
    assert!(
        changes.is_empty(),
        "revalidated evidence must survive a long sweep"
    );
}

#[test]
fn a_sweep_starts_when_none_ran_and_only_for_case_collecting_claims() {
    let mut cursor = obj(vec![("session", obj(vec![("offset", num(4))]))]);
    prepare_curation(false, &mut cursor, 500);
    assert_eq!(offset(&cursor), Some("4".to_string()));
    prepare_curation(true, &mut cursor, 500);
    match &cursor {
        JsonValue::Object(f) => {
            assert_eq!(f.len(), 1);
            assert_eq!(f[0].0, "_curation_started");
            assert!(matches!(&f[0].1, JsonValue::Number(n) if n == "500"));
        }
        other => panic!("expected an object, got {:?}", other),
    }
    // A sweep that still has unread pages is not restarted, however old.
    let mut paging = obj(vec![("_curation_started", num(-5)), ("_more", JsonValue::Bool(true))]);
    prepare_curation(true, &mut paging, 1_000_000);
    assert!(matches!(at(&paging, "_curation_started"), Some(JsonValue::Number(n)) if n == "-5"));
}

#[test]
fn the_seen_list_is_sorted_and_keeps_only_earlier_case_episodes() {
    let mut cursor: Vec<(String, JsonValue)> = vec![(
        "_curation_seen".to_string(),
        JsonValue::Array(vec![
            JsonValue::Str("b".into()),
            JsonValue::Str("gone".into()),
            num(7),
            JsonValue::Str("a".into()),
        ]),
    )];
    let previous = vec![
        ("a".to_string(), true),
        ("b".to_string(), false),
        ("c".to_string(), true),
        ("d".to_string(), true),
    ];
    let withdraw = finish_curation(&mut cursor, &previous, &vec!["d".to_string(), "a".to_string()], true);
    assert_eq!(withdraw, vec![2]);
    match &cursor[0].1 {
        JsonValue::Array(items) => {
            let names: Vec<&str> = items
                .iter()
                .map(|v| match v {
                    JsonValue::Str(s) => s.as_str(),
                    _ => panic!("not a string"),
                })
                .collect();
            assert_eq!(names, vec!["a", "b", "d"]);
        }
        other => panic!("expected a list, got {:?}", other),
    }
    assert_eq!(
        withdrawn_reason(),
        "Original evidence was not revalidated in the retained-source sweep"
    );
}
