use choruz_api_gateway::experience::json_to_string;
use choruz_api_gateway::redaction::AppError;
use choruz_api_gateway::sessions::{
    check_launch_owner, check_no_active_turn, command_outcome, direct_anchor_provenance,
    reuse_existing_session, session_action, structured_resume, supports_structured_sessions,
    SessionAnchor, SessionCommandKind,
};

fn anchor(id: &str, path: &str) -> Option<SessionAnchor> {
    Some(SessionAnchor { session_id: id.into(), native_session_path: path.into() })
}

fn some(s: &str) -> Option<String> {
    Some(s.to_string())
}

#[test]
fn structured_sessions_open_only_for_idle_terminal_agents() {
    assert!(supports_structured_sessions("claude_terminal"));
    assert!(supports_structured_sessions("codex_terminal"));
    assert!(!supports_structured_sessions("codex_headless"));
    assert!(check_no_active_turn(false, false).is_ok());
    for (running, in_flight) in [(true, false), (false, true)] {
        match check_no_active_turn(running, in_flight) {
            Err(AppError::Conflict(m)) => assert_eq!(m, "The Agent has an active turn. Wait for it to finish."),
            other => panic!("unexpected {:?}", other),
        }
    }
    assert!(check_launch_owner("o1", "o1").is_ok());
    match check_launch_owner("o1", "o2") {
        Err(AppError::Conflict(m)) => assert_eq!(m, "Agent configuration changed during session launch"),
        other => panic!("unexpected {:?}", other),
    }
}

#[test]
fn live_sessions_are_reused_and_finished_ones_reopened() {
    assert_eq!(reuse_existing_session(Ok("running")).unwrap(), true);
    assert_eq!(reuse_existing_session(Ok("closed")).unwrap(), false);
    assert_eq!(reuse_existing_session(Ok("failed")).unwrap(), false);
    assert_eq!(reuse_existing_session(Err(AppError::NotFound("x".into()))).unwrap(), false);
    match reuse_existing_session(Err(AppError::Internal("host down".into()))) {
        Err(AppError::Internal(m)) => assert_eq!(m, "host down"),
        other => panic!("unexpected {:?}", other),
    }
    assert_eq!(structured_resume(true, some("c"), some("a"), some("e")), some("c"));
    assert_eq!(structured_resume(true, None, some("a"), some("e")), None);
    assert_eq!(structured_resume(false, some("c"), some("a"), some("e")), some("a"));
    assert_eq!(structured_resume(false, some("c"), None, some("e")), some("e"));
}

#[test]
fn reported_sessions_become_anchors_once() {
    let p = direct_anchor_provenance;
    assert_eq!(p(false, some("s1"), some("/h"), some("/h/s1.jsonl"), None), Some("terminal_process_captured"));
    assert_eq!(p(false, some("s1"), some("/h"), None, None), Some("direct_session_reserved"));
    assert_eq!(p(false, some("s1"), some("/h"), some("/h/s1.jsonl"), anchor("s1", "/h/s1.jsonl")), None);
    assert_eq!(p(false, some("s1"), some("/h"), None, anchor("s1", "")), None);
    assert_eq!(
        p(false, some("s1"), some("/h"), some("/h/s1.jsonl"), anchor("s1", "")),
        Some("terminal_process_captured")
    );
    assert_eq!(p(false, some("s2"), some("/h"), None, anchor("s1", "")), Some("direct_session_reserved"));
    assert_eq!(p(true, some("s1"), some("/h"), None, None), None);
    assert_eq!(p(false, None, some("/h"), None, None), None);
    assert_eq!(p(false, some("s1"), None, None, None), None);
}

#[test]
fn session_commands_are_recorded_with_their_outcome() {
    assert_eq!(session_action(SessionCommandKind::Send), "session.send");
    assert_eq!(session_action(SessionCommandKind::Respond), "session.respond");
    assert_eq!(session_action(SessionCommandKind::Interrupt), "session.interrupt");
    assert_eq!(session_action(SessionCommandKind::Close), "session.close");
    assert_eq!(json_to_string(&command_outcome(true, Some("t1"))), r#"{"outcome":"succeeded","trace_id":"t1"}"#);
    assert_eq!(json_to_string(&command_outcome(false, None)), r#"{"outcome":"failed","trace_id":null}"#);
}
