use choruz_api_gateway::access::{
    check_actor_is_operator, check_audit_workspace, check_company_access, check_computer_use_device,
    check_conversation_change, check_conversation_read, check_conversation_use, check_page_direction,
    check_search_query, computer_use_audit_target, created_status, message_page_limit, search_limit,
    search_scope, ConversationChange, ConversationUse,
};
use choruz_api_gateway::redaction::AppError;

fn forbidden(r: Result<(), AppError>) -> String {
    match r {
        Err(AppError::Forbidden(m)) => m,
        other => panic!("unexpected {:?}", other),
    }
}

#[test]
fn agents_cannot_change_their_view_of_conversations() {
    let cases = [
        (ConversationChange::Pin, "agents cannot pin conversations"),
        (ConversationChange::Unpin, "agents cannot unpin conversations"),
        (ConversationChange::Archive, "agents cannot archive conversations"),
        (ConversationChange::Unarchive, "agents cannot unarchive conversations"),
        (ConversationChange::Hide, "agents cannot hide conversations"),
        (ConversationChange::Restore, "agents cannot restore hidden conversations"),
    ];
    for (change, expected) in cases {
        assert_eq!(forbidden(check_conversation_change(true, change)), expected);
    }
    assert!(check_conversation_change(false, ConversationChange::Pin).is_ok());
    assert!(check_actor_is_operator("u1", "u1").is_ok());
    assert_eq!(
        forbidden(check_actor_is_operator("u2", "u1")),
        "authenticated principal does not match actor_id"
    );
}

#[test]
fn companies_and_audit_logs_stay_within_their_workspace() {
    let mine = vec!["c1".to_string(), "c2".to_string()];
    assert!(check_company_access("c2", false, &mine).is_ok());
    assert_eq!(forbidden(check_company_access("c3", false, &mine)), "cannot read company from another workspace");
    match check_company_access("c1", true, &mine) {
        Err(AppError::NotFound(m)) => assert_eq!(m, "company c1"),
        other => panic!("unexpected {:?}", other),
    }
    assert!(check_audit_workspace("w", "w").is_ok());
    assert_eq!(forbidden(check_audit_workspace("w", "x")), "cannot read audit logs from another workspace");
}

#[test]
fn conversations_are_read_only_by_active_members() {
    assert!(check_conversation_read(true, true).is_ok());
    assert_eq!(forbidden(check_conversation_read(false, true)), "conversation is not accessible");
    assert_eq!(forbidden(check_conversation_read(true, false)), "not a member of this conversation");
    assert!(check_conversation_use(true, ConversationUse::Export).is_ok());
    assert_eq!(forbidden(check_conversation_use(false, ConversationUse::View)), "cannot view this conversation");
    assert_eq!(forbidden(check_conversation_use(false, ConversationUse::Export)), "cannot export this conversation");
}

#[test]
fn pages_and_searches_are_bounded() {
    assert_eq!(message_page_limit(None), 50);
    assert_eq!(message_page_limit(Some(0)), 1);
    assert_eq!(message_page_limit(Some(500)), 100);
    assert_eq!(message_page_limit(Some(7)), 7);
    assert_eq!(search_limit(None), 50);
    assert_eq!(search_limit(Some(500)), 100);
    assert_eq!(search_limit(Some(3)), 3);
    assert!(check_page_direction(true, false).is_ok());
    match check_page_direction(true, true) {
        Err(AppError::Validation(m)) => assert_eq!(m, "before_seq and after_seq are mutually exclusive"),
        other => panic!("unexpected {:?}", other),
    }
    match check_search_query("  ") {
        Err(AppError::Validation(m)) => assert_eq!(m, "search query `q` must not be empty"),
        other => panic!("unexpected {:?}", other),
    }
    assert!(check_search_query(" deploy ").is_ok());
    assert_eq!(search_scope(Some(" c1 ")), Some("c1"));
    assert_eq!(search_scope(Some("  ")), None);
    assert_eq!(search_scope(None), None);
}

#[test]
fn computer_use_names_a_company_device_and_audits_changes() {
    assert!(check_computer_use_device(false, false).is_ok());
    assert!(check_computer_use_device(true, true).is_ok());
    match check_computer_use_device(true, false) {
        Err(AppError::NotFound(m)) => assert_eq!(m, "device in this company"),
        other => panic!("unexpected {:?}", other),
    }
    assert_eq!(computer_use_audit_target(true, true, Some("h1")), Some("h1"));
    assert_eq!(computer_use_audit_target(true, true, None), Some("local"));
    assert_eq!(computer_use_audit_target(true, false, Some("h1")), None);
    assert_eq!(created_status(true), 201);
    assert_eq!(created_status(false), 200);
}
