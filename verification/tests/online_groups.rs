use base64::Engine;
use choruz_api_gateway::harness::{check_login_account_id, login_start};
use choruz_api_gateway::identifiers::require_uuid;
use choruz_api_gateway::online_groups::{
    check_invitation, check_invite_owner, check_message_cursor, check_message_id, created_link,
    encode_invitation, existing_link, guest_link, host_link, invitation_bytes, invite_reply,
    join_owner, leave_result, new_group_key, Invitation,
};
use choruz_api_gateway::redaction::AppError;
use choruz_api_gateway::runtime_hosts::{check_account_registration, check_registered_account};
use choruz_api_gateway::telemetry::JsonValue;
use choruz_api_gateway::experience::json_to_string;

const LINK: &str = "550e8400-e29b-41d4-a716-446655440000";

fn obj(fields: Vec<(&str, JsonValue)>) -> JsonValue {
    JsonValue::Object(fields.into_iter().map(|(k, v)| (k.to_string(), v)).collect())
}

fn s(v: &str) -> JsonValue {
    JsonValue::Str(v.to_string())
}

fn message(e: AppError) -> String {
    match e {
        AppError::Validation(m)
        | AppError::Internal(m)
        | AppError::Conflict(m)
        | AppError::Forbidden(m)
        | AppError::NotFound(m)
        | AppError::Unauthorized(m) => m,
        other => panic!("unexpected {:?}", other),
    }
}

fn invitation() -> Invitation {
    Invitation {
        version: 1,
        origin: "https://online.example".into(),
        link: LINK.into(),
        grant: "g".repeat(64),
        key: base64::engine::general_purpose::URL_SAFE_NO_PAD.encode([7u8; 32]),
        conversation: "conv-1".into(),
        name: "Design \"crew\"".into(),
    }
}

#[test]
fn uuids_are_accepted_in_every_text_form() {
    for ok in [
        LINK,
        "550E8400E29B41D4A716446655440000",
        "{550e8400-e29b-41d4-a716-446655440000}",
        "URN:uuid:550e8400-e29b-41d4-a716-446655440000",
    ] {
        assert!(require_uuid(ok, "bad").is_ok(), "{ok}");
    }
    for bad in ["", "550e8400-e29b-41d4-a716-44665544000g", "550e8400e29b-41d4-a716-4466554400000", "x"] {
        assert_eq!(message(require_uuid(bad, "bad").unwrap_err()), "bad");
    }
    assert!(check_message_id(LINK).is_ok());
    assert_eq!(message(check_message_id("m1").unwrap_err()), "Message id must be a UUID");
    assert_eq!(message(check_login_account_id("a").unwrap_err()), "account_id must be a UUID");
}

#[test]
fn invitations_round_trip_through_their_text() {
    let inv = invitation();
    let text = encode_invitation(&inv);
    assert!(text.starts_with("choruz-online."));
    let bytes = invitation_bytes(&format!("  {text}\n")).unwrap();
    let expected = format!(
        r#"{{"version":1,"origin":"https://online.example","link":"{LINK}","grant":"{}","key":"{}","conversation":"conv-1","name":"Design \"crew\""}}"#,
        inv.grant, inv.key
    );
    assert_eq!(String::from_utf8(bytes).unwrap(), expected);
    assert!(check_invitation(&inv, "https://online.example").is_ok());
    for bad in ["choruz-online.!!", "online.abc", &format!("choruz-online.{}", "A".repeat(4090))] {
        assert_eq!(message(invitation_bytes(bad).unwrap_err()), "Invalid Online group invitation");
    }
}

#[test]
fn guests_accept_only_well_formed_invitations_from_their_service() {
    let invalid = |inv: &Invitation, url: &str| message(check_invitation(inv, url).unwrap_err());
    let base = invitation();
    assert_eq!(invalid(&base, "https://other.example"), "Invalid Online group invitation");
    let mut inv = invitation();
    inv.version = 2;
    assert_eq!(invalid(&inv, "https://online.example"), "Invalid Online group invitation");
    let mut inv = invitation();
    inv.link = "not-a-uuid".into();
    assert_eq!(invalid(&inv, "https://online.example"), "Invalid Online group invitation");
    let mut inv = invitation();
    inv.grant = "g".repeat(63);
    assert_eq!(invalid(&inv, "https://online.example"), "Invalid Online group invitation");
    let mut inv = invitation();
    inv.key = base64::engine::general_purpose::URL_SAFE_NO_PAD.encode([7u8; 31]);
    assert_eq!(invalid(&inv, "https://online.example"), "Invalid Online group invitation");
    let mut inv = invitation();
    inv.name = "é".repeat(100);
    assert!(check_invitation(&inv, "https://online.example").is_ok());
    inv.name.push('x');
    assert_eq!(invalid(&inv, "https://online.example"), "Invalid Online group invitation");
}

#[test]
fn joining_decides_on_existing_links_and_the_service_answer() {
    assert_eq!(existing_link(None).unwrap(), false);
    assert_eq!(existing_link(Some(("guest", "active"))).unwrap(), true);
    assert_eq!(existing_link(Some(("guest", "pending"))).unwrap(), true);
    for (role, status) in [("guest", "revoked"), ("host", "active")] {
        assert_eq!(
            message(existing_link(Some((role, status))).unwrap_err()),
            "This invitation is already linked or revoked"
        );
    }
    let data = obj(vec![("owner_id", s("owner")), ("peer_id", s("me"))]);
    assert_eq!(join_owner(200, &data, "me").unwrap(), "owner");
    assert_eq!(
        message(join_owner(409, &data, "me").unwrap_err()),
        "Online invitation expired, was used, or belongs to this account"
    );
    assert_eq!(message(join_owner(200, &data, "other").unwrap_err()), "Invalid Online group invitation");
    let no_owner = obj(vec![("peer_id", s("me"))]);
    assert_eq!(message(join_owner(200, &no_owner, "me").unwrap_err()), "Invalid Online group invitation");
    let link = guest_link("l1".into(), invitation(), "p1".into(), "w1".into(), "me".into(), "owner".into());
    assert_eq!(link.role, "guest");
    assert_eq!(link.status, "pending");
    assert_eq!(link.channel_id, LINK);
    assert_eq!(link.peer_account_id.as_deref(), Some("owner"));
    assert_eq!(link.peer_principal_id, None);
    assert_eq!(link.last_seq, 0);
}

#[test]
fn owners_invite_with_a_fresh_link_and_key() {
    assert!(check_invite_owner("me", "me", true, true).is_ok());
    for (creator, group, member) in [("other", true, true), ("me", false, true), ("me", true, false)] {
        assert_eq!(
            message(check_invite_owner(creator, "me", group, member).unwrap_err()),
            "Only the group owner can invite"
        );
    }
    let data = obj(vec![("id", s(LINK)), ("invitation", s(&"g".repeat(64)))]);
    let (id, grant) = created_link(201, &data).unwrap();
    assert_eq!((id.as_str(), grant.len()), (LINK, 64));
    assert_eq!(
        message(created_link(401, &data).unwrap_err()),
        "Could not create Online invitation; check your Online session"
    );
    let bad_id = obj(vec![("id", s("x")), ("invitation", s(&"g".repeat(64)))]);
    assert_eq!(message(created_link(200, &bad_id).unwrap_err()), "Missing Online link id");
    let short = obj(vec![("id", s(LINK)), ("invitation", s("g"))]);
    assert_eq!(message(created_link(200, &short).unwrap_err()), "Missing Online invitation");
    let key = new_group_key();
    assert_eq!(base64::engine::general_purpose::URL_SAFE_NO_PAD.decode(&key).unwrap().len(), 32);
    assert_ne!(key, new_group_key());
    let link = host_link("l".into(), LINK.into(), "p".into(), "w".into(), "a".into(), "c".into(), "peer".into(), key, None);
    assert_eq!((link.role.as_str(), link.status.as_str(), link.name.as_str()), ("host", "pending", "Group"));
    assert_eq!(link.peer_principal_id.as_deref(), Some("peer"));
    let reply = invite_reply("choruz-online.x".into(), s("2030-01-01T00:00:00Z"));
    assert_eq!(
        json_to_string(&reply),
        r#"{"expires_at":"2030-01-01T00:00:00Z","invitation":"choruz-online.x"}"#
    );
}

#[test]
fn leaving_and_paging_group_messages() {
    assert!(leave_result(204).is_ok());
    assert!(leave_result(404).is_ok());
    assert_eq!(
        message(leave_result(500).unwrap_err()),
        "Group disabled locally; cloud revocation is pending retry"
    );
    assert!(check_message_cursor(0).is_ok());
    assert_eq!(message(check_message_cursor(-1).unwrap_err()), "Invalid message cursor");
}

#[test]
fn hosts_register_accounts_with_checked_fields() {
    assert_eq!(check_account_registration(LINK, "  Main ", "codex_terminal", "default").unwrap(), "Main");
    let cases = [
        ("x", "Main", "codex_terminal", "default", "id must be a UUID"),
        (LINK, "", "codex_terminal", "default", "account name must contain 1 to 80 printable characters"),
        (LINK, "Main", "codex_headless", "default", "driver_type must be claude_terminal or codex_terminal"),
        (LINK, "Main", "claude_terminal", "shared", "profile_kind must be default or isolated"),
    ];
    for (id, name, driver, profile, expected) in cases {
        assert_eq!(message(check_account_registration(id, name, driver, profile).unwrap_err()), expected);
    }
    assert!(check_registered_account(1, false).is_ok());
    assert!(check_registered_account(0, true).is_ok());
    assert_eq!(
        message(check_registered_account(0, false).unwrap_err()),
        "harness account id belongs to another runtime host"
    );
}

#[test]
fn sign_ins_wait_for_the_connector_of_their_host() {
    let start = login_start(true, false);
    assert_eq!((start.state, start.claimed_now, start.runs_locally), ("queued", false, false));
    let start = login_start(true, true);
    assert_eq!((start.state, start.claimed_now, start.runs_locally), ("authorizing", true, false));
    let start = login_start(false, false);
    assert_eq!((start.state, start.claimed_now, start.runs_locally), ("authorizing", true, true));
    let start = login_start(false, true);
    assert_eq!((start.state, start.claimed_now, start.runs_locally), ("authorizing", true, false));
}
