use choruz_api_gateway::redaction::AppError;
use choruz_api_gateway::remote_control::{
    check_active_session_key, check_redemption, device_change_result, gateway_issuer,
    gateway_url, generate_pairing_code, generate_pairing_credential, hosted_ticket, keyed_hash,
    load_settings, merge_session_key, pairing_code_from, pairing_credential_from, pairing_secret,
    plan_gateway_ticket, session_room, signed_ticket, ticket_payload_json, ticket_signing_secret,
    unwrap_session_key, valid_pairing_credential, validate_device, wrap_session_key,
    wrap_session_key_with_nonce, TicketPlan, SESSION_KEY_LEN,
};
use choruz_api_gateway::telemetry::JsonValue;

const HOSTED: &str = "https://choruz-remote-control-gateway.jiachengguo778.workers.dev";

#[test]
fn pairing_credentials_contain_two_independent_128_bit_values() {
    for _ in 0..100 {
        let (id, credential) = generate_pairing_credential();
        assert_eq!(id.len(), 22);
        assert!(valid_pairing_credential(&credential));
        assert!(credential.starts_with(&format!("v1.{id}.")));
    }
    assert!(!valid_pairing_credential("12345678"));
    assert!(!valid_pairing_credential("v1.short.short"));
}

#[test]
fn hosted_session_room_is_opaque_to_the_session_key() {
    let key = "A".repeat(SESSION_KEY_LEN);
    let room = session_room(&key);
    assert_ne!(room, key);
    assert_eq!(room.len(), 64);
    assert!(!room.contains(&key));
}

#[test]
fn hashes_are_purpose_bound() {
    assert_ne!(
        keyed_hash("secret", "pairing", "value"),
        keyed_hash("secret", "gateway-ticket", "value")
    );
}

#[test]
fn validates_device_material() {
    let key = "a".repeat(SESSION_KEY_LEN);
    assert!(validate_device("My browser", &key).is_ok());
    assert!(validate_device("", &key).is_err());
    assert!(validate_device("x".repeat(81).as_str(), &key).is_err());
    assert!(validate_device("Browser", "short").is_err());
}

#[test]
fn session_keys_are_wrapped_and_authenticated_at_rest() {
    let session_key = "a".repeat(SESSION_KEY_LEN);
    let wrapped = wrap_session_key("storage-secret", &session_key).unwrap();
    assert!(!wrapped.contains(&session_key));
    assert_eq!(
        unwrap_session_key("storage-secret", &wrapped).unwrap(),
        session_key
    );
    assert!(unwrap_session_key("wrong-secret", &wrapped).is_err());
}

#[test]
fn keyed_hash_matches_the_hmac_test_vector() {
    // RFC 4231 test case 2 with an empty purpose would need a bare message;
    // here the framing is purpose, NUL, value.
    let h = keyed_hash("key", "p", "v");
    assert_eq!(h.len(), 64);
    assert!(h.chars().all(|c| c.is_ascii_hexdigit() && !c.is_ascii_uppercase()));
    assert_eq!(h, keyed_hash("key", "p", "v"));
    assert_ne!(h, keyed_hash("key", "p\0", "v"));
}

#[test]
fn device_names_count_characters_and_keys_count_bytes() {
    let key = "_-".repeat(21) + "Z";
    assert!(validate_device(&"é".repeat(80), &key).is_ok());
    match validate_device(&"é".repeat(81), &key) {
        Err(AppError::Validation(m)) => assert_eq!(m, "device_name must contain 1 to 80 characters"),
        other => panic!("unexpected {other:?}"),
    }
    match validate_device("ok", &("a".repeat(42) + "=")) {
        Err(AppError::Validation(m)) => assert_eq!(m, "session_key must be a 256-bit base64url value"),
        other => panic!("unexpected {other:?}"),
    }
    assert!(validate_device("  \t ", &key).is_err());
}

#[test]
fn credentials_from_known_bytes() {
    let (id, credential) = pairing_credential_from(&[0u8; 16], &[255u8; 16]);
    assert_eq!(id, "AAAAAAAAAAAAAAAAAAAAAA");
    assert_eq!(credential, "v1.AAAAAAAAAAAAAAAAAAAAAA._____________________w");
    assert!(valid_pairing_credential(&credential));
    assert!(!valid_pairing_credential("v2.AAAAAAAAAAAAAAAAAAAAAA.AAAAAAAAAAAAAAAAAAAAAA"));
    assert!(!valid_pairing_credential("v1.AAAAAAAAAAAAAAAAAAAAAA.AAAAAAAAAAAAAAAAAAAAAA.x"));
    assert!(!valid_pairing_credential("v1.AAAAAAAAAAAAAAAAAAAAA+.AAAAAAAAAAAAAAAAAAAAAA"));
}

#[test]
fn pairing_codes_are_eight_digits() {
    assert_eq!(pairing_code_from(0), "00000000");
    assert_eq!(pairing_code_from(42), "00000042");
    assert_eq!(pairing_code_from(99_999_999), "99999999");
    let code = generate_pairing_code();
    assert_eq!(code.len(), 8);
    assert!(code.chars().all(|c| c.is_ascii_digit()));
}

#[test]
fn wrapping_with_a_fixed_nonce_is_deterministic_and_reversible() {
    let nonce = [7u8; 12];
    let a = wrap_session_key_with_nonce("s", "key-material", &nonce).unwrap();
    let b = wrap_session_key_with_nonce("s", "key-material", &nonce).unwrap();
    assert_eq!(a, b);
    assert!(a.starts_with("v1.BwcHBwcHBwcHBwcH."));
    assert_eq!(unwrap_session_key("s", &a).unwrap(), "key-material");
}

#[test]
fn malformed_wrapped_keys_are_internal_errors() {
    let cases = [
        ("v1.a", "invalid wrapped remote-control session key"),
        ("v2.AAAA.AAAA", "unsupported wrapped remote-control session key"),
        ("v1.*.AAAA", "decode wrapped key nonce"),
        ("v1.AAAA.*", "decode wrapped session key"),
        ("v1.AAAA.AAAA", "invalid wrapped key nonce length"),
        ("v1.AAAAAAAAAAAAAAAA.AAAA", "unwrap remote-control session key"),
    ];
    for (wrapped, message) in cases {
        match unwrap_session_key("s", wrapped) {
            Err(AppError::Internal(m)) => assert_eq!(m, message, "for {wrapped}"),
            other => panic!("unexpected {other:?} for {wrapped}"),
        }
    }
}

#[test]
fn gateway_url_falls_back_to_the_hosted_gateway() {
    assert_eq!(gateway_url(None).as_deref(), Some(HOSTED));
    assert_eq!(gateway_url(Some("  ")).as_deref(), Some(HOSTED));
    assert_eq!(gateway_url(Some("///")).as_deref(), Some(HOSTED));
    assert_eq!(
        gateway_url(Some(" https://gw.example/// ")).as_deref(),
        Some("https://gw.example")
    );
    let settings = load_settings("p1", Some("https://gw.example/"));
    assert_eq!(settings.gateway_url.as_deref(), Some("https://gw.example"));
    assert_eq!(settings.gateway_ticket, None);
}

#[test]
fn issuer_and_pairing_secret() {
    assert_eq!(pairing_secret(None, "session"), "session");
    assert_eq!(pairing_secret(Some("pair".into()), "session"), "pair");
    assert_eq!(gateway_issuer("s"), keyed_hash("s", "remote-control-gateway-issuer", HOSTED));
}

#[test]
fn ticket_payloads_are_sorted_compact_json() {
    assert_eq!(
        ticket_payload_json("room\"1", "host", "pair", 1700000000, None, Some("p-1")),
        "{\"exp\":1700000000,\"pairing_id\":\"p-1\",\"role\":\"host\",\"room\":\"room\\\"1\",\"scope\":\"pair\"}"
    );
    assert_eq!(
        ticket_payload_json("r", "device", "session", -5, Some("d\n"), None),
        "{\"device_id\":\"d\\n\",\"exp\":-5,\"role\":\"device\",\"room\":\"r\",\"scope\":\"session\"}"
    );
}

#[test]
fn tickets_are_signed_locally_with_a_long_secret() {
    assert_eq!(ticket_signing_secret(Some("short".into())), None);
    let secret = "s".repeat(32);
    assert_eq!(ticket_signing_secret(Some(secret.clone())).as_deref(), Some(secret.as_str()));
    let payload = "{\"exp\":1}";
    let ticket = signed_ticket(&secret, payload);
    let (encoded, signature) = ticket.split_once('.').unwrap();
    assert_eq!(encoded, "eyJleHAiOjF9");
    assert_eq!(signature, keyed_hash(&secret, "gateway-ticket", encoded));
    match plan_gateway_ticket(Some(secret.clone()), Some(HOSTED), "p", payload, None) {
        TicketPlan::Signed(t) => assert_eq!(t, ticket),
        other => panic!("unexpected {other:?}"),
    }
    match plan_gateway_ticket(None, Some(HOSTED), "p", payload, Some("pid")) {
        TicketPlan::Hosted(body) => assert_eq!(
            body,
            format!(
                "{{\"issuer\":\"{}\",\"pairing_id\":\"pid\",\"payload\":{{\"exp\":1}}}}",
                gateway_issuer("p")
            )
        ),
        other => panic!("unexpected {other:?}"),
    }
    assert!(matches!(
        plan_gateway_ticket(None, Some("https://other.example"), "p", payload, None),
        TicketPlan::Unavailable
    ));
}

#[test]
fn hosted_replies_carry_the_ticket() {
    let reply = JsonValue::Object(vec![("ticket".into(), JsonValue::Str("t-1".into()))]);
    assert_eq!(hosted_ticket(true, Some(reply)).as_deref(), Some("t-1"));
    let reply = JsonValue::Object(vec![("ticket".into(), JsonValue::Number("1".into()))]);
    assert_eq!(hosted_ticket(true, Some(reply)), None);
    assert_eq!(hosted_ticket(false, None), None);
}

#[test]
fn redemption_checks_and_active_keys() {
    let key = "k".repeat(SESSION_KEY_LEN);
    let (_, credential) = generate_pairing_credential();
    assert!(check_redemption(&credential, "Phone", &key).is_ok());
    match check_redemption("bad", "Phone", &key) {
        Err(AppError::Validation(m)) => assert_eq!(m, "pairing credential is malformed"),
        other => panic!("unexpected {other:?}"),
    }
    let wrapped = wrap_session_key("s", &key).unwrap();
    assert!(check_active_session_key("s", &wrapped, &key).is_ok());
    match check_active_session_key("s", &wrapped, &"j".repeat(SESSION_KEY_LEN)) {
        Err(AppError::Conflict(m)) => {
            assert_eq!(m, "remote-control session key does not match active devices")
        }
        other => panic!("unexpected {other:?}"),
    }
    assert_eq!(merge_session_key(None, "a".into()).unwrap().as_deref(), Some("a"));
    assert!(merge_session_key(Some("a".into()), "a".into()).is_ok());
    assert!(matches!(
        merge_session_key(Some("a".into()), "b".into()),
        Err(AppError::Internal(_))
    ));
    assert!(device_change_result(1).is_ok());
    assert!(matches!(device_change_result(0), Err(AppError::NotFound(_))));
}
