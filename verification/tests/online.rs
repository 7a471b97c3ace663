use choruz_api_gateway::online::{
    authentication_error, check_credentials, check_not_signed_in, revocation_result,
    service_url, session_still_active, sign_in_body, signed_in_identity, RetryAfter,
};
use choruz_api_gateway::redaction::{error_status, retry_after_header, AppError};
use choruz_api_gateway::telemetry::JsonValue;

#[test]
fn account_rate_limit_preserves_retry_delay() {
    // Either header (`retry-after`, else `x-retry-after`) carries the text "7".
    for signup in [false, true] {
        let error = authentication_error(429, RetryAfter::Text("7".into()), signup);
        assert!(matches!(error, AppError::RateLimited { retry_after_ms: 7000 }));
        assert_eq!(error_status(&error), 429);
        assert_eq!(retry_after_header(&error).as_deref(), Some("7"));
    }
    assert_eq!(retry_after_header(&AppError::RateLimited { retry_after_ms: 1 }).as_deref(), Some("1"));
    assert_eq!(retry_after_header(&AppError::RateLimited { retry_after_ms: 60000 }).as_deref(), Some("60"));
    assert_eq!(retry_after_header(&AppError::Internal("x".into())), None);
    assert!(matches!(
        authentication_error(429, RetryAfter::Absent, false),
        AppError::RateLimited { retry_after_ms: 60000 }
    ));
    assert!(matches!(
        authentication_error(429, RetryAfter::Text("0".into()), false),
        AppError::RateLimited { retry_after_ms: 1000 }
    ));
    assert!(matches!(
        authentication_error(429, RetryAfter::Text("18446744073709551615".into()), false),
        AppError::RateLimited { retry_after_ms: u64::MAX }
    ));
    assert!(matches!(
        authentication_error(429, RetryAfter::Unreadable, false),
        AppError::RateLimited { retry_after_ms: 60000 }
    ));
    match authentication_error(401, RetryAfter::Absent, true) {
        AppError::Validation(m) => assert!(m.starts_with("Online registration rejected.")),
        other => panic!("unexpected {other:?}"),
    }
    match authentication_error(503, RetryAfter::Absent, false) {
        AppError::Internal(m) => assert_eq!(m, "Online account service is unavailable"),
        other => panic!("unexpected {other:?}"),
    }
}

#[test]
fn service_origins_must_be_https_or_loopback_http() {
    assert_eq!(
        service_url(None).unwrap(),
        "https://choruz-remote-control-gateway.jiachengguo778.workers.dev"
    );
    assert_eq!(service_url(Some("https://online.example/")).unwrap(), "https://online.example");
    assert_eq!(service_url(Some("http://127.0.0.1:8787")).unwrap(), "http://127.0.0.1:8787");
    for bad in ["http://online.example", "https://u:p@online.example", "https://online.example/x", "https://online.example/?q"] {
        match service_url(Some(bad)) {
            Err(AppError::Validation(m)) => assert!(m.starts_with("CHORUZ_ONLINE_URL must be an HTTPS origin"), "{bad}"),
            other => panic!("unexpected {other:?} for {bad}"),
        }
    }
    match service_url(Some("online.example")) {
        Err(AppError::Validation(m)) => assert_eq!(m, "Invalid CHORUZ_ONLINE_URL"),
        other => panic!("unexpected {other:?}"),
    }
}

#[test]
fn credentials_are_bounded() {
    assert!(check_credentials("a@b.c", "pw", None, false).is_ok());
    assert!(check_credentials("a@b.c", "", None, false).is_err());
    assert!(check_credentials("a@b.c", "pw", None, true).is_err());
    assert!(check_credentials("a@b.c", "pw", Some("  "), true).is_err());
    assert!(check_credentials("a@b.c", "pw", Some("Ann"), true).is_ok());
    assert!(check_credentials(&"e".repeat(255), "pw", None, false).is_err());
    assert!(matches!(check_not_signed_in(true), Err(AppError::Conflict(_))));
    assert_eq!(
        sign_in_body(" a@b.c ", "p\"w", None),
        "{\"email\":\"a@b.c\",\"name\":null,\"password\":\"p\\\"w\"}"
    );
    assert_eq!(
        sign_in_body("a@b.c", "pw", Some("Ann")),
        "{\"email\":\"a@b.c\",\"name\":\"Ann\",\"password\":\"pw\"}"
    );
}

fn obj(fields: Vec<(&str, JsonValue)>) -> JsonValue {
    JsonValue::Object(fields.into_iter().map(|(k, v)| (k.to_string(), v)).collect())
}

#[test]
fn identities_and_sessions_are_read_from_replies() {
    let reply = obj(vec![
        ("token", JsonValue::Str("tok".into())),
        ("user", obj(vec![("id", JsonValue::Str("acc".into())), ("name", JsonValue::Str("Ann".into()))])),
    ]);
    assert_eq!(
        signed_in_identity(&reply).unwrap(),
        ("acc".to_string(), "tok".to_string(), "Ann".to_string())
    );
    let incomplete = obj(vec![("token", JsonValue::Str(String::new()))]);
    assert!(matches!(signed_in_identity(&incomplete), Err(AppError::Internal(_))));
    assert_eq!(session_still_active(401, None, "acc").unwrap(), false);
    assert_eq!(session_still_active(200, Some(&reply), "acc").unwrap(), true);
    assert_eq!(session_still_active(200, Some(&reply), "other").unwrap(), false);
    assert!(session_still_active(500, None, "acc").is_err());
    assert!(revocation_result(204).is_ok());
    assert!(revocation_result(401).is_ok());
    assert!(revocation_result(500).is_err());
}
