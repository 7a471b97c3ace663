use choruz_api_gateway::harness::{
    host_scope, parse_url, probe_failure_message, probe_failure_status, reported_login_error,
    sanitize_login_error, validate_callback_code, validate_login_url,
};
use choruz_api_gateway::host_onboarding::{
    connector_binary, connector_config_path, executable, onboard_response,
    pairing_failure_message, pairing_request_json, validate, OnboardRequest,
};
use choruz_api_gateway::json_text::push_json_string;
use choruz_api_gateway::redaction::AppError;
use choruz_api_gateway::telemetry::{
    sanitize_telemetry_value, telemetry_key_is_private_content, telemetry_key_is_sensitive,
    JsonValue,
};

fn request() -> OnboardRequest {
    OnboardRequest {
        controller_gateway_url: "https://gateway.example".into(),
        controller_credential: "v1.AAAAAAAAAAAAAAAAAAAAAA.BBBBBBBBBBBBBBBBBBBBBB".into(),
        runtime_host_code: "12345678".into(),
        name: "Build server".into(),
    }
}

#[test]
fn onboarding_requires_both_independent_credentials() {
    assert!(validate(&request()).is_ok());
    let mut invalid = request();
    invalid.runtime_host_code = "1234".into();
    assert!(validate(&invalid).is_err());
    let mut invalid = request();
    invalid.controller_credential = "12345678".into();
    assert!(validate(&invalid).is_err());
}

#[test]
fn config_name_is_stable_without_exposing_credentials() {
    let credential = "v1.AAAAAAAAAAAAAAAAAAAAAA.BBBBBBBBBBBBBBBBBBBBBB";
    let directory = "/var/lib/choruz/connectors";
    let first = connector_config_path("https://gateway.example", credential, "Builder", directory);
    let second = connector_config_path("https://gateway.example", credential, "Builder", directory);
    assert_eq!(first, second);
    assert!(!first.contains("gateway.example"));
    assert!(!first.contains("AAAAAAAA"));
    assert_ne!(
        first,
        connector_config_path(
            "https://gateway.example",
            "v1.CCCCCCCCCCCCCCCCCCCCCC.DDDDDDDDDDDDDDDDDDDDDD",
            "Builder",
            directory,
        )
    );
}

#[test]
fn onboarding_reports_each_refusal() {
    let cases: Vec<(fn(&mut OnboardRequest), &str)> = vec![
        (|r| r.controller_credential = " v1.x.y ".into(), "controller_credential is malformed"),
        (|r| r.runtime_host_code = "1234567a".into(), "runtime_host_code must contain exactly 8 digits"),
        (|r| r.name = "  ".into(), "name must contain between 1 and 80 printable characters"),
        (|r| r.name = "é".repeat(41), "name must contain between 1 and 80 printable characters"),
        (|r| r.name = "a\tb".into(), "name must contain between 1 and 80 printable characters"),
        (|r| r.controller_gateway_url = "not a url".into(), "controller_gateway_url is invalid"),
        (|r| r.controller_gateway_url = "ftp://gateway.example".into(), "controller_gateway_url must be an HTTP or HTTPS URL"),
    ];
    for (change, message) in cases {
        let mut r = request();
        change(&mut r);
        match validate(&r) {
            Err(AppError::Validation(m)) => assert_eq!(m, message),
            other => panic!("unexpected {other:?} for {message}"),
        }
    }
    let mut r = request();
    r.controller_credential = "  v1.AAAAAAAAAAAAAAAAAAAAAA.BBBBBBBBBBBBBBBBBBBBBB ".into();
    r.controller_gateway_url = " http://10.0.0.2:3000 ".into();
    assert!(validate(&r).is_ok());
}

#[test]
fn connector_binaries_and_results() {
    assert_eq!(executable("/bin/c".into(), true).unwrap(), "/bin/c");
    match executable("/nope".into(), false) {
        Err(AppError::Internal(m)) => {
            assert_eq!(m, "CHORUZ_CONNECTOR_BINARY does not point to a file: /nope")
        }
        other => panic!("unexpected {other:?}"),
    }
    assert_eq!(connector_binary(None, Some("/opt/choruz-connector".into())).unwrap(), "/opt/choruz-connector");
    assert_eq!(connector_binary(None, None).unwrap(), "choruz-connector");
    assert!(connector_binary(Some(("/x".into(), false)), Some("/y".into())).is_err());
    assert_eq!(pairing_failure_message("a\nlast words\n"), "connector pairing failed: last words");
    assert_eq!(pairing_failure_message(""), "connector pairing failed: unknown error");
    let ok = JsonValue::Object(vec![
        ("host_name".into(), JsonValue::Str("Builder".into())),
        ("host_id".into(), JsonValue::Str("h-1".into())),
    ]);
    assert_eq!(onboard_response(&ok).unwrap(), ("h-1".to_string(), "Builder".to_string()));
    let missing_name = JsonValue::Object(vec![("host_id".into(), JsonValue::Str("h-1".into()))]);
    match onboard_response(&missing_name) {
        Err(AppError::Internal(m)) => assert_eq!(m, "connector did not return a host name"),
        other => panic!("unexpected {other:?}"),
    }
    match onboard_response(&JsonValue::Null) {
        Err(AppError::Internal(m)) => assert_eq!(m, "connector did not return a host id"),
        other => panic!("unexpected {other:?}"),
    }
    assert_eq!(
        pairing_request_json(&request()),
        "{\"credential\":\"v1.AAAAAAAAAAAAAAAAAAAAAA.BBBBBBBBBBBBBBBBBBBBBB\",\"gateway_url\":\"https://gateway.example\",\"name\":\"Build server\",\"runtime_host_code\":\"12345678\"}"
    );
}

#[test]
fn json_strings_escape_like_serde_json() {
    for text in ["plain", "quote\" back\\slash", "ctl\u{0}\u{1f}\u{8}\u{c}\n\r\t", "é ✓ \u{7f}"] {
        let mut out = String::new();
        push_json_string(&mut out, text);
        assert_eq!(out, serde_json::to_string(text).unwrap(), "{text:?}");
    }
}

#[test]
fn login_errors_and_codes() {
    assert_eq!(sanitize_login_error("  token expired  "), "token expired");
    assert_eq!(sanitize_login_error(""), "Harness login failed");
    assert_eq!(sanitize_login_error("line\nbreak"), "Harness login failed");
    assert_eq!(sanitize_login_error(&"x".repeat(501)), "Harness login failed");
    assert_eq!(sanitize_login_error(&"x".repeat(500)), "x".repeat(500));
    assert_eq!(reported_login_error(None), "Harness login failed");
    assert_eq!(validate_callback_code(" abc ").unwrap(), "abc");
    assert!(matches!(validate_callback_code("a\u{7}"), Err(AppError::Validation(_))));
    assert_eq!(validate_login_url(" https://auth.example/x ").unwrap(), "https://auth.example/x");
    match validate_login_url("http://auth.example") {
        Err(AppError::Validation(m)) => assert_eq!(m, "authorization_url must be a valid HTTPS URL"),
        other => panic!("unexpected {other:?}"),
    }
    let u = parse_url("https://a.example/p?q#f").unwrap();
    assert_eq!((u.scheme.as_str(), u.host.as_deref(), u.path.as_str()), ("https", Some("a.example"), "/p"));
    assert!(u.has_query && u.has_fragment && !u.has_password && u.username.is_empty());
    let scope = host_scope("host-1", "company-1", "login-1".into());
    assert_eq!(scope.runtime_host_id.as_deref(), Some("host-1"));
    assert_eq!(scope.company_id, "company-1");
}

#[test]
fn probe_failures_are_explained_without_harness_output() {
    assert_eq!(
        probe_failure_message("conflict: conflict: Account not connected to host"),
        "Account not connected to host"
    );
    assert_eq!(
        probe_failure_message("OAuth refresh failed: secret=abc"),
        "Harness login is invalid; sign in to this profile and verify again"
    );
    assert_eq!(probe_failure_message("request TIMED OUT"), "Harness account probe timed out");
    assert_eq!(
        probe_failure_message("failed to start the harness"),
        "Harness binary is not configured on this device"
    );
    assert_eq!(
        probe_failure_message("rate limits missing"),
        "Harness did not return exact quota data for this account"
    );
    assert_eq!(probe_failure_message("boom"), "Harness account probe failed");
    assert_eq!(probe_failure_status("Harness login is invalid; sign in to this profile and verify again"), "reauth_required");
    assert_eq!(probe_failure_status("Harness account probe failed"), "error");
}

#[test]
fn telemetry_keys_are_classified() {
    for key in ["Authorization", "set-cookie", "data_base64", "file-name", "userPassword", "api_key_secret", "sessionToken", "config_path", "CSRF_TOKEN", "pairing_credential"] {
        assert!(telemetry_key_is_sensitive(key), "{key}");
    }
    for key in ["event", "duration_ms", "count"] {
        assert!(!telemetry_key_is_sensitive(key), "{key}");
    }
    assert!(telemetry_key_is_private_content("Message"));
    assert!(!telemetry_key_is_private_content("messages"));
}

fn s(v: &str) -> JsonValue {
    JsonValue::Str(v.into())
}

#[test]
fn telemetry_values_are_scrubbed() {
    let input = JsonValue::Object(vec![
        ("event".into(), s("send token=abc")),
        ("privacy".into(), s("private")),
        ("content".into(), s("hello")),
        ("auth_token".into(), JsonValue::Number("5".into())),
        (
            "items".into(),
            JsonValue::Array(vec![s("Bearer xyz"), JsonValue::Bool(true), JsonValue::Object(vec![("text".into(), s("kept"))])]),
        ),
    ]);
    let out = sanitize_telemetry_value(input);
    let JsonValue::Object(fields) = out else { panic!("object expected") };
    let get = |k: &str| fields.iter().find(|(n, _)| n == k).map(|(_, v)| v);
    assert!(matches!(get("event"), Some(JsonValue::Str(v)) if v == "send token=[REDACTED]"));
    assert!(matches!(get("content"), Some(JsonValue::Str(v)) if v == "[REDACTED]"));
    assert!(matches!(get("auth_token"), Some(JsonValue::Str(v)) if v == "[REDACTED]"));
    assert!(matches!(get("privacy"), Some(JsonValue::Str(v)) if v == "private"));
    let Some(JsonValue::Array(items)) = get("items") else { panic!("array expected") };
    assert!(matches!(&items[0], JsonValue::Str(v) if v == "Bearer [REDACTED]"));
    assert!(matches!(&items[1], JsonValue::Bool(true)));
    let JsonValue::Object(inner) = &items[2] else { panic!("object expected") };
    assert!(matches!(&inner[0].1, JsonValue::Str(v) if v == "kept"));
    let public = sanitize_telemetry_value(JsonValue::Object(vec![
        ("private".into(), s("yes")),
        ("is_private".into(), JsonValue::Bool(true)),
        ("text".into(), s("visible")),
    ]));
    let JsonValue::Object(fields) = public else { panic!("object expected") };
    assert!(matches!(&fields[2].1, JsonValue::Str(v) if v == "visible"));
}
