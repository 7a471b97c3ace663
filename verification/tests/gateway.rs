use choruz_api_gateway::attachments::{
    check_attachment_delete, check_attachment_read, check_payload, download_path,
    attachment_record, effective_content_type, is_source_file, mime_allowed, prepare_attachment,
    UploadAttachmentRequest,
};
use choruz_api_gateway::config::{
    parse_int_text, required_or_default_value, Config, ConfigEnv, EnvRead, ParseIntFailure,
};
use choruz_api_gateway::cron::{
    check_agent_workspace_access, check_cron_conversation, compute_initial_next_run,
    default_delivery_mode, default_session_target, default_timeout, parse_interval,
    validate_schedule_type, UtcInstant,
};
use choruz_api_gateway::filesystem::{
    check_editable_metadata, check_write_sizes, editable_content, entry_type, looks_binary,
    path_is_within_roots, validate_path_under_home, validate_path_whitelist,
};
use choruz_api_gateway::redaction::{
    bearer_token_value, check_actor, check_human_operator, check_self, error_status,
    is_legacy_channel_task_media_type, redact_after_marker, redact_sensitive_text,
    sanitize_app_error, AppError,
};

fn instant(t: chrono::DateTime<chrono::Utc>) -> UtcInstant {
    UtcInstant { secs: t.timestamp(), nanos: t.timestamp_subsec_nanos() }
}

fn datetime(i: UtcInstant) -> chrono::DateTime<chrono::Utc> {
    chrono::DateTime::from_timestamp(i.secs, i.nanos).unwrap()
}

fn next_run(schedule_type: &str, value: &str) -> Option<chrono::DateTime<chrono::Utc>> {
    compute_initial_next_run(schedule_type, value, instant(chrono::Utc::now())).map(datetime)
}

fn interval(s: &str) -> Option<chrono::Duration> {
    parse_interval(s).map(chrono::Duration::seconds)
}

// ── Cron ──────────────────────────────────────────────────────────────

#[test]
fn parse_interval_returns_none_for_empty_input() {
    assert!(interval("").is_none());
    assert!(interval("   ").is_none());
}

#[test]
fn parse_interval_handles_seconds_minutes_hours_days() {
    assert_eq!(interval("30s"), Some(chrono::Duration::seconds(30)));
    assert_eq!(interval("15m"), Some(chrono::Duration::minutes(15)));
    assert_eq!(interval("2h"), Some(chrono::Duration::hours(2)));
    assert_eq!(interval("7d"), Some(chrono::Duration::days(7)));
}

#[test]
fn parse_interval_trims_whitespace() {
    assert_eq!(interval("  10m  "), Some(chrono::Duration::minutes(10)));
}

#[test]
fn parse_interval_falls_back_to_minutes_for_bare_integers() {
    assert_eq!(interval("45"), Some(chrono::Duration::minutes(45)));
}

#[test]
fn parse_interval_returns_none_for_unparseable_input() {
    assert!(interval("abc").is_none());
    assert!(interval("10x").is_none());
    assert!(interval("forty-five").is_none());
}

#[test]
fn parse_interval_accepts_zero_and_negative_intervals() {
    assert_eq!(interval("0s"), Some(chrono::Duration::seconds(0)));
    assert_eq!(interval("-5m"), Some(chrono::Duration::minutes(-5)));
}

#[test]
fn parse_interval_counts_any_bare_integer_as_minutes() {
    assert_eq!(interval("5"), Some(chrono::Duration::minutes(5)));
    assert_eq!(interval(" 7 "), Some(chrono::Duration::minutes(7)));
    assert!(interval("s").is_none());
    assert!(interval("5é").is_none());
    assert!(interval("é").is_none());
    assert_eq!(interval("+3h"), Some(chrono::Duration::hours(3)));
    assert_eq!(next_run("every", "x5"), None);
}

#[test]
fn compute_initial_next_run_every_returns_now_plus_interval() {
    let before = chrono::Utc::now();
    let next = next_run("every", "30s").unwrap();
    let after = chrono::Utc::now();
    let lo = before + chrono::Duration::seconds(30);
    let hi = after + chrono::Duration::seconds(30);
    assert!(next >= lo && next <= hi, "{next} not in [{lo}, {hi}]");
}

#[test]
fn compute_initial_next_run_cron_returns_one_minute_from_now() {
    let before = chrono::Utc::now();
    let next = next_run("cron", "0 * * * *").unwrap();
    let delta = next - before;
    assert!(delta >= chrono::Duration::seconds(58));
    assert!(delta <= chrono::Duration::seconds(62));
}

#[test]
fn compute_initial_next_run_at_parses_iso_datetime() {
    let next = next_run("at", "2030-01-01T12:00:00Z").unwrap();
    assert_eq!(next.to_rfc3339(), "2030-01-01T12:00:00+00:00");
}

#[test]
fn compute_initial_next_run_at_returns_none_for_unparseable_value() {
    assert!(next_run("at", "not-a-date").is_none());
}

#[test]
fn compute_initial_next_run_every_returns_none_for_invalid_interval() {
    assert!(next_run("every", "garbage").is_none());
}

#[test]
fn compute_initial_next_run_returns_none_for_unknown_schedule_type() {
    assert!(next_run("hourly", "anything").is_none());
    assert!(next_run("", "30s").is_none());
}

#[test]
fn first_run_keeps_the_sub_second_part_of_now() {
    let now = UtcInstant { secs: 1_000, nanos: 5 };
    assert_eq!(
        compute_initial_next_run("every", "2m", now),
        Some(UtcInstant { secs: 1_120, nanos: 5 })
    );
    assert_eq!(
        compute_initial_next_run("cron", "* * * * *", now),
        Some(UtcInstant { secs: 1_060, nanos: 5 })
    );
}

#[test]
fn default_session_target_uses_existing_constant() {
    assert!(!default_session_target().is_empty());
}

#[test]
fn default_delivery_mode_uses_existing_constant() {
    assert!(!default_delivery_mode().is_empty());
}

#[test]
fn default_timeout_is_positive() {
    assert!(default_timeout() > 0);
}

#[test]
fn cron_defaults_are_exact() {
    assert_eq!(default_session_target(), "main");
    assert_eq!(default_delivery_mode(), "announce");
    assert_eq!(default_timeout(), 600);
}

#[test]
fn schedule_types_and_access() {
    assert!(validate_schedule_type("every").is_ok());
    assert!(matches!(validate_schedule_type("Every"), Err(AppError::Validation(_))));
    assert!(check_cron_conversation("ws", "ws", true).is_ok());
    assert!(matches!(check_cron_conversation("ws", "other", true), Err(AppError::Forbidden(_))));
    assert!(matches!(check_cron_conversation("ws", "ws", false), Err(AppError::Forbidden(_))));
    let companies = vec!["c1".to_string(), "c2".to_string()];
    assert!(check_agent_workspace_access(true, "ws", &companies, "ws").is_ok());
    assert!(check_agent_workspace_access(true, "ws", &companies, "c2").is_ok());
    match check_agent_workspace_access(true, "ws", &companies, "c3") {
        Err(AppError::Forbidden(m)) => assert_eq!(m, "cross-workspace access denied"),
        other => panic!("unexpected {other:?}"),
    }
    match check_agent_workspace_access(false, "ws", &companies, "ws") {
        Err(AppError::NotFound(m)) => assert_eq!(m, "agent not found"),
        other => panic!("unexpected {other:?}"),
    }
}

// ── Filesystem ────────────────────────────────────────────────────────

#[test]
fn looks_binary_returns_false_for_pure_text() {
    assert!(!looks_binary(b"hello world\n"));
    assert!(!looks_binary("café résumé\n".as_bytes()));
}

#[test]
fn looks_binary_returns_true_when_first_bytes_contain_nul() {
    assert!(looks_binary(b"hello\0world"));
}

#[test]
fn looks_binary_only_inspects_first_8kb() {
    let mut buf = vec![b'a'; 8192];
    buf.push(0);
    assert!(!looks_binary(&buf));
}

#[test]
fn looks_binary_handles_empty_input() {
    assert!(!looks_binary(&[]));
}

#[test]
fn validate_path_whitelist_accepts_paths_under_a_root() {
    let roots = vec!["/tmp/allowed".to_string()];
    assert!(validate_path_whitelist("/tmp/allowed/inner", &roots).is_ok());
    assert!(validate_path_whitelist("/tmp/allowed", &roots).is_ok());
}

#[test]
fn validate_path_whitelist_rejects_paths_outside_all_roots() {
    let roots = vec!["/tmp/allowed".to_string()];
    let err = validate_path_whitelist("/etc/passwd", &roots).unwrap_err();
    assert!(matches!(err, AppError::Forbidden(_)));
}

#[test]
fn validate_path_under_home_accepts_paths_inside_home() {
    assert!(validate_path_under_home("/tmp/myhome/work/file.txt", Some("/tmp/myhome")).is_ok());
}

#[test]
fn validate_path_under_home_rejects_paths_outside_home() {
    let err = validate_path_under_home("/etc/secret", Some("/tmp/myhome")).unwrap_err();
    assert!(matches!(err, AppError::Forbidden(_)));
}

#[test]
fn path_prefixes_match_whole_components() {
    let roots = vec!["/tmp/a".to_string(), "/srv/data/".to_string()];
    assert!(!path_is_within_roots("/tmp/ab", &roots));
    assert!(path_is_within_roots("/tmp//a/./b", &roots));
    assert!(path_is_within_roots("/srv/data", &roots));
    assert!(!path_is_within_roots("tmp/a", &roots));
    assert!(validate_path_under_home("/anything", None).is_ok());
    match validate_path_whitelist("/etc", &roots) {
        Err(AppError::Forbidden(m)) => assert_eq!(m, "path /etc is outside allowed browse roots"),
        other => panic!("unexpected {other:?}"),
    }
}

#[test]
fn editor_reads_only_small_utf8_text() {
    assert!(check_editable_metadata(true, 1_048_576).is_ok());
    match check_editable_metadata(true, 1_048_577) {
        Err(AppError::Validation(m)) => assert_eq!(m, "file too large (1048577 bytes, max 1048576)"),
        other => panic!("unexpected {other:?}"),
    }
    match check_editable_metadata(false, 1) {
        Err(AppError::Validation(m)) => assert_eq!(m, "path is not a file"),
        other => panic!("unexpected {other:?}"),
    }
    assert_eq!(editable_content("héllo".as_bytes().to_vec()).unwrap(), "héllo");
    match editable_content(vec![0xff, 0xfe]) {
        Err(AppError::Validation(m)) => assert_eq!(m, "binary file, cannot display"),
        other => panic!("unexpected {other:?}"),
    }
    assert!(editable_content(b"a\0b".to_vec()).is_err());
    assert!(check_write_sizes(10, 1_048_577).is_err());
    assert_eq!(entry_type(true, false), "directory");
    assert_eq!(entry_type(false, true), "file");
    assert_eq!(entry_type(false, false), "other");
}

// ── Attachments ───────────────────────────────────────────────────────

fn upload(filename: &str, content_type: &str, data: &str) -> UploadAttachmentRequest {
    UploadAttachmentRequest {
        actor_id: "u1".into(),
        filename: filename.into(),
        content_type: content_type.into(),
        data_base64: data.into(),
    }
}

#[test]
fn source_files_and_allowed_types() {
    assert!(is_source_file("main.PY"));
    assert!(is_source_file("archive.tar.rs"));
    assert!(!is_source_file("md"));
    assert!(!is_source_file("py"));
    assert!(is_source_file(".py"));
    assert!(!is_source_file("py."));
    assert!(!is_source_file("index.html"));
    assert!(mime_allowed("IMAGE/png; charset=x"));
    assert!(mime_allowed(" text/plain "));
    assert!(!mime_allowed("text/html"));
    assert!(!mime_allowed("application/javascript"));
}

#[test]
fn uploads_are_checked_before_and_after_decoding() {
    match prepare_attachment(&upload(" ", "text/plain", "aGk=")) {
        Err(AppError::Validation(m)) => assert_eq!(m, "filename is required"),
        other => panic!("unexpected {other:?}"),
    }
    match prepare_attachment(&upload("a.txt", "", "aGk=")) {
        Err(AppError::Validation(m)) => assert_eq!(m, "content_type is required"),
        other => panic!("unexpected {other:?}"),
    }
    match prepare_attachment(&upload("../a.txt", "text/plain", "aGk=")) {
        Err(AppError::Validation(m)) => assert_eq!(m, "filename must not contain path separators"),
        other => panic!("unexpected {other:?}"),
    }
    match prepare_attachment(&upload("a.txt", "text/plain", "***")) {
        Err(AppError::Validation(m)) => assert!(m.starts_with("invalid attachment payload: ")),
        other => panic!("unexpected {other:?}"),
    }
    match prepare_attachment(&upload("a.txt", "text/plain", "")) {
        Err(AppError::Validation(m)) => assert_eq!(m, "attachment is empty"),
        other => panic!("unexpected {other:?}"),
    }
    let ok = prepare_attachment(&upload("a.txt", "text/plain; charset=utf-8", "aGk=")).unwrap();
    assert_eq!(ok.bytes, b"hi");
    assert_eq!(ok.content_type, "text/plain");
    let py = prepare_attachment(&upload("tool.py", "text/x-python-script", "cHJpbnQoMSk=")).unwrap();
    assert_eq!(py.content_type, "text/plain");
    match prepare_attachment(&upload("page.html", "text/html", "PGgxPg==")) {
        Err(AppError::Validation(m)) => assert_eq!(m, "content_type text/html is not allowed"),
        other => panic!("unexpected {other:?}"),
    }
    let png = prepare_attachment(&upload("x.html", "text/html", "iVBORw0KGgoAAAANSUhEUg==")).unwrap();
    assert_eq!(png.content_type, "image/png");
}

#[test]
fn payload_size_is_capped() {
    match check_payload(Ok(vec![0u8; 26_214_401])) {
        Err(AppError::Validation(m)) => {
            assert_eq!(m, "attachment exceeds 26214400 bytes (got 26214401)")
        }
        other => panic!("unexpected {other:?}"),
    }
    assert!(check_payload(Ok(vec![1u8; 26_214_400])).is_ok());
    let up = upload("notes", "text/csv;x=1", "");
    assert_eq!(effective_content_type(&up, None).unwrap(), "text/csv");
    assert_eq!(effective_content_type(&up, Some("image/gif".into())).unwrap(), "image/gif");
}

#[test]
fn attachment_access_rules() {
    assert_eq!(download_path("a1"), "/v1/attachments/a1");
    assert!(check_attachment_read("o", "o", false).is_ok());
    assert!(check_attachment_read("o", "x", true).is_ok());
    assert!(matches!(check_attachment_read("o", "x", false), Err(AppError::Forbidden(_))));
    assert!(check_attachment_delete("o", "o", false).is_ok());
    assert!(matches!(check_attachment_delete("o", "x", false), Err(AppError::Forbidden(_))));
    assert!(matches!(check_attachment_delete("o", "o", true), Err(AppError::Conflict(_))));
}

// ── Configuration ─────────────────────────────────────────────────────

#[test]
fn explicit_empty_secret_is_rejected() {
    let error = required_or_default_value(
        "CHORUZ_SESSION_SECRET",
        EnvRead::Value("  ".to_string()),
        "choruz-local-session-secret",
    )
    .expect_err("empty secret must not silently select the default");

    assert_eq!(error, "CHORUZ_SESSION_SECRET must not be empty");
}

#[test]
fn missing_secret_uses_the_characterized_default() {
    let value = required_or_default_value(
        "CHORUZ_SESSION_SECRET",
        EnvRead::Missing,
        "choruz-local-session-secret",
    )
    .expect("unset secret should use the development default");

    assert_eq!(value, "choruz-local-session-secret");
}

#[test]
fn unreadable_secret_names_the_variable() {
    let error = required_or_default_value("X", EnvRead::Unreadable("bad".into()), "d").unwrap_err();
    assert_eq!(error, "unable to read X: bad");
}

fn env() -> ConfigEnv {
    ConfigEnv {
        env_name: None,
        session_secret: EnvRead::Missing,
        operator_password: EnvRead::Missing,
        session_ttl_hours: None,
        api_port: None,
        api_host: None,
        attachment_dir: None,
        agent_tokens_file: None,
        operator_workspace: None,
        operator_user: None,
    }
}

#[test]
fn configuration_defaults_and_number_errors() {
    let c = Config::from_values(env()).unwrap();
    assert_eq!(c.api_port, 3000);
    assert_eq!(c.api_host, "127.0.0.1");
    assert_eq!(c.session_ttl_hours, 87600);
    assert_eq!(c.env_name, "development");
    assert_eq!(c.attachment_dir, ".choruz-runtime/attachments");
    assert!(c.production_violation().is_none());
    let mut e = env();
    e.api_port = Some("70000".into());
    assert_eq!(
        Config::from_values(e).unwrap_err(),
        "CHORUZ_API_PORT is not a valid u16: number too large to fit in target type"
    );
    let mut e = env();
    e.session_ttl_hours = Some("".into());
    assert_eq!(
        Config::from_values(e).unwrap_err(),
        "CHORUZ_SESSION_TTL_HOURS is not a valid integer: cannot parse integer from empty string"
    );
    let mut e = env();
    e.env_name = Some("production".into());
    let c = Config::from_values(e).unwrap();
    assert_eq!(
        c.production_violation().as_deref(),
        Some("FATAL: CHORUZ_SESSION_SECRET must be set when CHORUZ_ENV=production")
    );
}

#[test]
fn integer_parsing_matches_the_standard_parser() {
    for s in ["0", "+7", "-7", "", "-", "+", "12x", "99999999999999999999x", "-9223372036854775808", "9223372036854775808", "-9223372036854775809", " 1"] {
        let expected = s.parse::<i64>();
        let got = parse_int_text(s, i64::MIN, i64::MAX);
        match (expected, got) {
            (Ok(a), Ok(b)) => assert_eq!(a, b, "{s}"),
            (Err(e), Err(f)) => {
                let kind = match f {
                    ParseIntFailure::Empty => std::num::IntErrorKind::Empty,
                    ParseIntFailure::InvalidDigit => std::num::IntErrorKind::InvalidDigit,
                    ParseIntFailure::PosOverflow => std::num::IntErrorKind::PosOverflow,
                    ParseIntFailure::NegOverflow => std::num::IntErrorKind::NegOverflow,
                };
                assert_eq!(e.kind(), &kind, "{s}");
            }
            (a, b) => panic!("{s}: {a:?} vs {b:?}"),
        }
    }
    for s in ["65535", "65536", "-1", "+0"] {
        let expected = s.parse::<u16>().ok().map(i64::from);
        assert_eq!(parse_int_text(s, 0, 65535).ok(), expected, "{s}");
    }
}

// ── Authentication and redaction ──────────────────────────────────────

#[test]
fn legacy_channel_task_media_type_is_rejected() {
    assert!(is_legacy_channel_task_media_type(&format!(
        "application/vnd.{}.channel-task+json",
        ["e", "chat"].concat()
    )));
    assert!(!is_legacy_channel_task_media_type(
        "application/vnd.choruz.channel-task+json"
    ));
}

#[test]
fn secrets_are_redacted_from_text() {
    assert_eq!(
        redact_sensitive_text("Authorization: Bearer abc.def, token=xyz password: hunter2"),
        "Authorization: Bearer [REDACTED], token=[REDACTED] password:[REDACTED]"
    );
    assert_eq!(redact_after_marker("secret=\"x\"", "secret="), "secret=[REDACTED]\"x\"");
    assert_eq!(redact_sensitive_text("nothing here"), "nothing here");
}

#[test]
fn error_details_are_redacted_and_statuses_kept() {
    match sanitize_app_error(AppError::Internal("db token=abc failed".into())) {
        AppError::Internal(m) => assert_eq!(m, "db token=[REDACTED] failed"),
        other => panic!("unexpected {other:?}"),
    }
    assert_eq!(error_status(&AppError::RateLimited { retry_after_ms: 1 }), 429);
    assert_eq!(error_status(&AppError::Validation(String::new())), 400);
    assert_eq!(bearer_token_value(Some("Bearer t")), Some("t"));
    assert_eq!(bearer_token_value(Some("Basic t")), None);
    assert_eq!(bearer_token_value(None), None);
    assert!(check_actor("a", "a").is_ok());
    assert!(matches!(check_actor("a", "b"), Err(AppError::Unauthorized(_))));
    assert!(matches!(check_self("a", "b"), Err(AppError::Unauthorized(_))));
    assert!(matches!(check_human_operator(false), Err(AppError::Forbidden(_))));
}

#[test]
fn an_accepted_upload_is_recorded_with_its_checked_type_and_size() {
    let upload = UploadAttachmentRequest {
        actor_id: "user-1".into(),
        filename: "script.py".into(),
        content_type: "text/x-python-script".into(),
        data_base64: "cHJpbnQoMSkK".into(),
    };
    let prepared = prepare_attachment(&upload).expect("accepted");
    let at = choruz_api_gateway::cron::UtcInstant { secs: 1_700_000_000, nanos: 5 };
    let record = attachment_record("att-9", "ws-1", "user-1", upload, &prepared, at);
    assert_eq!(record.id, "att-9");
    assert_eq!(record.workspace_id, "ws-1");
    assert_eq!(record.owner_id, "user-1");
    assert_eq!(record.filename, "script.py");
    assert_eq!(record.content_type, "text/plain");
    assert_eq!(record.size_bytes, 9);
    assert_eq!(record.download_path, "/v1/attachments/att-9");
    assert_eq!(record.created_at, at);
}
