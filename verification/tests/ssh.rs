use std::collections::HashMap;

use choruz_api_gateway::redaction::AppError;
use choruz_api_gateway::ssh_aliases::{
    collect_ssh_aliases, config_ops, expand_home_path, ReadOutcome, WalkEvent, WalkOp, WalkStep,
};
use choruz_api_gateway::ssh_config::{
    is_concrete_host_alias, parse_effective_ssh_config, split_directive, split_ssh_words,
    ssh_config_path, strip_inline_comment,
};
use choruz_api_gateway::ssh_connect::{
    listening_port, port_forward, require_host, resolve_remote_binary, runner_exit_error,
    runner_remote_command, runner_ssh_args, runner_timeout_error, stderr_snippet_exec,
    tunnel_exit_detail, tunnel_failure_error, tunnel_ports, tunnel_ssh_args,
    tunnel_timeout_error, ConnectAction, ConnectEvent, ConnectPhase, TunnelConnect,
};
use choruz_api_gateway::ssh_session::{
    classify_ssh_failure, describe_ssh_failure, is_known_ssh_failure, is_safe_remote_binary,
    managed_replacements, managed_session_matches, superseded_session_error, ChildPoll,
    SshFailureKind, TunnelInfo, TunnelRegistry, TunnelStatus, child_failure,
};

fn tunnel_info(host: &str, generation: Option<u64>) -> TunnelInfo {
    TunnelInfo {
        id: "tunnel-1".into(),
        host: host.into(),
        local_port: 41001,
        remote_port: 3000,
        pid: None,
        started_at: chrono::Utc::now().to_rfc3339(),
        generation,
        status: TunnelStatus::Ready,
        disconnected_at: None,
        last_error: None,
    }
}

#[test]
fn newer_generation_fences_older_connection_attempts() {
    let mut registry = TunnelRegistry::new();
    let first = registry
        .reserve_generation("alpha")
        .expect("reserve first generation");
    let second = registry
        .reserve_generation("alpha")
        .expect("reserve second generation");

    assert_eq!((first, second), (1, 2));
    assert!(!registry.is_current("alpha", first));
    assert!(registry.is_current("alpha", second));
    assert_eq!(
        registry
            .reserve_generation("beta")
            .expect("generations are per host"),
        1
    );
}

#[test]
fn managed_replacement_preserves_manual_tunnels() {
    assert!(managed_session_matches(
        &tunnel_info("alpha", Some(1)),
        "alpha"
    ));
    assert!(!managed_session_matches(
        &tunnel_info("alpha", None),
        "alpha"
    ));
    assert!(!managed_session_matches(
        &tunnel_info("beta", Some(1)),
        "alpha"
    ));
}

#[test]
fn parse_effective_config_uses_first_identity() {
    let host = parse_effective_ssh_config(
        "myserver".to_string(),
        "hostname 192.168.1.100\nuser alice\nport 2222\nidentityfile ~/.ssh/id_ed25519\nidentityfile ~/.ssh/id_rsa\n",
    );
    assert_eq!(host.name, "myserver");
    assert_eq!(host.hostname.as_deref(), Some("192.168.1.100"));
    assert_eq!(host.user.as_deref(), Some("alice"));
    assert_eq!(host.port, Some(2222));
    assert_eq!(host.identity_file.as_deref(), Some("~/.ssh/id_ed25519"));
}

#[test]
fn inline_comments_preserve_quoted_hashes() {
    assert_eq!(
        strip_inline_comment("HostName host # comment").trim(),
        "HostName host"
    );
    assert_eq!(
        strip_inline_comment("ProxyCommand sh -c \"echo #value\"").trim(),
        "ProxyCommand sh -c \"echo #value\""
    );
}

#[test]
fn directives_accept_openssh_equals_syntax() {
    assert_eq!(
        split_directive("Host=alpha beta"),
        Some(("Host", "alpha beta"))
    );
    assert_eq!(
        split_directive("Include = conf.d/*.conf"),
        Some(("Include", "conf.d/*.conf"))
    );
    assert_eq!(
        split_ssh_words("alpha \"my host\" 'path with spaces' escaped\\ value"),
        vec!["alpha", "my host", "path with spaces", "escaped value"]
    );
}

#[test]
fn remote_binary_rejects_shell_metacharacters() {
    assert!(is_safe_remote_binary("choruz-server"));
    assert!(is_safe_remote_binary("/opt/choruz/bin/choruz-server"));
    assert!(!is_safe_remote_binary("choruz-server; id"));
    assert!(!is_safe_remote_binary("$(id)"));
    assert!(!is_safe_remote_binary("../choruz-server"));
}

#[test]
fn ssh_failures_preserve_host_key_security_and_classify_auth() {
    let changed = describe_ssh_failure(
        "prod",
        "connecting",
        "WARNING: REMOTE HOST IDENTIFICATION HAS CHANGED!",
    );
    assert!(changed.contains("will not bypass this security check"));

    let auth = describe_ssh_failure("prod", "connecting", "prod: Permission denied (publickey).");
    assert!(auth.contains("authentication failed"));
    assert!(is_known_ssh_failure("Permission denied (publickey)."));
    assert_eq!(
        classify_ssh_failure("Could not resolve hostname prod"),
        SshFailureKind::Resolution
    );
    assert!(!is_known_ssh_failure(
        "warning: server uses an unrecognized post-quantum key exchange"
    ));
}

#[test]
fn comment_after_escaped_hash_and_unclosed_quote() {
    assert_eq!(strip_inline_comment("a\\#b # c"), "a\\#b ");
    assert_eq!(strip_inline_comment("a \"b # c"), "a \"b # c");
    assert_eq!(strip_inline_comment("# only"), "");
}

#[test]
fn directives_need_a_key_and_a_value() {
    assert_eq!(split_directive("   "), None);
    assert_eq!(split_directive("Host"), None);
    assert_eq!(split_directive("Host = # nothing"), None);
    assert_eq!(split_directive("  User\talice  "), Some(("User", "alice")));
}

#[test]
fn words_keep_foreign_quotes_and_trailing_backslash() {
    assert_eq!(split_ssh_words("\"it's\" x"), vec!["it's", "x"]);
    assert_eq!(split_ssh_words("tail\\"), vec!["tail\\"]);
    assert!(split_ssh_words("   ").is_empty());
    assert_eq!(split_ssh_words("''"), Vec::<String>::new());
}

#[test]
fn concrete_aliases_exclude_patterns_and_negations() {
    assert!(is_concrete_host_alias("alpha"));
    assert!(!is_concrete_host_alias(""));
    assert!(!is_concrete_host_alias("!blocked"));
    assert!(!is_concrete_host_alias("*.wild"));
    assert!(!is_concrete_host_alias("delta?"));
}

#[test]
fn effective_config_ignores_bad_port_and_keeps_first_values() {
    let host = parse_effective_ssh_config(
        "box".to_string(),
        "Port nope\nport 22\nUser first\nuser second\n",
    );
    assert_eq!(host.port, Some(22));
    assert_eq!(host.user.as_deref(), Some("first"));
    assert_eq!(host.hostname, None);
}

#[test]
fn config_path_is_below_home_unless_home_is_blank() {
    assert_eq!(ssh_config_path("/home/u").as_deref(), Some("/home/u/.ssh/config"));
    assert_eq!(ssh_config_path("/home/u/").as_deref(), Some("/home/u/.ssh/config"));
    assert_eq!(ssh_config_path("  "), None);
    assert_eq!(ssh_config_path(""), None);
}

#[test]
fn generations_exhaust_without_changing_the_registry() {
    let mut registry = TunnelRegistry::new();
    assert_eq!(registry.latest("alpha"), None);
    registry.reserve_generation("alpha").unwrap();
    assert_eq!(registry.latest("alpha"), Some(1));
    assert!(!registry.is_current("beta", 1));
}

#[test]
fn replacements_list_only_managed_sessions_of_the_host_in_order() {
    let entries = vec![
        ("a".to_string(), tunnel_info("alpha", Some(1))),
        ("b".to_string(), tunnel_info("alpha", None)),
        ("c".to_string(), tunnel_info("beta", Some(2))),
        ("d".to_string(), tunnel_info("alpha", Some(3))),
    ];
    assert_eq!(managed_replacements(&entries, "alpha"), vec!["a", "d"]);
    assert!(managed_replacements(&entries, "gamma").is_empty());
}

#[test]
fn refresh_status_records_the_first_failure_once() {
    let mut info = tunnel_info("alpha", Some(1));
    assert!(!info.refresh_status(None, None, "t0".into()));
    assert_eq!(info.status, TunnelStatus::Ready);
    let tunnel = child_failure(&ChildPoll::Exited("exit status: 7".into()), "SSH tunnel");
    let runner = child_failure(&ChildPoll::Unavailable("gone".into()), "remote Choruz runner");
    assert!(info.refresh_status(tunnel, runner, "t1".into()));
    assert_eq!(info.status, TunnelStatus::Disconnected);
    assert_eq!(info.disconnected_at.as_deref(), Some("t1"));
    assert_eq!(info.last_error.as_deref(), Some("SSH tunnel exited with exit status: 7"));
    assert!(info.last_error.as_deref().is_some_and(|e| e.contains("exit status: 7")));
    assert!(!info.refresh_status(Some("later".into()), None, "t2".into()));
    assert_eq!(info.disconnected_at.as_deref(), Some("t1"));
}

#[test]
fn runner_failure_is_used_when_the_tunnel_is_alive() {
    let mut info = tunnel_info("alpha", Some(1));
    let runner = child_failure(&ChildPoll::Unavailable("gone".into()), "remote Choruz runner");
    assert_eq!(runner.as_deref(), Some("could not inspect remote Choruz runner: gone"));
    assert!(info.refresh_status(child_failure(&ChildPoll::Running, "SSH tunnel"), runner, "t".into()));
    assert_eq!(
        info.last_error.as_deref(),
        Some("could not inspect remote Choruz runner: gone")
    );
}

#[test]
fn superseded_attempts_are_conflicts_naming_the_generation() {
    match superseded_session_error("alpha", 3) {
        AppError::Conflict(m) => assert_eq!(
            m,
            "SSH session alpha generation 3 was superseded by a newer connection attempt"
        ),
        other => panic!("unexpected {other:?}"),
    }
}

#[test]
fn failure_descriptions_cover_every_kind() {
    assert_eq!(
        describe_ssh_failure("h", "x", "Cannot execute command-line and remote command"),
        "SSH config for h defines RemoteCommand and it conflicted with the Choruz command (x)."
    );
    assert_eq!(
        describe_ssh_failure("h", "x", "\n  ssh: Could not resolve hostname h  \n"),
        "SSH could not resolve h while x: ssh: Could not resolve hostname h"
    );
    assert_eq!(
        describe_ssh_failure("h", "x", "connect: Connection refused"),
        "SSH could not reach h while x: connect: Connection refused"
    );
    assert_eq!(
        describe_ssh_failure("h", "x", "   \n"),
        "SSH failed for h while x: SSH exited without an error message"
    );
    assert_eq!(classify_ssh_failure("Too many authentication failures"), SshFailureKind::Authentication);
    assert_eq!(classify_ssh_failure("No route to host"), SshFailureKind::Connectivity);
}

#[test]
fn blank_hosts_are_refused() {
    assert!(require_host("alpha").is_ok());
    match require_host("   ") {
        Err(AppError::Validation(m)) => assert_eq!(m, "host must not be empty"),
        other => panic!("unexpected {other:?}"),
    }
}

#[test]
fn remote_binary_defaults_and_refusals() {
    assert_eq!(resolve_remote_binary(None).unwrap(), "choruz-server");
    assert_eq!(resolve_remote_binary(Some("/usr/bin/choruz-server")).unwrap(), "/usr/bin/choruz-server");
    match resolve_remote_binary(Some("rm -rf /")) {
        Err(AppError::Validation(m)) => assert_eq!(
            m,
            "remote_binary must be choruz-server or an absolute executable path"
        ),
        other => panic!("unexpected {other:?}"),
    }
    assert!(!is_safe_remote_binary("/"));
    assert!(!is_safe_remote_binary("/opt//bin"));
    assert!(!is_safe_remote_binary("/opt/./bin"));
}

#[test]
fn ssh_command_lines_are_exact() {
    assert_eq!(tunnel_ports(None, Some(8080)), (3100, 8080));
    assert_eq!(port_forward(41001, 3000), "41001:localhost:3000");
    assert_eq!(
        tunnel_ssh_args("1:localhost:2", "prod"),
        vec![
            "-N", "-T", "-o", "RemoteCommand=none", "-o", "ConnectTimeout=15", "-o",
            "ExitOnForwardFailure=yes", "-o", "ServerAliveInterval=30", "-o",
            "ServerAliveCountMax=3", "-L", "1:localhost:2", "--", "prod"
        ]
    );
    assert_eq!(
        runner_remote_command("choruz-server"),
        "stdbuf -oL choruz-server 2>&1 || choruz-server"
    );
    let runner = runner_ssh_args("prod", "choruz-server");
    assert_eq!(runner.len(), 12);
    assert_eq!(runner[10], "prod");
    assert_eq!(runner[11], "stdbuf -oL choruz-server 2>&1 || choruz-server");
}

#[test]
fn handshake_lines_announce_the_port() {
    assert_eq!(listening_port("  CHORUZ_LISTENING=4512 \r"), Some(Some(4512)));
    assert_eq!(listening_port("CHORUZ_LISTENING=70000"), Some(None));
    assert_eq!(listening_port("booting postgres"), None);
}

#[test]
fn runner_errors_explain_interactive_auth_and_missing_binaries() {
    let stderr = "\nwarning: pq\nwarning: pq2\nwarning: pq3\nuser@h: Permission denied, please try again.\n";
    assert_eq!(stderr_snippet_exec(stderr), "warning: pq | warning: pq2 | warning: pq3");
    match runner_exit_error("h", "choruz-server", stderr) {
        AppError::Internal(m) => {
            assert!(m.starts_with("h requires interactive auth (Duo / password / 2FA)"));
            assert!(m.contains("run `ssh h exit` first"));
            assert!(m.ends_with("Underlying: warning: pq | warning: pq2 | warning: pq3"));
        }
        other => panic!("unexpected {other:?}"),
    }
    match runner_exit_error("h", "choruz-server", "ssh: Could not resolve hostname h") {
        AppError::Internal(m) => assert_eq!(
            m,
            "SSH could not resolve h while starting choruz-server: ssh: Could not resolve hostname h"
        ),
        other => panic!("unexpected {other:?}"),
    }
    match runner_exit_error("h", "/opt/cs", "bash: /opt/cs: not found") {
        AppError::Internal(m) => assert_eq!(
            m,
            "remote choruz-server never emitted CHORUZ_LISTENING line (is '/opt/cs' installed on h?): bash: /opt/cs: not found"
        ),
        other => panic!("unexpected {other:?}"),
    }
    match runner_timeout_error("h", " ") {
        AppError::Internal(m) => assert_eq!(
            m,
            "timeout waiting for remote choruz-server on h to announce its port"
        ),
        other => panic!("unexpected {other:?}"),
    }
}

#[test]
fn tunnel_errors_name_the_port_forward() {
    assert_eq!(tunnel_exit_detail("exit status: 255", "  "), "ssh tunnel exited with exit status: 255");
    assert_eq!(tunnel_exit_detail("exit status: 255", "bind failed"), "bind failed");
    match tunnel_failure_error("h", "ssh tunnel exited with exit status: 255") {
        AppError::Internal(m) => assert_eq!(
            m,
            "SSH failed for h while opening the port forward: ssh tunnel exited with exit status: 255"
        ),
        other => panic!("unexpected {other:?}"),
    }
    match tunnel_timeout_error("h") {
        AppError::Internal(m) => assert_eq!(m, "timed out waiting for the SSH port forward to h"),
        other => panic!("unexpected {other:?}"),
    }
}

/// Drives an alias walk over an in-memory file tree: `files` maps paths to
/// contents (`None` for an unreadable file), `globs` maps patterns to matches
/// (`None` for an invalid pattern), and canonical paths are the paths themselves.
fn walk(
    root: &str,
    files: &HashMap<&str, Option<&str>>,
    globs: &HashMap<&str, Option<Vec<&str>>>,
) -> Result<Vec<String>, String> {
    let (mut state, mut step) = collect_ssh_aliases(root);
    loop {
        step = match step {
            WalkStep::Canonicalize(path) => state.resume(WalkEvent::Canonical(path)),
            WalkStep::Read(path) => {
                let outcome = match files.get(path.as_str()) {
                    Some(Some(text)) => ReadOutcome::Text(text.to_string()),
                    Some(None) => ReadOutcome::Failed(format!("cannot read {path}")),
                    None => ReadOutcome::NotFound,
                };
                state.resume(WalkEvent::Loaded(outcome))
            }
            WalkStep::Glob(pattern) => {
                let matches = globs
                    .get(pattern.as_str())
                    .cloned()
                    .unwrap_or(Some(Vec::new()))
                    .map(|found| found.into_iter().map(str::to_string).collect());
                state.resume(WalkEvent::Matched(matches))
            }
            WalkStep::Finished(result) => return result,
        };
    }
}

#[test]
fn alias_walk_follows_nested_includes_once_and_deduplicates() {
    let files = HashMap::from([
        (
            "/h/.ssh/config",
            Some("Include [\nInclude conf.d/*.conf\nHost alpha beta *.wild !blocked # aliases\n"),
        ),
        ("/h/.ssh/conf.d/one.conf", Some("Include conf.d/nested/*.conf\nHost gamma alpha\n")),
        ("/h/.ssh/conf.d/nested/two.conf", Some("Include config\nHost delta? epsilon\n")),
    ]);
    let globs = HashMap::from([
        ("/h/.ssh/[", None),
        ("/h/.ssh/conf.d/*.conf", Some(vec!["/h/.ssh/conf.d/one.conf"])),
        ("/h/.ssh/conf.d/nested/*.conf", Some(vec!["/h/.ssh/conf.d/nested/two.conf"])),
        ("/h/.ssh/config", Some(vec!["/h/.ssh/config"])),
    ]);
    assert_eq!(
        walk("/h/.ssh/config", &files, &globs).unwrap(),
        vec!["epsilon", "gamma", "alpha", "beta"]
    );
}

#[test]
fn alias_walk_skips_unreadable_includes_but_not_an_unreadable_root() {
    let files = HashMap::from([
        ("/h/.ssh/config", Some("Include bad.conf\nHost still-visible\n")),
        ("/h/.ssh/bad.conf", None),
    ]);
    let globs = HashMap::from([("/h/.ssh/bad.conf", Some(vec!["/h/.ssh/bad.conf"]))]);
    assert_eq!(walk("/h/.ssh/config", &files, &globs).unwrap(), vec!["still-visible"]);
    let files = HashMap::from([("/h/.ssh/config", None)]);
    assert_eq!(
        walk("/h/.ssh/config", &files, &HashMap::new()).unwrap_err(),
        "cannot read /h/.ssh/config"
    );
    assert!(walk("/h/.ssh/config", &HashMap::new(), &HashMap::new()).unwrap().is_empty());
}

#[test]
fn include_arguments_expand_against_the_ssh_directory() {
    assert_eq!(expand_home_path("~", "/home/u/.ssh"), "/home/u");
    assert_eq!(expand_home_path("~/extra/*.conf", "/home/u/.ssh"), "/home/u/extra/*.conf");
    assert_eq!(expand_home_path("/etc/ssh/x", "/home/u/.ssh"), "/etc/ssh/x");
    assert_eq!(expand_home_path("conf.d/*", "/home/u/.ssh"), "/home/u/.ssh/conf.d/*");
    assert_eq!(expand_home_path("~", "/"), "/");
}

#[test]
fn config_ops_list_aliases_and_patterns_in_file_order() {
    let ops = config_ops("host a *\nINCLUDE x y\nUser z\nHost=b\n", "/d");
    let shown: Vec<String> = ops
        .iter()
        .map(|op| match op {
            WalkOp::Alias(a) => format!("alias {a}"),
            WalkOp::Pattern(p) => format!("pattern {p}"),
            WalkOp::File(f) => format!("file {f}"),
        })
        .collect();
    assert_eq!(shown, vec!["alias a", "pattern /d/x", "pattern /d/y", "alias b"]);
}

#[test]
fn committing_a_managed_session_replaces_only_that_hosts_managed_sessions() {
    let mut registry = TunnelRegistry::new();
    let old = registry.reserve_generation("alpha").unwrap();
    registry.insert_session("managed-old".into(), tunnel_info("alpha", Some(old)));
    registry.insert_session("manual".into(), tunnel_info("alpha", None));
    registry.insert_session("other-host".into(), tunnel_info("beta", Some(1)));
    let newer = registry.reserve_generation("alpha").unwrap();
    let replaced = registry
        .commit_managed_session("alpha", newer, "managed-new".into(), tunnel_info("alpha", Some(newer)))
        .unwrap();
    assert_eq!(replaced, vec!["managed-old"]);
    assert_eq!(registry.session_ids(), vec!["manual", "other-host", "managed-new"]);
    match registry.commit_managed_session("alpha", old, "stale".into(), tunnel_info("alpha", Some(old))) {
        Err(AppError::Conflict(m)) => assert_eq!(
            m,
            "SSH session alpha generation 1 was superseded by a newer connection attempt"
        ),
        other => panic!("unexpected {other:?}"),
    }
    assert_eq!(registry.session_ids(), vec!["manual", "other-host", "managed-new"]);
}

#[test]
fn sessions_are_removed_by_id_and_refreshed_in_place() {
    let mut registry = TunnelRegistry::new();
    registry.insert_session("t1".into(), tunnel_info("alpha", None));
    registry.insert_session("t2".into(), tunnel_info("beta", None));
    registry.insert_session("t1".into(), tunnel_info("gamma", None));
    assert_eq!(registry.session_ids(), vec!["t1", "t2"]);
    assert_eq!(registry.session("t1").map(|i| i.host.clone()).as_deref(), Some("gamma"));
    assert!(registry.refresh_session("t2", Some("SSH tunnel exited with exit status: 1".into()), None, "now".into()));
    assert_eq!(registry.session("t2").unwrap().status, TunnelStatus::Disconnected);
    assert!(!registry.refresh_session("missing", None, None, "now".into()));
    assert_eq!(registry.remove_session("t1").unwrap().host, "gamma");
    match registry.remove_session("t1") {
        Err(AppError::NotFound(m)) => assert_eq!(m, "tunnel t1 not found"),
        other => panic!("unexpected {other:?}"),
    }
    assert_eq!(registry.session_ids(), vec!["t2"]);
}

#[test]
fn a_new_managed_session_is_ready_under_its_generation() {
    let info = TunnelInfo::managed("t-1", "devbox", 41234, 8080, Some(77), "2025-01-01T00:00:00+00:00".into(), 3);
    assert_eq!(info.id, "t-1");
    assert_eq!(info.host, "devbox");
    assert_eq!(info.local_port, 41234);
    assert_eq!(info.remote_port, 8080);
    assert_eq!(info.pid, Some(77));
    assert_eq!(info.started_at, "2025-01-01T00:00:00+00:00");
    assert_eq!(info.generation, Some(3));
    assert_eq!(info.status, TunnelStatus::Ready);
    assert!(info.disconnected_at.is_none());
    assert!(info.last_error.is_none());
    assert!(managed_session_matches(&info, "devbox"));
}

fn internal(action: ConnectAction) -> String {
    match action {
        ConnectAction::Fail(AppError::Internal(m)) => m,
        other => panic!("expected an internal failure, got {:?}", other),
    }
}

#[test]
fn a_connect_reads_the_handshake_then_waits_for_the_forward_and_commits() {
    let (c, args) = TunnelConnect::start("devbox", "choruz-server", 3);
    assert_eq!(args.last().unwrap(), "stdbuf -oL choruz-server 2>&1 || choruz-server");
    let (c, a) = c.step(ConnectEvent::RunnerLine("starting up".into()));
    assert!(matches!(a, ConnectAction::ReadRunnerLine));
    let (c, a) = c.step(ConnectEvent::RunnerLine(" CHORUZ_LISTENING=8123 ".into()));
    assert!(matches!(a, ConnectAction::CheckCurrent));
    assert_eq!(c.remote_port, 8123);
    let (c, a) = c.step(ConnectEvent::Current(true));
    assert!(matches!(a, ConnectAction::PickLocalPort));
    let (c, a) = c.step(ConnectEvent::LocalPort(Some(41000)));
    match a {
        ConnectAction::StartTunnel(args) => assert!(args.contains(&"41000:localhost:8123".to_string())),
        other => panic!("expected the tunnel, got {:?}", other),
    }
    let (c, a) = c.step(ConnectEvent::TunnelNotYet { elapsed_ms: 19999 });
    assert!(matches!(a, ConnectAction::Wait(100)));
    let (c, a) = c.step(ConnectEvent::TunnelAccepting);
    assert!(matches!(a, ConnectAction::CheckCurrent));
    let (c, a) = c.step(ConnectEvent::Current(true));
    assert!(matches!(a, ConnectAction::Commit));
    assert_eq!(c.phase, ConnectPhase::Done);
    assert_eq!((c.local_port, c.remote_port, c.generation), (41000, 8123, 3));
}

#[test]
fn a_connect_fails_with_what_went_wrong() {
    let start = || TunnelConnect::start("devbox", "choruz-server", 3).0;
    let (c, a) = start().step(ConnectEvent::HandshakeTimedOut);
    assert!(matches!(a, ConnectAction::CollectRunnerOutput { grace_ms: 2000 }));
    let (_, a) = c.step(ConnectEvent::RunnerOutput(String::new()));
    assert_eq!(internal(a), "timeout waiting for remote choruz-server on devbox to announce its port");
    let (c, a) = start().step(ConnectEvent::RunnerLine("CHORUZ_LISTENING=port".into()));
    assert!(matches!(a, ConnectAction::CollectRunnerOutput { grace_ms: 0 }));
    let (_, a) = c.step(ConnectEvent::RunnerOutput("oops".into()));
    assert!(internal(a).starts_with("remote choruz-server never emitted CHORUZ_LISTENING line"));
    let (c, _) = start().step(ConnectEvent::RunnerLine("CHORUZ_LISTENING=9".into()));
    let (_, a) = c.step(ConnectEvent::Current(false));
    assert!(matches!(a, ConnectAction::Fail(AppError::Conflict(m)) if m == "SSH session devbox generation 3 was superseded by a newer connection attempt"));
    let (c, _) = start().step(ConnectEvent::RunnerLine("CHORUZ_LISTENING=9".into()));
    let (c, _) = c.step(ConnectEvent::Current(true));
    let (_, a) = c.step(ConnectEvent::LocalPort(None));
    assert_eq!(internal(a), "could not find a free local port");
    let (c, _) = start().step(ConnectEvent::RunnerLine("CHORUZ_LISTENING=9".into()));
    let (c, _) = c.step(ConnectEvent::Current(true));
    let (c, _) = c.step(ConnectEvent::LocalPort(Some(40000)));
    let (_, a) = c.step(ConnectEvent::TunnelNotYet { elapsed_ms: 20000 });
    assert_eq!(internal(a), "timed out waiting for the SSH port forward to devbox");
}
