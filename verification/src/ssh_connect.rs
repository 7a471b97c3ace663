//! Decisions of the one-click SSH connect: what is run on each side, how the
//! remote runner's handshake is read, and what each failure is answered with.
use vstd::prelude::*;
use crate::redaction::AppError;
use crate::ssh_session::{
    describe_ssh_failure, failure_kind, failure_message, is_known_ssh_failure,
    is_safe_remote_binary, safe_remote_binary, superseded_message, superseded_session_error,
    SshFailureKind,
};
use crate::text::{
    chars_of, contains, decimal, join, lemma_join_push, lines, owned, parse_u16, parse_u16_exec,
    split_lines, starts_with, starts_with_exec, str_contains, sub_chars, trim, trim_bounds,
    trim_chars, u64_to_decimal,
};

verus! {

/// Port used on both ends of a manual tunnel when the request names none.
pub const DEFAULT_TUNNEL_PORT: u16 = 3100;

/// Prefix of the line on which the remote runner announces its port.
pub open spec fn listening_prefix() -> Seq<char> {
    "CHORUZ_LISTENING="@
}

/// A blank host is refused before any process is started.
pub fn require_host(host: &str) -> (r: Result<(), AppError>)
    ensures
        r is Ok <==> trim(host@).len() > 0,
        r matches Err(e) ==> e matches AppError::Validation(m) && m@ == "host must not be empty"@,
{
    let v = chars_of(host);
    let (a, b) = trim_bounds(v.as_slice());
    if a == b {
        Err(AppError::Validation(owned("host must not be empty")))
    } else {
        Ok(())
    }
}

/// The remote command requested, `choruz-server` when none is.
pub open spec fn requested_binary(requested: Option<Seq<char>>) -> Seq<char> {
    match requested {
        Some(v) => v,
        None => "choruz-server"@,
    }
}

pub open spec fn str_opt_view(o: Option<&str>) -> Option<Seq<char>> {
    match o {
        Some(v) => Some(v@),
        None => None,
    }
}

/// The remote binary to start: the one requested (by default
/// `choruz-server`), refused unless it is safe to hand to a remote shell.
pub fn resolve_remote_binary(requested: Option<&str>) -> (r: Result<String, AppError>)
    ensures
        match r {
            Ok(b) => b@ == requested_binary(str_opt_view(requested)) && safe_remote_binary(b@),
            Err(e) => {
                &&& !safe_remote_binary(requested_binary(str_opt_view(requested)))
                &&& e matches AppError::Validation(m) && m@
                    == "remote_binary must be choruz-server or an absolute executable path"@
            },
        },
{
    let b = match requested {
        Some(v) => owned(v),
        None => owned("choruz-server"),
    };
    if !is_safe_remote_binary(b.as_str()) {
        return Err(
            AppError::Validation(
                owned("remote_binary must be choruz-server or an absolute executable path"),
            ),
        );
    }
    Ok(b)
}

/// Local and remote ports of a manual tunnel.
pub fn tunnel_ports(local_port: Option<u16>, remote_port: Option<u16>) -> (r: (u16, u16))
    ensures
        r.0 == (match local_port {
            Some(p) => p,
            None => DEFAULT_TUNNEL_PORT,
        }),
        r.1 == (match remote_port {
            Some(p) => p,
            None => DEFAULT_TUNNEL_PORT,
        }),
{
    let l = match local_port {
        Some(p) => p,
        None => DEFAULT_TUNNEL_PORT,
    };
    let r = match remote_port {
        Some(p) => p,
        None => DEFAULT_TUNNEL_PORT,
    };
    (l, r)
}

pub open spec fn forward_spec(local_port: u16, remote_port: u16) -> Seq<char> {
    decimal(local_port as nat) + ":localhost:"@ + decimal(remote_port as nat)
}

/// The `-L` argument forwarding `local_port` to the remote's `remote_port`.
pub fn port_forward(local_port: u16, remote_port: u16) -> (r: String)
    ensures
        r@ == forward_spec(local_port, remote_port),
{
    let mut r = u64_to_decimal(local_port as u64);
    r.append(":localhost:");
    let rp = u64_to_decimal(remote_port as u64);
    r.append(rp.as_str());
    r
}

pub open spec fn runner_command_spec(remote_binary: Seq<char>) -> Seq<char> {
    "stdbuf -oL "@ + remote_binary + " 2>&1 || "@ + remote_binary
}

/// The command run on the remote: the binary line-buffered where `stdbuf`
/// exists, plainly otherwise.
pub fn runner_remote_command(remote_binary: &str) -> (r: String)
    ensures
        r@ == runner_command_spec(remote_binary@),
{
    let mut r = owned("stdbuf -oL ");
    r.append(remote_binary);
    r.append(" 2>&1 || ");
    r.append(remote_binary);
    r
}

pub open spec fn strings_view(v: Seq<String>) -> Seq<Seq<char>> {
    v.map_values(|s: String| s@)
}

pub open spec fn tunnel_args_spec(forward: Seq<char>, host: Seq<char>) -> Seq<Seq<char>> {
    seq![
        "-N"@,
        "-T"@,
        "-o"@,
        "RemoteCommand=none"@,
        "-o"@,
        "ConnectTimeout=15"@,
        "-o"@,
        "ExitOnForwardFailure=yes"@,
        "-o"@,
        "ServerAliveInterval=30"@,
        "-o"@,
        "ServerAliveCountMax=3"@,
        "-L"@,
        forward,
        "--"@,
        host,
    ]
}

pub open spec fn runner_args_spec(host: Seq<char>, remote_binary: Seq<char>) -> Seq<Seq<char>> {
    seq![
        "-T"@,
        "-o"@,
        "RemoteCommand=none"@,
        "-o"@,
        "ConnectTimeout=15"@,
        "-o"@,
        "ServerAliveInterval=30"@,
        "-o"@,
        "ServerAliveCountMax=3"@,
        "--"@,
        host,
        runner_command_spec(remote_binary),
    ]
}

/// Arguments of the `ssh` process that holds a port forward open.
pub fn tunnel_ssh_args(forward: &str, host: &str) -> (r: Vec<String>)
    ensures
        strings_view(r@) == tunnel_args_spec(forward@, host@),
{
    let mut r: Vec<String> = Vec::new();
    r.push(owned("-N"));
    r.push(owned("-T"));
    r.push(owned("-o"));
    r.push(owned("RemoteCommand=none"));
    r.push(owned("-o"));
    r.push(owned("ConnectTimeout=15"));
    r.push(owned("-o"));
    r.push(owned("ExitOnForwardFailure=yes"));
    r.push(owned("-o"));
    r.push(owned("ServerAliveInterval=30"));
    r.push(owned("-o"));
    r.push(owned("ServerAliveCountMax=3"));
    r.push(owned("-L"));
    r.push(owned(forward));
    r.push(owned("--"));
    r.push(owned(host));
    assert(strings_view(r@) =~= tunnel_args_spec(forward@, host@));
    r
}

/// Arguments of the `ssh` process that runs the Choruz server on the remote.
pub fn runner_ssh_args(host: &str, remote_binary: &str) -> (r: Vec<String>)
    ensures
        strings_view(r@) == runner_args_spec(host@, remote_binary@),
{
    let mut r: Vec<String> = Vec::new();
    r.push(owned("-T"));
    r.push(owned("-o"));
    r.push(owned("RemoteCommand=none"));
    r.push(owned("-o"));
    r.push(owned("ConnectTimeout=15"));
    r.push(owned("-o"));
    r.push(owned("ServerAliveInterval=30"));
    r.push(owned("-o"));
    r.push(owned("ServerAliveCountMax=3"));
    r.push(owned("--"));
    r.push(owned(host));
    r.push(runner_remote_command(remote_binary));
    assert(strings_view(r@) =~= runner_args_spec(host@, remote_binary@));
    r
}

/// What one line of the runner's output says: nothing (`None`), or the
/// announced port, `Some(None)` when the announcement is not a port.
pub open spec fn announced_port(line: Seq<char>) -> Option<Option<u16>> {
    let t = trim(line);
    if starts_with(t, listening_prefix()) {
        Some(parse_u16(t.skip(listening_prefix().len() as int)))
    } else {
        None
    }
}

/// Reads one line of the runner's output during the handshake.
pub fn listening_port(line: &str) -> (r: Option<Option<u16>>)
    ensures
        r == announced_port(line@),
{
    let v = chars_of(line);
    let t = trim_chars(v.as_slice());
    let p = chars_of("CHORUZ_LISTENING=");
    if !starts_with_exec(t.as_slice(), p.as_slice()) {
        return None;
    }
    let rest = sub_chars(t.as_slice(), p.len(), t.len());
    proof {
        assert(rest@ =~= trim(line@).skip(listening_prefix().len() as int));
    }
    Some(parse_u16_exec(rest.as_slice()))
}

/// The lines that hold more than whitespace.
pub open spec fn nonblank(ls: Seq<Seq<char>>) -> Seq<Seq<char>>
    decreases ls.len(),
{
    if ls.len() == 0 {
        seq![]
    } else {
        let rest = nonblank(ls.drop_last());
        if trim(ls.last()).len() > 0 {
            rest.push(ls.last())
        } else {
            rest
        }
    }
}

pub open spec fn at_most_three(ls: Seq<Seq<char>>) -> Seq<Seq<char>> {
    if ls.len() > 3 {
        ls.take(3)
    } else {
        ls
    }
}

/// The first three informative lines of OpenSSH's output, joined by ` | `.
pub open spec fn stderr_snippet(stderr: Seq<char>) -> Seq<char> {
    join(at_most_three(nonblank(lines(stderr))), " | "@)
}

pub fn stderr_snippet_exec(stderr: &str) -> (r: String)
    ensures
        r@ == stderr_snippet(stderr@),
{
    let v = chars_of(stderr);
    let ls = split_lines(v.as_slice());
    let ghost lv = lines(stderr@);
    let mut out = String::new();
    let mut count: usize = 0;
    let mut i: usize = 0;
    assert(lv.take(0) =~= Seq::<Seq<char>>::empty());
    while i < ls.len()
        invariant
            i <= ls@.len(),
            ls@.len() == lv.len(),
            lv == lines(stderr@),
            forall|k: int| 0 <= k < ls@.len() ==> #[trigger] ls@[k]@ == lv[k],
            count as int == nonblank(lv.take(i as int)).len() || (count == 3 && nonblank(
                lv.take(i as int),
            ).len() >= 3),
            count <= 3,
            out@ == join(at_most_three(nonblank(lv.take(i as int))), " | "@),
        decreases ls.len() - i,
    {
        let ghost before = nonblank(lv.take(i as int));
        assert(lv.take(i + 1).drop_last() =~= lv.take(i as int));
        assert(lv.take(i + 1).last() == lv[i as int]);
        let (a, b) = trim_bounds(ls[i].as_slice());
        if a < b {
            assert(nonblank(lv.take(i + 1)) == before.push(lv[i as int]));
            if count < 3 {
                proof {
                    lemma_join_push(before, " | "@, lv[i as int]);
                    assert(at_most_three(before.push(lv[i as int])) =~= before.push(lv[i as int]));
                }
                if count > 0 {
                    out.append(" | ");
                }
                let line = &ls[i];
                let mut k: usize = 0;
                let ghost base = out@;
                while k < line.len()
                    invariant
                        k <= line@.len(),
                        out@ == base + line@.take(k as int),
                    decreases line.len() - k,
                {
                    crate::text::push_char(&mut out, line[k]);
                    assert(base + line@.take(k + 1) =~= (base + line@.take(k as int)).push(
                        line@[k as int],
                    ));
                    k = k + 1;
                }
                assert(line@.take(line@.len() as int) =~= line@);
                count = count + 1;
            } else {
                assert(at_most_three(before.push(lv[i as int])) =~= at_most_three(before));
            }
        } else {
            assert(nonblank(lv.take(i + 1)) == before);
        }
        i = i + 1;
    }
    assert(lv.take(ls@.len() as int) =~= lv);
    out
}

/// OpenSSH asked for an interactive login that cannot be answered here.
pub open spec fn needs_interactive_auth(stderr: Seq<char>) -> bool {
    contains(stderr, "Permission denied (keyboard-interactive"@) || contains(
        stderr,
        "Permission denied, please try again"@,
    ) || contains(stderr, "Too many authentication failures"@)
}

pub open spec fn interactive_auth_message(host: Seq<char>, snippet: Seq<char>) -> Seq<char> {
    host
        + " requires interactive auth (Duo / password / 2FA) which we can't prompt for over HTTP. Open a terminal and run `ssh "@
        + host
        + " exit` first; complete the prompt; then click Connect again — OpenSSH's ControlMaster will reuse the authenticated session. Underlying: "@
        + snippet
}

pub open spec fn never_listened_message(host: Seq<char>, remote_binary: Seq<char>, snippet: Seq<char>) -> Seq<char> {
    "remote choruz-server never emitted CHORUZ_LISTENING line (is '"@ + remote_binary
        + "' installed on "@ + host + "?): "@ + snippet
}

/// What the runner's exit without a handshake is reported as.
pub open spec fn runner_exit_message(host: Seq<char>, remote_binary: Seq<char>, stderr: Seq<char>) -> Seq<char> {
    if needs_interactive_auth(stderr) {
        interactive_auth_message(host, stderr_snippet(stderr))
    } else if failure_kind(stderr) != SshFailureKind::Unknown {
        failure_message(host, "starting choruz-server"@, stderr)
    } else {
        never_listened_message(host, remote_binary, stderr_snippet(stderr))
    }
}

/// The error answered when the remote runner ends before announcing a port.
pub fn runner_exit_error(host: &str, remote_binary: &str, stderr: &str) -> (e: AppError)
    ensures
        e matches AppError::Internal(m) && m@ == runner_exit_message(host@, remote_binary@, stderr@),
{
    let snippet = stderr_snippet_exec(stderr);
    if str_contains(stderr, "Permission denied (keyboard-interactive") || str_contains(
        stderr,
        "Permission denied, please try again",
    ) || str_contains(stderr, "Too many authentication failures") {
        let mut m = owned(host);
        m.append(
            " requires interactive auth (Duo / password / 2FA) which we can't prompt for over HTTP. Open a terminal and run `ssh ",
        );
        m.append(host);
        m.append(
            " exit` first; complete the prompt; then click Connect again — OpenSSH's ControlMaster will reuse the authenticated session. Underlying: ",
        );
        m.append(snippet.as_str());
        return AppError::Internal(m);
    }
    if is_known_ssh_failure(stderr) {
        return AppError::Internal(describe_ssh_failure(host, "starting choruz-server", stderr));
    }
    let mut m = owned("remote choruz-server never emitted CHORUZ_LISTENING line (is '");
    m.append(remote_binary);
    m.append("' installed on ");
    m.append(host);
    m.append("?): ");
    m.append(snippet.as_str());
    AppError::Internal(m)
}

pub open spec fn runner_timeout_message(host: Seq<char>, stderr: Seq<char>) -> Seq<char> {
    if trim(stderr).len() > 0 {
        failure_message(host, "starting choruz-server"@, stderr)
    } else {
        "timeout waiting for remote choruz-server on "@ + host + " to announce its port"@
    }
}

/// The error answered when the runner does not announce a port in time.
pub fn runner_timeout_error(host: &str, stderr: &str) -> (e: AppError)
    ensures
        e matches AppError::Internal(m) && m@ == runner_timeout_message(host@, stderr@),
{
    let v = chars_of(stderr);
    let (a, b) = trim_bounds(v.as_slice());
    if a < b {
        return AppError::Internal(describe_ssh_failure(host, "starting choruz-server", stderr));
    }
    let mut m = owned("timeout waiting for remote choruz-server on ");
    m.append(host);
    m.append(" to announce its port");
    AppError::Internal(m)
}

pub open spec fn tunnel_exit_detail_spec(status: Seq<char>, stderr: Seq<char>) -> Seq<char> {
    if trim(stderr).len() == 0 {
        "ssh tunnel exited with "@ + status
    } else {
        stderr
    }
}

/// What an exited port forward is explained by: its output, or its exit status.
pub fn tunnel_exit_detail(status: &str, stderr: &str) -> (r: String)
    ensures
        r@ == tunnel_exit_detail_spec(status@, stderr@),
{
    let v = chars_of(stderr);
    let (a, b) = trim_bounds(v.as_slice());
    if a == b {
        let mut m = owned("ssh tunnel exited with ");
        m.append(status);
        m
    } else {
        owned(stderr)
    }
}

/// The error answered when the port forward fails.
pub fn tunnel_failure_error(host: &str, detail: &str) -> (e: AppError)
    ensures
        e matches AppError::Internal(m) && m@ == failure_message(
            host@,
            "opening the port forward"@,
            detail@,
        ),
{
    AppError::Internal(describe_ssh_failure(host, "opening the port forward", detail))
}

/// The error answered when the port forward does not come up in time.
pub fn tunnel_timeout_error(host: &str) -> (e: AppError)
    ensures
        e matches AppError::Internal(m) && m@ == "timed out waiting for the SSH port forward to "@
            + host@,
{
    let mut m = owned("timed out waiting for the SSH port forward to ");
    m.append(host);
    AppError::Internal(m)
}


// ── The connect, step by step ───────────────────────────────────────

/// How long the remote runner has to announce its port, in seconds.
pub const HANDSHAKE_TIMEOUT_SECS: u64 = 45;

/// How long the port forward has to accept connections, in milliseconds
/// (the SSH connect timeout and five seconds more).
pub const TUNNEL_READY_TIMEOUT_MS: u64 = 20000;

/// How long to wait between two probes of the port forward, in milliseconds.
pub const TUNNEL_POLL_MS: u64 = 100;

/// How long a runner that missed its handshake deadline may take to exit
/// before its output is read, in milliseconds.
pub const RUNNER_EXIT_GRACE_MS: u64 = 2000;

/// Where a connect stands.
#[derive(Debug, Clone, Copy, PartialEq, Eq, Structural)]
pub enum ConnectPhase {
    /// Reading the runner's output for its port announcement.
    Handshake,
    /// Reading the output of a runner that gave no port (`timed_out` when
    /// its deadline passed).
    RunnerOutput { timed_out: bool },
    /// Confirming that no newer connect took over, after the handshake.
    ConfirmAfterHandshake,
    /// Choosing a free local port.
    LocalPort,
    /// Waiting for the port forward to accept connections.
    TunnelReady,
    /// Confirming that no newer connect took over, before the session is kept.
    ConfirmBeforeCommit,
    Done,
}

/// A one-click connect to `host` under the generation reserved for it.
#[derive(Debug)]
pub struct TunnelConnect {
    pub host: String,
    pub remote_binary: String,
    pub generation: u64,
    pub phase: ConnectPhase,
    pub remote_port: u16,
    pub local_port: u16,
}

/// What the outside world answers a connect.
#[derive(Debug)]
pub enum ConnectEvent {
    /// One line of the runner's output.
    RunnerLine(String),
    /// The runner's output ended without a port announcement.
    RunnerClosed,
    /// The handshake deadline passed.
    HandshakeTimedOut,
    /// All the runner's error output.
    RunnerOutput(String),
    /// Whether this connect's generation is still the newest for the host.
    Current(bool),
    /// A free local port, if one was found.
    LocalPort(Option<u16>),
    /// The port forward exited, with its status and error output.
    TunnelExited { status: String, stderr: String },
    /// The port forward accepts connections.
    TunnelAccepting,
    /// The port forward does not accept connections yet, `elapsed_ms` after it started.
    TunnelNotYet { elapsed_ms: u64 },
}

/// What a connect asks for next.
#[derive(Debug)]
pub enum ConnectAction {
    /// Read the runner's next line, within the handshake deadline.
    ReadRunnerLine,
    /// Stop the runner, let it exit for at most `grace_ms`, and read its error output.
    CollectRunnerOutput { grace_ms: u64 },
    /// Ask whether this connect's generation is still the newest.
    CheckCurrent,
    /// Find a free local port.
    PickLocalPort,
    /// Start the port forward with these `ssh` arguments.
    StartTunnel(Vec<String>),
    /// Wait this long, then probe the port forward again.
    Wait(u64),
    /// Keep the session: ready on these ports under this generation.
    Commit,
    /// Stop what was started and answer the error.
    Fail(AppError),
}

pub open spec fn fails_with(a: ConnectAction, m: Seq<char>) -> bool {
    a matches ConnectAction::Fail(AppError::Internal(x)) && x@ == m
}

pub open spec fn superseded(c: TunnelConnect, a: ConnectAction) -> bool {
    a matches ConnectAction::Fail(AppError::Conflict(x)) && x@ == superseded_message(c.host@, c.generation)
}

/// `c` with only its phase changed.
pub open spec fn moved(c: TunnelConnect, d: TunnelConnect, phase: ConnectPhase) -> bool {
    d.host == c.host && d.remote_binary == c.remote_binary && d.generation == c.generation && d.phase == phase
        && d.remote_port == c.remote_port && d.local_port == c.local_port
}

/// The event answers what the connect waits for.
pub open spec fn connect_accepts(c: TunnelConnect, e: ConnectEvent) -> bool {
    match c.phase {
        ConnectPhase::Handshake => e is RunnerLine || e is RunnerClosed || e is HandshakeTimedOut,
        ConnectPhase::RunnerOutput { .. } => e is RunnerOutput,
        ConnectPhase::ConfirmAfterHandshake | ConnectPhase::ConfirmBeforeCommit => e is Current,
        ConnectPhase::LocalPort => e is LocalPort,
        ConnectPhase::TunnelReady => e is TunnelExited || e is TunnelAccepting || e is TunnelNotYet,
        ConnectPhase::Done => false,
    }
}

impl TunnelConnect {
    /// Starts a connect to `host` under `generation`: the runner is started
    /// with these `ssh` arguments and has `HANDSHAKE_TIMEOUT_SECS` to
    /// announce its port.
    pub fn start(host: &str, remote_binary: &str, generation: u64) -> (r: (TunnelConnect, Vec<String>))
        ensures
            r.0.host@ == host@,
            r.0.remote_binary@ == remote_binary@,
            r.0.generation == generation,
            r.0.phase == ConnectPhase::Handshake,
            strings_view(r.1@) == runner_args_spec(host@, remote_binary@),
    {
        (
            TunnelConnect {
                host: owned(host),
                remote_binary: owned(remote_binary),
                generation,
                phase: ConnectPhase::Handshake,
                remote_port: 0,
                local_port: 0,
            },
            runner_ssh_args(host, remote_binary),
        )
    }

    /// One step of a connect. The runner's lines are read until one
    /// announces a port; a runner that ends first, announces something that
    /// is not a port, or misses its deadline is stopped and explained by its
    /// output. A connect that a newer one took over is abandoned, after the
    /// handshake and again once the port forward accepts connections. The
    /// port forward is probed every `TUNNEL_POLL_MS` until it accepts, exits,
    /// or `TUNNEL_READY_TIMEOUT_MS` have passed.
    pub fn step(self, event: ConnectEvent) -> (r: (TunnelConnect, ConnectAction))
        requires
            connect_accepts(self, event),
        ensures
            match (self.phase, event) {
                (ConnectPhase::Handshake, ConnectEvent::RunnerLine(line)) => match announced_port(line@) {
                    None => moved(self, r.0, ConnectPhase::Handshake) && r.1 is ReadRunnerLine,
                    Some(Some(p)) => r.1 is CheckCurrent && r.0.phase == ConnectPhase::ConfirmAfterHandshake
                        && r.0.remote_port == p && r.0.host == self.host && r.0.generation == self.generation
                        && r.0.remote_binary == self.remote_binary,
                    Some(None) => r.1 matches ConnectAction::CollectRunnerOutput { grace_ms } && grace_ms == 0
                        && moved(self, r.0, ConnectPhase::RunnerOutput { timed_out: false }),
                },
                (ConnectPhase::Handshake, ConnectEvent::RunnerClosed) => r.1 matches ConnectAction::CollectRunnerOutput {
                    grace_ms,
                } && grace_ms == 0 && moved(self, r.0, ConnectPhase::RunnerOutput { timed_out: false }),
                (ConnectPhase::Handshake, ConnectEvent::HandshakeTimedOut) => r.1 matches ConnectAction::CollectRunnerOutput {
                    grace_ms,
                } && grace_ms == RUNNER_EXIT_GRACE_MS && moved(self, r.0, ConnectPhase::RunnerOutput { timed_out: true }),
                (ConnectPhase::RunnerOutput { timed_out }, ConnectEvent::RunnerOutput(out)) => r.0.phase
                    == ConnectPhase::Done && fails_with(
                    r.1,
                    if timed_out {
                        runner_timeout_message(self.host@, out@)
                    } else {
                        runner_exit_message(self.host@, self.remote_binary@, out@)
                    },
                ),
                (ConnectPhase::ConfirmAfterHandshake, ConnectEvent::Current(current)) => if current {
                    moved(self, r.0, ConnectPhase::LocalPort) && r.1 is PickLocalPort
                } else {
                    r.0.phase == ConnectPhase::Done && superseded(self, r.1)
                },
                (ConnectPhase::LocalPort, ConnectEvent::LocalPort(port)) => match port {
                    None => r.0.phase == ConnectPhase::Done && fails_with(r.1, "could not find a free local port"@),
                    Some(l) => r.1 matches ConnectAction::StartTunnel(args) && strings_view(args@) == tunnel_args_spec(
                        forward_spec(l, self.remote_port),
                        self.host@,
                    ) && r.0.phase == ConnectPhase::TunnelReady && r.0.local_port == l && r.0.remote_port
                        == self.remote_port && r.0.host == self.host && r.0.generation == self.generation,
                },
                (ConnectPhase::TunnelReady, ConnectEvent::TunnelExited { status, stderr }) => r.0.phase
                    == ConnectPhase::Done && fails_with(
                    r.1,
                    failure_message(self.host@, "opening the port forward"@, tunnel_exit_detail_spec(status@, stderr@)),
                ),
                (ConnectPhase::TunnelReady, ConnectEvent::TunnelAccepting) => moved(
                    self,
                    r.0,
                    ConnectPhase::ConfirmBeforeCommit,
                ) && r.1 is CheckCurrent,
                (ConnectPhase::TunnelReady, ConnectEvent::TunnelNotYet { elapsed_ms }) => if elapsed_ms
                    >= TUNNEL_READY_TIMEOUT_MS {
                    r.0.phase == ConnectPhase::Done && fails_with(
                        r.1,
                        "timed out waiting for the SSH port forward to "@ + self.host@,
                    )
                } else {
                    r.1 matches ConnectAction::Wait(ms) && ms == TUNNEL_POLL_MS && moved(self, r.0, ConnectPhase::TunnelReady)
                },
                (ConnectPhase::ConfirmBeforeCommit, ConnectEvent::Current(current)) => if current {
                    moved(self, r.0, ConnectPhase::Done) && r.1 is Commit
                } else {
                    r.0.phase == ConnectPhase::Done && superseded(self, r.1)
                },
                _ => false,
            },
    {
        let phase = self.phase;
        match (phase, event) {
            (ConnectPhase::Handshake, ConnectEvent::RunnerLine(line)) => match listening_port(line.as_str()) {
                None => (self, ConnectAction::ReadRunnerLine),
                Some(Some(p)) => (
                    TunnelConnect { phase: ConnectPhase::ConfirmAfterHandshake, remote_port: p, ..self },
                    ConnectAction::CheckCurrent,
                ),
                Some(None) => (
                    TunnelConnect { phase: ConnectPhase::RunnerOutput { timed_out: false }, ..self },
                    ConnectAction::CollectRunnerOutput { grace_ms: 0 },
                ),
            },
            (ConnectPhase::Handshake, ConnectEvent::RunnerClosed) => (
                TunnelConnect { phase: ConnectPhase::RunnerOutput { timed_out: false }, ..self },
                ConnectAction::CollectRunnerOutput { grace_ms: 0 },
            ),
            (ConnectPhase::Handshake, ConnectEvent::HandshakeTimedOut) => (
                TunnelConnect { phase: ConnectPhase::RunnerOutput { timed_out: true }, ..self },
                ConnectAction::CollectRunnerOutput { grace_ms: RUNNER_EXIT_GRACE_MS },
            ),
            (ConnectPhase::RunnerOutput { timed_out }, ConnectEvent::RunnerOutput(out)) => {
                let e = if timed_out {
                    runner_timeout_error(self.host.as_str(), out.as_str())
                } else {
                    runner_exit_error(self.host.as_str(), self.remote_binary.as_str(), out.as_str())
                };
                (TunnelConnect { phase: ConnectPhase::Done, ..self }, ConnectAction::Fail(e))
            },
            (ConnectPhase::ConfirmAfterHandshake, ConnectEvent::Current(current)) => {
                if current {
                    (TunnelConnect { phase: ConnectPhase::LocalPort, ..self }, ConnectAction::PickLocalPort)
                } else {
                    let e = superseded_session_error(self.host.as_str(), self.generation);
                    (TunnelConnect { phase: ConnectPhase::Done, ..self }, ConnectAction::Fail(e))
                }
            },
            (ConnectPhase::LocalPort, ConnectEvent::LocalPort(port)) => match port {
                None => (
                    TunnelConnect { phase: ConnectPhase::Done, ..self },
                    ConnectAction::Fail(AppError::Internal(owned("could not find a free local port"))),
                ),
                Some(l) => {
                    let forward = port_forward(l, self.remote_port);
                    let args = tunnel_ssh_args(forward.as_str(), self.host.as_str());
                    (TunnelConnect { phase: ConnectPhase::TunnelReady, local_port: l, ..self }, ConnectAction::StartTunnel(args))
                },
            },
            (ConnectPhase::TunnelReady, ConnectEvent::TunnelExited { status, stderr }) => {
                let detail = tunnel_exit_detail(status.as_str(), stderr.as_str());
                let e = tunnel_failure_error(self.host.as_str(), detail.as_str());
                (TunnelConnect { phase: ConnectPhase::Done, ..self }, ConnectAction::Fail(e))
            },
            (ConnectPhase::TunnelReady, ConnectEvent::TunnelAccepting) => (
                TunnelConnect { phase: ConnectPhase::ConfirmBeforeCommit, ..self },
                ConnectAction::CheckCurrent,
            ),
            (ConnectPhase::TunnelReady, ConnectEvent::TunnelNotYet { elapsed_ms }) => {
                if elapsed_ms >= TUNNEL_READY_TIMEOUT_MS {
                    let e = tunnel_timeout_error(self.host.as_str());
                    (TunnelConnect { phase: ConnectPhase::Done, ..self }, ConnectAction::Fail(e))
                } else {
                    (self, ConnectAction::Wait(TUNNEL_POLL_MS))
                }
            },
            (ConnectPhase::ConfirmBeforeCommit, ConnectEvent::Current(current)) => {
                if current {
                    (TunnelConnect { phase: ConnectPhase::Done, ..self }, ConnectAction::Commit)
                } else {
                    let e = superseded_session_error(self.host.as_str(), self.generation);
                    (TunnelConnect { phase: ConnectPhase::Done, ..self }, ConnectAction::Fail(e))
                }
            },
            (_, _) => (TunnelConnect { phase: ConnectPhase::Done, ..self }, ConnectAction::Commit),
        }
    }
}
} // verus!
