//! Terminal bindings: who may open an agent's terminal, what the terminal
//! is launched with, how input reaches it, and what is recorded of its use
//! (transport activity only, never what was typed or shown).
use vstd::prelude::*;
use vstd::utf8::encode_utf8;
use crate::evaluation::{lemma_with_member, set_member, with_member};
use crate::experience::{json_at, json_clone, json_eq, json_get};
use crate::redaction::AppError;
use crate::runtime_bindings::{config_members, is_string, RuntimeBinding};
use crate::telemetry::{member, JsonValue};
use crate::text::{all_digits, bytes_of, chars_eq, chars_of, digits_value, has_char, has_char_exec, owned, parse_u64_exec, parse_u64, trim, trim_str, u64_to_decimal, decimal};

verus! {

// ── Authorization ───────────────────────────────────────────────────

fn forbidden(message: &str) -> (e: AppError)
    ensures
        e matches AppError::Forbidden(m) && m@ == message@,
{
    AppError::Forbidden(owned(message))
}

/// Only people open terminals.
pub fn check_terminal_caller(is_human: bool) -> (r: Result<(), AppError>)
    ensures
        is_human ==> r is Ok,
        !is_human ==> (r matches Err(e) && e matches AppError::Forbidden(m) && m@
            == "terminal bindings are only available to human callers"@),
{
    if !is_human {
        return Err(forbidden("terminal bindings are only available to human callers"));
    }
    Ok(())
}

/// The binding must be an enabled terminal binding.
pub fn check_terminal_binding(is_terminal_driver: bool, disabled: bool) -> (r: Result<(), AppError>)
    ensures
        !is_terminal_driver ==> (r matches Err(e) && e matches AppError::Forbidden(m) && m@
            == "runtime binding is not a terminal binding"@),
        is_terminal_driver && disabled ==> (r matches Err(e) && e matches AppError::Forbidden(m) && m@
            == "runtime binding is disabled"@),
        is_terminal_driver && !disabled ==> r is Ok,
{
    if !is_terminal_driver {
        return Err(forbidden("runtime binding is not a terminal binding"));
    }
    if disabled {
        return Err(forbidden("runtime binding is disabled"));
    }
    Ok(())
}

/// Why the conversation refuses the terminal, if it does.
pub open spec fn conversation_refusal(is_direct: bool, caller_is_member: bool, agent_is_member: bool) -> Option<Seq<char>> {
    if !is_direct {
        Some("terminal bindings are only available for direct conversations"@)
    } else if !caller_is_member {
        Some("caller is not a member of the terminal conversation"@)
    } else if !agent_is_member {
        Some("agent is not a member of the terminal conversation"@)
    } else {
        None
    }
}

/// The terminal's conversation must be a direct one holding both the
/// caller and the agent.
pub fn check_terminal_conversation(is_direct: bool, caller_is_member: bool, agent_is_member: bool) -> (r: Result<(), AppError>)
    ensures
        match conversation_refusal(is_direct, caller_is_member, agent_is_member) {
            None => r is Ok,
            Some(m) => r matches Err(e) && e matches AppError::Forbidden(x) && x@ == m,
        },
{
    if !is_direct {
        return Err(forbidden("terminal bindings are only available for direct conversations"));
    }
    if !caller_is_member {
        return Err(forbidden("caller is not a member of the terminal conversation"));
    }
    if !agent_is_member {
        return Err(forbidden("agent is not a member of the terminal conversation"));
    }
    Ok(())
}

/// The agent must be enabled, and both the conversation's and the agent's
/// workspaces must be ones the caller may access.
pub fn check_terminal_agent(agent_disabled: bool, conversation_workspace_allowed: bool, agent_workspace_allowed: bool) -> (r: Result<(), AppError>)
    ensures
        agent_disabled ==> (r matches Err(e) && e matches AppError::Forbidden(m) && m@
            == "agent principal is disabled"@),
        !agent_disabled && !(conversation_workspace_allowed && agent_workspace_allowed) ==> (r matches Err(e)
            && e matches AppError::Forbidden(m) && m@ == "cross-workspace access denied"@),
        !agent_disabled && conversation_workspace_allowed && agent_workspace_allowed ==> r is Ok,
{
    if agent_disabled {
        return Err(forbidden("agent principal is disabled"));
    }
    if !conversation_workspace_allowed || !agent_workspace_allowed {
        return Err(forbidden("cross-workspace access denied"));
    }
    Ok(())
}

/// What looking up a workspace's company gave: the company, and whether it
/// is deleted or archived; or the lookup's error.
pub fn check_workspace_active(lookup: Result<bool, AppError>) -> (r: Result<(), AppError>)
    ensures
        match lookup {
            Ok(inactive) => if inactive {
                r matches Err(e) && e matches AppError::Forbidden(m) && m@ == "terminal workspace is not active"@
            } else {
                r is Ok
            },
            Err(e) => if e is NotFound {
                r is Ok
            } else {
                r == Err::<(), AppError>(e)
            },
        },
{
    match lookup {
        Ok(inactive) => if inactive {
            Err(forbidden("terminal workspace is not active"))
        } else {
            Ok(())
        },
        Err(AppError::NotFound(_)) => Ok(()),
        Err(e) => Err(e),
    }
}

/// The configuration an authorized terminal runs with: the binding's
/// configuration (`{}` unless an object) with the agent's and the
/// conversation's workspaces recorded.
pub fn bind_terminal_context(config_json: JsonValue, agent_workspace_id: &str, conversation_workspace_id: &str) -> (r: JsonValue)
    ensures
        r is Object,
        member(r->Object_0@, "agent_workspace_id"@) matches Some(v) && is_string(v, agent_workspace_id@),
        member(r->Object_0@, "conversation_workspace_id"@) matches Some(v) && is_string(
            v,
            conversation_workspace_id@,
        ),
        forall|k: Seq<char>|
            k != "agent_workspace_id"@ && k != "conversation_workspace_id"@ ==> #[trigger] member(
                r->Object_0@,
                k,
            ) == member(config_members(Some(config_json)), k),
{
    proof {
        reveal_strlit("agent_workspace_id");
        reveal_strlit("conversation_workspace_id");
        assert("agent_workspace_id"@.len() != "conversation_workspace_id"@.len());
    }
    let mut fields = match config_json {
        JsonValue::Object(f) => f,
        _ => Vec::new(),
    };
    let ghost m0 = fields@;
    let a = JsonValue::Str(owned(agent_workspace_id));
    let ghost ga = a;
    set_member(&mut fields, "agent_workspace_id", a);
    let ghost m1 = fields@;
    let c = JsonValue::Str(owned(conversation_workspace_id));
    let ghost gc = c;
    set_member(&mut fields, "conversation_workspace_id", c);
    let ghost m2 = fields@;
    proof {
        assert forall|k: Seq<char>| #[trigger] member(m2, k) == (if k == "conversation_workspace_id"@ {
            Some(gc)
        } else if k == "agent_workspace_id"@ {
            Some(ga)
        } else {
            member(m0, k)
        }) by {
            lemma_with_member(m0, "agent_workspace_id"@, ga, m1, k);
            lemma_with_member(m1, "conversation_workspace_id"@, gc, m2, k);
        }
        assert(member(m2, "agent_workspace_id"@) == Some(ga));
        assert(member(m2, "conversation_workspace_id"@) == Some(gc));
    }
    let r = JsonValue::Object(fields);
    assert(r->Object_0@ == m2);
    r
}

// ── Launch ──────────────────────────────────────────────────────────

/// What a terminal is launched with.
#[derive(Debug)]
pub struct TerminalSpec {
    pub terminal_id: String,
    pub driver_type: String,
    pub binary_path: Option<String>,
    pub workspace_path: String,
    pub cols: u16,
    pub rows: u16,
    pub resume_session_id: Option<String>,
    pub codex_home: Option<String>,
    pub model: Option<String>,
    pub harness_account: JsonValue,
}

pub open spec fn opt_view(o: Option<String>) -> Option<Seq<char>> {
    match o {
        Some(s) => Some(s@),
        None => None,
    }
}

/// The configured model, trimmed, when it is a non-blank string.
pub open spec fn configured_model(config: JsonValue) -> Option<Seq<char>> {
    match json_at(config, "model"@) {
        JsonValue::Str(m) => if trim(m@).len() > 0 {
            Some(trim(m@))
        } else {
            None
        },
        _ => None,
    }
}

/// The configured binary, when it is a string.
pub open spec fn configured_binary(config: JsonValue) -> Option<Seq<char>> {
    match json_at(config, "binary_path"@) {
        JsonValue::Str(b) => Some(b@),
        _ => None,
    }
}

/// The launch spec of a binding's terminal.
pub fn terminal_spec(binding: &RuntimeBinding, cols: u16, rows: u16, resume_session_id: Option<String>, codex_home: Option<String>) -> (s: TerminalSpec)
    ensures
        s.terminal_id@ == binding.id@,
        s.driver_type@ == binding.driver_type@,
        opt_view(s.binary_path) == configured_binary(binding.config_json),
        s.workspace_path@ == binding.workspace_path@,
        s.cols == cols,
        s.rows == rows,
        s.resume_session_id == resume_session_id,
        s.codex_home == codex_home,
        opt_view(s.model) == configured_model(binding.config_json),
        json_eq(s.harness_account, binding.config_json),
{
    let c = &binding.config_json;
    let binary_path = match json_get(c, "binary_path") {
        Some(JsonValue::Str(b)) => Some(owned(b.as_str())),
        _ => None,
    };
    let model = match json_get(c, "model") {
        Some(JsonValue::Str(m)) => {
            let t = trim_str(m.as_str());
            if chars_of(t).len() > 0 {
                Some(owned(t))
            } else {
                None
            }
        },
        _ => None,
    };
    TerminalSpec {
        terminal_id: owned(binding.id.as_str()),
        driver_type: owned(binding.driver_type.as_str()),
        binary_path,
        workspace_path: owned(binding.workspace_path.as_str()),
        cols,
        rows,
        resume_session_id,
        codex_home,
        model,
        harness_account: json_clone(c),
    }
}

/// The session a terminal resumes: the Codex session prepared for it when a
/// Codex home was prepared, else the binding's own resumable session.
pub fn effective_resume_session(codex_home: &Option<String>, codex_session: Option<String>, binding_session: Option<String>) -> (r: Option<String>)
    ensures
        r == (if codex_home is Some { codex_session } else { binding_session }),
{
    if codex_home.is_some() {
        codex_session
    } else {
        binding_session
    }
}

/// The answer to ensuring a terminal: it resumed a session only when it
/// was newly created with one (members sorted by name).
pub fn ensure_terminal_response(binding_id: &str, newly_created: bool, resumed: bool) -> (r: JsonValue)
    ensures
        r matches JsonValue::Object(m) && m@.len() == 4 && m@[0].0@ == "binding_id"@ && is_string(
            m@[0].1,
            binding_id@,
        ) && m@[1].0@ == "newly_created"@ && m@[1].1 == JsonValue::Bool(newly_created) && m@[2].0@
            == "resumed_session"@ && m@[2].1 == JsonValue::Bool(resumed && newly_created) && m@[3].0@
            == "status"@ && is_string(m@[3].1, "ok"@),
{
    let mut m: Vec<(String, JsonValue)> = Vec::new();
    m.push((owned("binding_id"), JsonValue::Str(owned(binding_id))));
    m.push((owned("newly_created"), JsonValue::Bool(newly_created)));
    m.push((owned("resumed_session"), JsonValue::Bool(resumed && newly_created)));
    m.push((owned("status"), JsonValue::Str(owned("ok"))));
    JsonValue::Object(m)
}

// ── Input ───────────────────────────────────────────────────────────

/// The bytes that start and end a bracketed paste.
pub open spec fn paste_start() -> Seq<u8> {
    seq![0x1bu8, 0x5bu8, 0x32u8, 0x30u8, 0x30u8, 0x7eu8]
}

pub open spec fn paste_end() -> Seq<u8> {
    seq![0x1bu8, 0x5bu8, 0x32u8, 0x30u8, 0x31u8, 0x7eu8]
}

/// The bytes written for submitted text: multi-line text goes in as one
/// bracketed paste, so that the harness does not submit at its first line
/// break. (A carriage return, written after it, submits it.)
pub open spec fn submission_bytes(text: Seq<char>) -> Seq<u8> {
    if has_char(text, '\n') {
        paste_start() + encode_utf8(text) + paste_end()
    } else {
        encode_utf8(text)
    }
}

/// The bytes to write for submitted text.
pub fn terminal_submission(text: &str) -> (r: Vec<u8>)
    ensures
        r@ == submission_bytes(text@),
{
    let multi_line = has_char_exec(chars_of(text).as_slice(), '\n');
    let body = bytes_of(text);
    if !multi_line {
        return body;
    }
    let mut r: Vec<u8> = Vec::new();
    r.push(0x1bu8);
    r.push(0x5bu8);
    r.push(0x32u8);
    r.push(0x30u8);
    r.push(0x30u8);
    r.push(0x7eu8);
    let mut i: usize = 0;
    while i < body.len()
        invariant
            i <= body@.len(),
            r@ == paste_start() + body@.take(i as int),
        decreases body.len() - i,
    {
        r.push(body[i]);
        assert(body@.take(i + 1) =~= body@.take(i as int).push(body@[i as int]));
        assert(r@ =~= paste_start() + body@.take(i + 1));
        i = i + 1;
    }
    assert(body@.take(body@.len() as int) =~= body@);
    r.push(0x1bu8);
    r.push(0x5bu8);
    r.push(0x32u8);
    r.push(0x30u8);
    r.push(0x31u8);
    r.push(0x7eu8);
    assert(r@ =~= paste_start() + body@ + paste_end());
    r
}

/// `value.as_u64()`: a JSON number that is a non-negative integer.
pub open spec fn json_u64(v: JsonValue) -> Option<u64> {
    match v {
        JsonValue::Number(t) => if t@.len() > 0 && all_digits(t@) {
            parse_u64(t@)
        } else {
            None
        },
        _ => None,
    }
}

/// What a text frame from the terminal's browser asks for.
#[derive(Debug, PartialEq, Eq, Structural)]
pub enum TerminalFrame {
    /// Resize the terminal.
    Resize { cols: u16, rows: u16 },
    /// Write the frame's text as input.
    Input,
}

/// A size from a resize frame: the number given (kept to its low 16 bits,
/// as a `u16` cast keeps it), else the default.
pub open spec fn frame_size(v: JsonValue, default: u16) -> u16 {
    match json_u64(v) {
        Some(n) => (n % 0x10000) as u16,
        None => default,
    }
}

fn json_u64_exec(v: Option<&JsonValue>) -> (r: Option<u64>)
    ensures
        r == json_u64(match v {
            Some(x) => *x,
            None => JsonValue::Null,
        }),
{
    match v {
        Some(JsonValue::Number(t)) => {
            let c = chars_of(t.as_str());
            if c.len() == 0 {
                return None;
            }
            let digits = crate::text::all_digits_from(c.as_slice(), 0);
            assert(c@.skip(0) =~= c@);
            if !digits {
                return None;
            }
            parse_u64_exec(c.as_slice())
        },
        _ => None,
    }
}

/// A text frame is a resize when it parses as JSON with `type` `resize`;
/// anything else is input. `parsed` is the frame parsed as JSON, if it is.
pub fn classify_text_frame(parsed: Option<&JsonValue>) -> (r: TerminalFrame)
    ensures
        match parsed {
            Some(v) => if is_string(json_at(*v, "type"@), "resize"@) {
                r == (TerminalFrame::Resize {
                    cols: frame_size(json_at(*v, "cols"@), 120),
                    rows: frame_size(json_at(*v, "rows"@), 40),
                })
            } else {
                r == TerminalFrame::Input
            },
            None => r == TerminalFrame::Input,
        },
{
    let v = match parsed {
        Some(v) => v,
        None => return TerminalFrame::Input,
    };
    let resize = match json_get(v, "type") {
        Some(JsonValue::Str(s)) => chars_eq(chars_of(s.as_str()).as_slice(), chars_of("resize").as_slice()),
        _ => false,
    };
    if !resize {
        return TerminalFrame::Input;
    }
    let cols: u16 = match json_u64_exec(json_get(v, "cols")) {
        Some(n) => (n % 0x10000) as u16,
        None => 120,
    };
    let rows: u16 = match json_u64_exec(json_get(v, "rows")) {
        Some(n) => (n % 0x10000) as u16,
        None => 40,
    };
    TerminalFrame::Resize { cols, rows }
}

// ── Activity ────────────────────────────────────────────────────────

/// The binding's configuration member `key`, `null` when absent.
pub open spec fn config_member(b: RuntimeBinding, key: Seq<char>) -> JsonValue {
    json_at(b.config_json, key)
}

fn clone_member(v: &JsonValue, key: &str) -> (r: JsonValue)
    ensures
        json_eq(r, json_at(*v, key@)),
{
    match json_get(v, key) {
        Some(x) => json_clone(x),
        None => JsonValue::Null,
    }
}

/// The keys a terminal activity record always carries.
pub open spec fn activity_key(k: Seq<char>) -> bool {
    k == "conversation_id"@ || k == "agent_id"@ || k == "company_id"@ || k == "runtime_host_id"@
        || k == "harness"@ || k == "harness_account_id"@
}

/// The activity record of a terminal event: the event's own metadata with
/// the binding's conversation, agent, company, host, harness and account
/// set (each replaced in place when present, else appended in this order).
pub fn terminal_activity_metadata(metadata: Vec<(String, JsonValue)>, binding: &RuntimeBinding) -> (r: Vec<(String, JsonValue)>)
    ensures
        member(r@, "conversation_id"@) matches Some(v) && is_string(v, binding.conversation_id@),
        member(r@, "agent_id"@) matches Some(v) && is_string(v, binding.agent_principal_id@),
        member(r@, "company_id"@) matches Some(v) && json_eq(v, config_member(*binding, "conversation_workspace_id"@)),
        member(r@, "runtime_host_id"@) matches Some(v) && json_eq(v, config_member(*binding, "runtime_host_id"@)),
        member(r@, "harness"@) matches Some(v) && is_string(v, binding.driver_type@),
        member(r@, "harness_account_id"@) matches Some(v) && json_eq(v, config_member(*binding, "harness_account_id"@)),
        forall|k: Seq<char>| !activity_key(k) ==> #[trigger] member(r@, k) == member(metadata@, k),
{
    proof {
        reveal_strlit("conversation_id");
        reveal_strlit("agent_id");
        reveal_strlit("company_id");
        reveal_strlit("runtime_host_id");
        reveal_strlit("harness");
        reveal_strlit("harness_account_id");
        assert("conversation_id"@[0] != "runtime_host_id"@[0]);
        assert("conversation_id"@.len() != "harness_account_id"@.len());
        assert("conversation_id"@.len() != "harness"@.len());
        assert("conversation_id"@.len() != "company_id"@.len());
        assert("conversation_id"@.len() != "agent_id"@.len());
        assert("agent_id"@.len() != "harness_account_id"@.len());
        assert("agent_id"@.len() != "harness"@.len());
        assert("agent_id"@.len() != "runtime_host_id"@.len());
        assert("agent_id"@.len() != "company_id"@.len());
        assert("company_id"@.len() != "harness_account_id"@.len());
        assert("company_id"@.len() != "harness"@.len());
        assert("company_id"@.len() != "runtime_host_id"@.len());
        assert("runtime_host_id"@.len() != "harness_account_id"@.len());
        assert("runtime_host_id"@.len() != "harness"@.len());
        assert("harness"@.len() != "harness_account_id"@.len());
    }
    let ghost m0 = metadata@;
    let mut m = metadata;
    let v1 = JsonValue::Str(owned(binding.conversation_id.as_str()));
    let ghost g1 = v1;
    set_member(&mut m, "conversation_id", v1);
    let ghost m1 = m@;
    let v2 = JsonValue::Str(owned(binding.agent_principal_id.as_str()));
    let ghost g2 = v2;
    set_member(&mut m, "agent_id", v2);
    let ghost m2 = m@;
    let v3 = clone_member(&binding.config_json, "conversation_workspace_id");
    let ghost g3 = v3;
    set_member(&mut m, "company_id", v3);
    let ghost m3 = m@;
    let v4 = clone_member(&binding.config_json, "runtime_host_id");
    let ghost g4 = v4;
    set_member(&mut m, "runtime_host_id", v4);
    let ghost m4 = m@;
    let v5 = JsonValue::Str(owned(binding.driver_type.as_str()));
    let ghost g5 = v5;
    set_member(&mut m, "harness", v5);
    let ghost m5 = m@;
    let v6 = clone_member(&binding.config_json, "harness_account_id");
    let ghost g6 = v6;
    set_member(&mut m, "harness_account_id", v6);
    let ghost m6 = m@;
    proof {
        assert forall|k: Seq<char>| #[trigger] member(m6, k) == (if k == "harness_account_id"@ {
            Some(g6)
        } else if k == "harness"@ {
            Some(g5)
        } else if k == "runtime_host_id"@ {
            Some(g4)
        } else if k == "company_id"@ {
            Some(g3)
        } else if k == "agent_id"@ {
            Some(g2)
        } else if k == "conversation_id"@ {
            Some(g1)
        } else {
            member(m0, k)
        }) by {
            lemma_with_member(m0, "conversation_id"@, g1, m1, k);
            lemma_with_member(m1, "agent_id"@, g2, m2, k);
            lemma_with_member(m2, "company_id"@, g3, m3, k);
            lemma_with_member(m3, "runtime_host_id"@, g4, m4, k);
            lemma_with_member(m4, "harness"@, g5, m5, k);
            lemma_with_member(m5, "harness_account_id"@, g6, m6, k);
        }
        assert(member(m6, "conversation_id"@) == Some(g1));
        assert(member(m6, "agent_id"@) == Some(g2));
        assert(member(m6, "company_id"@) == Some(g3));
        assert(member(m6, "runtime_host_id"@) == Some(g4));
        assert(member(m6, "harness"@) == Some(g5));
        assert(member(m6, "harness_account_id"@) == Some(g6));
    }
    m
}

fn opt_text(o: Option<&str>) -> (r: JsonValue)
    ensures
        match o {
            Some(s) => is_string(r, s@),
            None => r is Null,
        },
{
    match o {
        Some(s) => JsonValue::Str(owned(s)),
        None => JsonValue::Null,
    }
}

/// What is recorded when typed input is submitted: its size in bytes, the
/// submission and the caller's trace, never the text (members sorted by name).
pub fn submission_started(input: &str, submission_id: &str, trace_id: Option<&str>) -> (r: Vec<(String, JsonValue)>)
    ensures
        r@.len() == 3,
        r@[0].0@ == "input_bytes"@ && (r@[0].1 matches JsonValue::Number(n) && n@ == decimal(
            encode_utf8(input@).len(),
        )),
        r@[1].0@ == "submission_id"@ && is_string(r@[1].1, submission_id@),
        r@[2].0@ == "trace_id"@ && match trace_id {
            Some(s) => is_string(r@[2].1, s@),
            None => r@[2].1 is Null,
        },
{
    let n = bytes_of(input).len();
    let mut m: Vec<(String, JsonValue)> = Vec::new();
    m.push((owned("input_bytes"), JsonValue::Number(u64_to_decimal(n as u64))));
    m.push((owned("submission_id"), JsonValue::Str(owned(submission_id))));
    m.push((owned("trace_id"), opt_text(trace_id)));
    m
}

/// What is recorded when a submission finished: whether it succeeded.
pub fn submission_finished(succeeded: bool, submission_id: &str, trace_id: Option<&str>) -> (r: Vec<(String, JsonValue)>)
    ensures
        r@.len() == 3,
        r@[0].0@ == "outcome"@ && is_string(r@[0].1, if succeeded { "succeeded"@ } else { "failed"@ }),
        r@[1].0@ == "submission_id"@ && is_string(r@[1].1, submission_id@),
        r@[2].0@ == "trace_id"@ && match trace_id {
            Some(s) => is_string(r@[2].1, s@),
            None => r@[2].1 is Null,
        },
{
    let mut m: Vec<(String, JsonValue)> = Vec::new();
    m.push((owned("outcome"), JsonValue::Str(owned(if succeeded { "succeeded" } else { "failed" }))));
    m.push((owned("submission_id"), JsonValue::Str(owned(submission_id))));
    m.push((owned("trace_id"), opt_text(trace_id)));
    m
}

} // verus!
