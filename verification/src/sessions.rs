//! Structured direct conversations: when a session may be opened or
//! reused, which native session it resumes, and when the session the host
//! reports becomes the binding's anchor.
use vstd::prelude::*;
use crate::redaction::AppError;
use crate::runtime_bindings::is_string;
use crate::telemetry::JsonValue;
use crate::text::{chars_eq, chars_eq_str, chars_of, owned};

verus! {

/// Only the two terminal harnesses (`claude_terminal`, `codex_terminal`)
/// hold structured conversations.
pub fn supports_structured_sessions(driver_type: &str) -> (r: bool)
    ensures
        r == (driver_type@ == "claude_terminal"@ || driver_type@ == "codex_terminal"@),
{
    proof {
        reveal_strlit("claude_terminal");
        reveal_strlit("codex_terminal");
    }
    let d = chars_of(driver_type);
    chars_eq_str(d.as_slice(), "claude_terminal") || chars_eq_str(d.as_slice(), "codex_terminal")
}

/// A session is not opened while the agent runs a turn.
pub fn check_no_active_turn(running: bool, turn_in_flight: bool) -> (r: Result<(), AppError>)
    ensures
        !(running || turn_in_flight) ==> r is Ok,
        (running || turn_in_flight) ==> (r matches Err(e) && e matches AppError::Conflict(m) && m@
            == "The Agent has an active turn. Wait for it to finish."@),
{
    if running || turn_in_flight {
        return Err(AppError::Conflict(owned("The Agent has an active turn. Wait for it to finish.")));
    }
    Ok(())
}

/// Whether the session the host already holds is answered again: one that
/// is neither `closed` nor `failed`. A session the host does not know is
/// opened anew; any other failure to read it is the answer.
pub fn reuse_existing_session(read: Result<&str, AppError>) -> (r: Result<bool, AppError>)
    ensures
        match read {
            Ok(status) => r == Ok::<bool, AppError>(!(status@ == "closed"@ || status@ == "failed"@)),
            Err(AppError::NotFound(_)) => r == Ok::<bool, AppError>(false),
            Err(e) => r == Err::<bool, AppError>(e),
        },
{
    proof {
        reveal_strlit("closed");
        reveal_strlit("failed");
    }
    match read {
        Ok(status) => {
            let s = chars_of(status);
            Ok(!(chars_eq_str(s.as_slice(), "closed") || chars_eq_str(s.as_slice(), "failed")))
        },
        Err(AppError::NotFound(_)) => Ok(false),
        Err(e) => Err(e),
    }
}

/// The native session a new structured session resumes: for Codex, the one
/// its spawn preparation found; otherwise the binding's current anchor,
/// else its external session.
pub fn structured_resume(
    codex: bool,
    codex_resume: Option<String>,
    anchor_session: Option<String>,
    external_session: Option<String>,
) -> (r: Option<String>)
    ensures
        codex ==> r == codex_resume,
        !codex ==> r == (if anchor_session is Some { anchor_session } else { external_session }),
{
    if codex {
        codex_resume
    } else {
        match anchor_session {
            Some(a) => Some(a),
            None => external_session,
        }
    }
}

/// A launch whose binding changed while it ran is refused.
pub fn check_launch_owner(reserved_owner: &str, launched_owner: &str) -> (r: Result<(), AppError>)
    ensures
        reserved_owner@ == launched_owner@ ==> r is Ok,
        reserved_owner@ != launched_owner@ ==> (r matches Err(e) && e matches AppError::Conflict(m) && m@
            == "Agent configuration changed during session launch"@),
{
    if !chars_eq(chars_of(reserved_owner).as_slice(), chars_of(launched_owner).as_slice()) {
        return Err(AppError::Conflict(owned("Agent configuration changed during session launch")));
    }
    Ok(())
}

/// The anchor a binding holds: its native session id and session file.
pub struct SessionAnchor {
    pub session_id: String,
    pub native_session_path: String,
}

/// `o.unwrap_or_default()` of a text.
pub open spec fn or_empty(o: Option<Seq<char>>) -> Seq<char> {
    match o {
        Some(s) => s,
        None => Seq::empty(),
    }
}

pub open spec fn opt_text(o: Option<String>) -> Option<Seq<char>> {
    match o {
        Some(s) => Some(s@),
        None => None,
    }
}

/// Whether the session a host reports is recorded as the binding's anchor,
/// and with which provenance: for a harness other than Codex, a reported
/// session with a native home that the anchor does not already name
/// (same id and same session file). A reported session file means the
/// process was captured; without one the session was only reserved.
pub open spec fn anchor_provenance(
    codex: bool,
    session_id: Option<Seq<char>>,
    native_home: Option<Seq<char>>,
    native_session_path: Option<Seq<char>>,
    anchor: Option<(Seq<char>, Seq<char>)>,
) -> Option<Seq<char>> {
    if codex || session_id is None || native_home is None {
        None
    } else if anchor matches Some((a, p)) && a == session_id->0 && p == or_empty(native_session_path) {
        None
    } else if native_session_path is Some {
        Some("terminal_process_captured"@)
    } else {
        Some("direct_session_reserved"@)
    }
}

fn same_text(a: &String, b: &String) -> (r: bool)
    ensures
        r == (a@ == b@),
{
    chars_eq(chars_of(a.as_str()).as_slice(), chars_of(b.as_str()).as_slice())
}

/// The provenance a reported session is recorded with, if it is recorded.
pub fn direct_anchor_provenance(
    codex: bool,
    session_id: Option<String>,
    native_home: Option<String>,
    native_session_path: Option<String>,
    anchor: Option<SessionAnchor>,
) -> (r: Option<&'static str>)
    ensures
        match anchor_provenance(
            codex,
            opt_text(session_id),
            opt_text(native_home),
            opt_text(native_session_path),
            match anchor {
                Some(a) => Some((a.session_id@, a.native_session_path@)),
                None => None,
            },
        ) {
            Some(p) => r matches Some(x) && x@ == p,
            None => r is None,
        },
{
    if codex {
        return None;
    }
    let id = match session_id {
        Some(id) => id,
        None => return None,
    };
    if native_home.is_none() {
        return None;
    }
    let path = match &native_session_path {
        Some(p) => owned(p.as_str()),
        None => String::new(),
    };
    match anchor {
        Some(a) => {
            if same_text(&a.session_id, &id) && same_text(&a.native_session_path, &path) {
                return None;
            }
        },
        None => {},
    }
    if native_session_path.is_some() {
        Some("terminal_process_captured")
    } else {
        Some("direct_session_reserved")
    }
}

/// A command sent to a structured session.
pub enum SessionCommandKind {
    Send,
    Respond,
    Interrupt,
    Close,
}

/// The activity a session command is recorded as.
pub fn session_action(kind: SessionCommandKind) -> (r: &'static str)
    ensures
        r@ == match kind {
            SessionCommandKind::Send => "session.send"@,
            SessionCommandKind::Respond => "session.respond"@,
            SessionCommandKind::Interrupt => "session.interrupt"@,
            SessionCommandKind::Close => "session.close"@,
        },
{
    match kind {
        SessionCommandKind::Send => "session.send",
        SessionCommandKind::Respond => "session.respond",
        SessionCommandKind::Interrupt => "session.interrupt",
        SessionCommandKind::Close => "session.close",
    }
}

/// What the activity of a session command records: its outcome and the
/// caller's trace id (`null` without one).
pub fn command_outcome(succeeded: bool, trace_id: Option<&str>) -> (r: JsonValue)
    ensures
        r matches JsonValue::Object(f) && f@.len() == 2 && f@[0].0@ == "outcome"@ && is_string(
            f@[0].1,
            if succeeded { "succeeded"@ } else { "failed"@ },
        ) && f@[1].0@ == "trace_id"@ && match trace_id {
            Some(t) => is_string(f@[1].1, t@),
            None => f@[1].1 == JsonValue::Null,
        },
{
    let mut f: Vec<(String, JsonValue)> = Vec::new();
    f.push((owned("outcome"), JsonValue::Str(owned(if succeeded { "succeeded" } else { "failed" }))));
    f.push((
        owned("trace_id"),
        match trace_id {
            Some(t) => JsonValue::Str(owned(t)),
            None => JsonValue::Null,
        },
    ));
    JsonValue::Object(f)
}

} // verus!
