//! The operations a human may run on a device from the dashboard, and how
//! a write that follows an in-memory change is retried.
use vstd::prelude::*;
use crate::experience::{json_at, json_get};
use crate::redaction::AppError;
use crate::telemetry::{find_member, JsonValue};
use crate::text::{chars_eq_str, chars_of, owned};

verus! {

/// A dashboard operation on a device: browsing, a session scan or
/// workspace provisioning. The harness selection and the files stay JSON
/// for the device's own reader.
pub enum HostOperation {
    DriverCatalog { driver_type: Option<String> },
    FilesystemHome,
    FilesystemList { path: String, show_hidden: bool, include_files: bool },
    ScanSessions { workspace_path: String, harnesses: JsonValue },
    ProvisionWorkspace { workspace_path: Option<String>, name: String, files: Option<JsonValue> },
}

/// `request[key].as_str()`.
pub open spec fn text_at(request: JsonValue, key: Seq<char>) -> Option<Seq<char>> {
    match json_at(request, key) {
        JsonValue::Str(s) => Some(s@),
        _ => None,
    }
}

/// `request[key].as_bool().unwrap_or(false)`.
pub open spec fn flag_at(request: JsonValue, key: Seq<char>) -> bool {
    json_at(request, key) == JsonValue::Bool(true)
}

pub open spec fn opt_view(o: Option<String>) -> Option<Seq<char>> {
    match o {
        Some(s) => Some(s@),
        None => None,
    }
}

/// The refusal for an operation missing a required text.
pub open spec fn requires_message(kind: Seq<char>, key: Seq<char>) -> Seq<char> {
    kind + " requires "@ + key
}

fn text_member(request: &JsonValue, key: &str) -> (r: Option<String>)
    ensures
        opt_view(r) == text_at(*request, key@),
{
    match json_get(request, key) {
        Some(JsonValue::Str(s)) => Some(owned(s.as_str())),
        _ => None,
    }
}

fn flag_member(request: &JsonValue, key: &str) -> (r: bool)
    ensures
        r == flag_at(*request, key@),
{
    match json_get(request, key) {
        Some(JsonValue::Bool(b)) => *b,
        _ => false,
    }
}

/// `request[key]`, taken out of the request.
fn take_member(request: JsonValue, key: &str) -> (r: JsonValue)
    ensures
        r == json_at(request, key@),
{
    match request {
        JsonValue::Object(mut f) => match find_member(&f, key) {
            Some(i) => {
                let (_, v) = f.remove(i);
                v
            },
            None => JsonValue::Null,
        },
        _ => JsonValue::Null,
    }
}

fn required(request: &JsonValue, kind: &str, key: &str) -> (r: Result<String, AppError>)
    ensures
        match text_at(*request, key@) {
            Some(t) => r matches Ok(x) && x@ == t,
            None => r matches Err(e) && e matches AppError::Validation(m) && m@ == requires_message(kind@, key@),
        },
{
    match text_member(request, key) {
        Some(t) => Ok(t),
        None => {
            let mut m = owned(kind);
            m.append(" requires ");
            m.append(key);
            Err(AppError::Validation(m))
        },
    }
}

/// The operation a dashboard request names, with the texts it needs.
pub fn host_operation(kind: &str, request: JsonValue) -> (r: Result<HostOperation, AppError>)
    ensures
        kind@ == "drivers.inspect"@ ==> (r matches Ok(HostOperation::DriverCatalog { driver_type })
            && opt_view(driver_type) == text_at(request, "driver_type"@)),
        kind@ == "filesystem.home"@ ==> r matches Ok(HostOperation::FilesystemHome),
        kind@ == "filesystem.list"@ ==> match text_at(request, "path"@) {
            Some(p) => r matches Ok(HostOperation::FilesystemList { path, show_hidden, include_files })
                && path@ == p && show_hidden == flag_at(request, "show_hidden"@) && include_files == flag_at(
                request,
                "include_files"@,
            ),
            None => r matches Err(e) && e matches AppError::Validation(m) && m@ == requires_message(kind@, "path"@),
        },
        kind@ == "workspace_sessions.scan"@ ==> match text_at(request, "workspace_path"@) {
            Some(p) => r matches Ok(HostOperation::ScanSessions { workspace_path, harnesses })
                && workspace_path@ == p && harnesses == json_at(request, "harnesses"@),
            None => r matches Err(e) && e matches AppError::Validation(m) && m@ == requires_message(
                kind@,
                "workspace_path"@,
            ),
        },
        kind@ == "workspace.provision"@ ==> match text_at(request, "name"@) {
            Some(n) => r matches Ok(HostOperation::ProvisionWorkspace { workspace_path, name, files })
                && opt_view(workspace_path) == text_at(request, "workspace_path"@) && name@ == n && files == (
            match json_at(request, "files"@) {
                JsonValue::Null => None,
                f => Some(f),
            }),
            None => r matches Err(e) && e matches AppError::Validation(m) && m@ == requires_message(kind@, "name"@),
        },
        !(kind@ == "drivers.inspect"@ || kind@ == "filesystem.home"@ || kind@ == "filesystem.list"@ || kind@
            == "workspace_sessions.scan"@ || kind@ == "workspace.provision"@) ==> (r matches Err(e)
            && e matches AppError::Validation(m) && m@ == "unsupported runtime host operation"@),
{
    proof {
        reveal_strlit("drivers.inspect");
        reveal_strlit("filesystem.home");
        reveal_strlit("filesystem.list");
        reveal_strlit("workspace_sessions.scan");
        reveal_strlit("workspace.provision");
        assert("filesystem.home"@[0] != "drivers.inspect"@[0]);
        assert("filesystem.list"@[0] != "drivers.inspect"@[0]);
        assert("filesystem.list"@[11] != "filesystem.home"@[11]);
        assert("workspace_sessions.scan"@.len() != "drivers.inspect"@.len());
        assert("workspace_sessions.scan"@.len() != "filesystem.home"@.len());
        assert("workspace_sessions.scan"@.len() != "filesystem.list"@.len());
    }
    let k = chars_of(kind);
    if chars_eq_str(k.as_slice(), "drivers.inspect") {
        Ok(HostOperation::DriverCatalog { driver_type: text_member(&request, "driver_type") })
    } else if chars_eq_str(k.as_slice(), "filesystem.home") {
        Ok(HostOperation::FilesystemHome)
    } else if chars_eq_str(k.as_slice(), "filesystem.list") {
        let path = required(&request, kind, "path")?;
        Ok(HostOperation::FilesystemList {
            path,
            show_hidden: flag_member(&request, "show_hidden"),
            include_files: flag_member(&request, "include_files"),
        })
    } else if chars_eq_str(k.as_slice(), "workspace_sessions.scan") {
        let workspace_path = required(&request, kind, "workspace_path")?;
        let harnesses = take_member(request, "harnesses");
        Ok(HostOperation::ScanSessions { workspace_path, harnesses })
    } else if chars_eq_str(k.as_slice(), "workspace.provision") {
        let workspace_path = text_member(&request, "workspace_path");
        let name = required(&request, kind, "name")?;
        let files = match take_member(request, "files") {
            JsonValue::Null => None,
            f => Some(f),
        };
        Ok(HostOperation::ProvisionWorkspace { workspace_path, name, files })
    } else {
        Err(AppError::Validation(owned("unsupported runtime host operation")))
    }
}

// ── Writes after in-memory changes ──────────────────────────────────

/// Attempts a follow-up write gets.
pub const PERSIST_ATTEMPTS: u32 = 3;

/// What follows one attempt of a follow-up write.
pub enum PersistStep {
    Done,
    RetryAfterMs(u64),
    GiveUp,
}

/// A write that follows an in-memory change is tried three times: a
/// failed attempt is retried after 100 ms times the attempts made so far,
/// and the third failure is given up (and logged).
pub fn persist_step(attempt: u32, succeeded: bool) -> (r: PersistStep)
    requires
        attempt < PERSIST_ATTEMPTS,
    ensures
        succeeded ==> r is Done,
        !succeeded && attempt + 1 < PERSIST_ATTEMPTS ==> (r matches PersistStep::RetryAfterMs(ms) && ms == 100 * (attempt + 1)),
        !succeeded && attempt + 1 == PERSIST_ATTEMPTS ==> r is GiveUp,
{
    if succeeded {
        PersistStep::Done
    } else if attempt + 1 < PERSIST_ATTEMPTS {
        PersistStep::RetryAfterMs(100 * (attempt as u64 + 1))
    } else {
        PersistStep::GiveUp
    }
}

/// How a principal's kind is stored.
pub fn principal_type_label(is_agent: bool) -> (r: &'static str)
    ensures
        r@ == if is_agent { "agent"@ } else { "human"@ },
{
    if is_agent {
        "agent"
    } else {
        "human"
    }
}

/// How a principal's channel visibility is stored.
pub fn channel_visibility_label(internal: bool) -> (r: &'static str)
    ensures
        r@ == if internal { "internal"@ } else { "visible"@ },
{
    if internal {
        "internal"
    } else {
        "visible"
    }
}

} // verus!
