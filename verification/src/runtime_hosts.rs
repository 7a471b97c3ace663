//! Names and account identities that runtime hosts report to the gateway.
use vstd::prelude::*;
use crate::harness::has_ctrl;
use crate::redaction::AppError;
use crate::identifiers::{require_uuid, uuid_text};
use crate::telemetry::{find_member, member, JsonValue};
use crate::text::{any_ctrl, chars_eq_str, chars_of, owned, trim, trim_str};
use vstd::utf8::encode_utf8;

verus! {

/// The secret that runtime-host tokens and pairing codes are keyed with:
/// the gateway's session-signing secret.
pub fn secret(session_secret: &str) -> (r: &str)
    ensures
        r@ == session_secret@,
{
    session_secret
}

/// A display name once trimmed: 1 to 80 characters, none of them a control character.
pub open spec fn printable_name_ok(name: Seq<char>) -> bool {
    let t = trim(name);
    0 < t.len() <= 80 && !has_ctrl(t)
}

fn checked_name<'a>(name: &'a str, message: &str) -> (r: Result<&'a str, AppError>)
    ensures
        printable_name_ok(name@) ==> (r matches Ok(t) && t@ == trim(name@)),
        !printable_name_ok(name@) ==> (r matches Err(e) && e matches AppError::Validation(m)
            && m@ == message@),
{
    let t = trim_str(name);
    let v = chars_of(t);
    if v.len() == 0 || v.len() > 80 || any_ctrl(v.as_slice()) {
        Err(AppError::Validation(owned(message)))
    } else {
        Ok(t)
    }
}

/// The trimmed host name, or a validation error.
pub fn validate_host_name(name: &str) -> (r: Result<&str, AppError>)
    ensures
        printable_name_ok(name@) ==> (r matches Ok(t) && t@ == trim(name@)),
        !printable_name_ok(name@) ==> (r matches Err(e) && e matches AppError::Validation(m)
            && m@ == "name must contain 1 to 80 printable characters"@),
{
    checked_name(name, "name must contain 1 to 80 printable characters")
}

/// The trimmed harness-account name, or a validation error.
pub fn validate_account_name(name: &str) -> (r: Result<&str, AppError>)
    ensures
        printable_name_ok(name@) ==> (r matches Ok(t) && t@ == trim(name@)),
        !printable_name_ok(name@) ==> (r matches Err(e) && e matches AppError::Validation(m)
            && m@ == "account name must contain 1 to 80 printable characters"@),
{
    checked_name(name, "account name must contain 1 to 80 printable characters")
}

pub open spec fn is_hex_char(c: char) -> bool {
    ('0' <= c && c <= '9') || ('a' <= c && c <= 'f') || ('A' <= c && c <= 'F')
}

/// A SHA-256 digest in hex: 64 hexadecimal digits of either case.
pub open spec fn sha256_hex_ok(s: Seq<char>) -> bool {
    s.len() == 64 && forall|i: int| 0 <= i < s.len() ==> is_hex_char(#[trigger] s[i])
}

/// A subscription type, when present: at most 80 characters, no control character.
pub open spec fn subscription_ok(s: Option<Seq<char>>) -> bool {
    match s {
        Some(v) => v.len() <= 80 && !has_ctrl(v),
        None => true,
    }
}

fn all_hex(v: &[char]) -> (r: bool)
    ensures
        r == forall|i: int| 0 <= i < v@.len() ==> is_hex_char(#[trigger] v@[i]),
{
    let mut i: usize = 0;
    while i < v.len()
        invariant
            i <= v.len(),
            forall|j: int| 0 <= j < i ==> is_hex_char(#[trigger] v@[j]),
        decreases v.len() - i,
    {
        let c = v[i];
        if !(('0' <= c && c <= '9') || ('a' <= c && c <= 'f') || ('A' <= c && c <= 'F')) {
            return false;
        }
        i = i + 1;
    }
    true
}

/// The identity part of an authenticated harness account: its fingerprint
/// must be a SHA-256 hex digest and its subscription type, if any, short
/// and printable. These checks come before the model and quota checks.
pub fn validate_account_identity(fingerprint: &str, subscription_type: Option<&str>) -> (r: Result<
    (),
    AppError,
>)
    ensures
        !sha256_hex_ok(fingerprint@) ==> (r matches Err(e) && e matches AppError::Validation(m)
            && m@ == "account_fingerprint must be a SHA-256 hex digest"@),
        sha256_hex_ok(fingerprint@) && !subscription_ok(
            match subscription_type {
                Some(s) => Some(s@),
                None => None,
            },
        ) ==> (r matches Err(e) && e matches AppError::Validation(m) && m@
            == "subscription_type is invalid"@),
        sha256_hex_ok(fingerprint@) && subscription_ok(
            match subscription_type {
                Some(s) => Some(s@),
                None => None,
            },
        ) ==> r is Ok,
{
    let f = chars_of(fingerprint);
    if f.len() != 64 || !all_hex(f.as_slice()) {
        return Err(AppError::Validation(owned("account_fingerprint must be a SHA-256 hex digest")));
    }
    match subscription_type {
        Some(s) => {
            let v = chars_of(s);
            if v.len() > 80 || any_ctrl(v.as_slice()) {
                return Err(AppError::Validation(owned("subscription_type is invalid")));
            }
        },
        None => {},
    }
    Ok(())
}

/// Why a host's harness-account registration is refused, if it is: the id
/// must be a UUID, the name printable, the driver a terminal driver and the
/// profile `default` or `isolated`.
pub open spec fn registration_error(id: Seq<char>, name: Seq<char>, driver_type: Seq<char>, profile_kind: Seq<char>) -> Option<Seq<char>> {
    if !uuid_text(encode_utf8(id)) {
        Some("id must be a UUID"@)
    } else if !printable_name_ok(name) {
        Some("account name must contain 1 to 80 printable characters"@)
    } else if !(driver_type == "claude_terminal"@ || driver_type == "codex_terminal"@) {
        Some("driver_type must be claude_terminal or codex_terminal"@)
    } else if !(profile_kind == "default"@ || profile_kind == "isolated"@) {
        Some("profile_kind must be default or isolated"@)
    } else {
        None
    }
}

/// Checks a harness account a host registers; gives its trimmed name.
pub fn check_account_registration<'a>(id: &str, name: &'a str, driver_type: &str, profile_kind: &str) -> (r: Result<&'a str, AppError>)
    ensures
        match registration_error(id@, name@, driver_type@, profile_kind@) {
            Some(m) => r matches Err(e) && e matches AppError::Validation(x) && x@ == m,
            None => r matches Ok(t) && t@ == trim(name@),
        },
{
    proof {
        reveal_strlit("claude_terminal");
        reveal_strlit("codex_terminal");
        reveal_strlit("default");
        reveal_strlit("isolated");
    }
    require_uuid(id, "id must be a UUID")?;
    let t = validate_account_name(name)?;
    let d = chars_of(driver_type);
    if !chars_eq_str(d.as_slice(), "claude_terminal") && !chars_eq_str(d.as_slice(), "codex_terminal") {
        return Err(AppError::Validation(owned("driver_type must be claude_terminal or codex_terminal")));
    }
    let p = chars_of(profile_kind);
    if !chars_eq_str(p.as_slice(), "default") && !chars_eq_str(p.as_slice(), "isolated") {
        return Err(AppError::Validation(owned("profile_kind must be default or isolated")));
    }
    Ok(t)
}

/// A registration that inserted nothing must name an account this host
/// already holds.
pub fn check_registered_account(inserted: u64, held_by_host: bool) -> (r: Result<(), AppError>)
    ensures
        (inserted > 0 || held_by_host) ==> r is Ok,
        !(inserted > 0 || held_by_host) ==> (r matches Err(e) && e matches AppError::Conflict(m) && m@
            == "harness account id belongs to another runtime host"@),
{
    if inserted == 0 && !held_by_host {
        return Err(AppError::Conflict(owned("harness account id belongs to another runtime host")));
    }
    Ok(())
}


/// The entries of a probe's `models` value, when it is an array.
pub open spec fn model_list(models: JsonValue) -> Option<Seq<JsonValue>> {
    match models {
        JsonValue::Array(v) => Some(v@),
        _ => None,
    }
}

/// The id a model entry names: its `id` member, when that is a string.
pub open spec fn model_id(m: JsonValue) -> Option<Seq<char>> {
    match m {
        JsonValue::Object(f) => match member(f@, "id"@) {
            Some(JsonValue::Str(s)) => Some(s@),
            _ => None,
        },
        _ => None,
    }
}

/// The quota windows of a probe's `usage` value: its `windows` member, when
/// that is an array.
pub open spec fn usage_windows(usage: JsonValue) -> Option<Seq<JsonValue>> {
    match usage {
        JsonValue::Object(f) => match member(f@, "windows"@) {
            Some(JsonValue::Array(w)) => Some(w@),
            _ => None,
        },
        _ => None,
    }
}

fn model_entry_id(m: &JsonValue) -> (r: Option<String>)
    ensures
        match model_id(*m) {
            Some(id) => r matches Some(s) && s@ == id,
            None => r is None,
        },
{
    match m {
        JsonValue::Object(f) => match find_member(f, "id") {
            Some(k) => match &f[k].1 {
                JsonValue::Str(s) => Some(owned(s.as_str())),
                _ => None,
            },
            None => None,
        },
        _ => None,
    }
}

/// The shape of an authenticated account's model list: an array of at most
/// 200 entries. Gives the ids of the entries before the first one without an
/// id, in order, and whether such an entry follows them; each id is then
/// checked against the runtime's model rules in that order, and the entry
/// without an id is refused only once the ids before it have passed.
pub fn account_model_ids(models: &JsonValue) -> (r: Result<(Vec<String>, bool), AppError>)
    ensures
        match model_list(*models) {
            None => r matches Err(e) && e matches AppError::Validation(m) && m@
                == "models must be an array"@,
            Some(v) => if v.len() > 200 {
                r matches Err(e) && e matches AppError::Validation(m) && m@
                    == "models must contain at most 200 entries"@
            } else {
                r matches Ok((ids, missing)) && {
                    &&& ids@.len() <= v.len()
                    &&& forall|j: int|
                        0 <= j < ids@.len() ==> model_id(v[j]) == Some(#[trigger] ids@[j]@)
                    &&& missing == (ids@.len() < v.len())
                    &&& ids@.len() < v.len() ==> model_id(v[ids@.len() as int]) is None
                }
            },
        },
{
    let items = match models {
        JsonValue::Array(items) => items,
        _ => {
            return Err(AppError::Validation(owned("models must be an array")));
        },
    };
    if items.len() > 200 {
        return Err(AppError::Validation(owned("models must contain at most 200 entries")));
    }
    let mut ids: Vec<String> = Vec::new();
    let mut i: usize = 0;
    while i < items.len()
        invariant
            i <= items@.len(),
            items@.len() <= 200,
            model_list(*models) == Some(items@),
            ids@.len() == i,
            forall|j: int| 0 <= j < i ==> model_id(items@[j]) == Some(#[trigger] ids@[j]@),
        decreases items.len() - i,
    {
        match model_entry_id(&items[i]) {
            Some(id) => {
                ids.push(id);
            },
            None => {
                assert(model_id(items@[i as int]) is None);
                return Ok((ids, true));
            },
        }
        i = i + 1;
    }
    Ok((ids, false))
}

/// The quota windows an authenticated account reports: `usage.windows` must
/// be an array of at most 100 windows.
pub fn quota_windows(usage: &JsonValue) -> (r: Result<&Vec<JsonValue>, AppError>)
    ensures
        match usage_windows(*usage) {
            None => r matches Err(e) && e matches AppError::Validation(m) && m@
                == "usage must contain exact quota windows"@,
            Some(w) => if w.len() > 100 {
                r matches Err(e) && e matches AppError::Validation(m) && m@
                    == "usage must contain at most 100 exact quota windows"@
            } else {
                r matches Ok(v) && v@ == w
            },
        },
{
    match usage {
        JsonValue::Object(f) => match find_member(f, "windows") {
            Some(k) => match &f[k].1 {
                JsonValue::Array(w) => {
                    if w.len() > 100 {
                        Err(
                            AppError::Validation(
                                owned("usage must contain at most 100 exact quota windows"),
                            ),
                        )
                    } else {
                        Ok(w)
                    }
                },
                _ => Err(AppError::Validation(owned("usage must contain exact quota windows"))),
            },
            None => Err(AppError::Validation(owned("usage must contain exact quota windows"))),
        },
        _ => Err(AppError::Validation(owned("usage must contain exact quota windows"))),
    }
}

/// A probe snapshot, beyond what an authenticated account must show, lists
/// at least one model and at least one quota window.
pub fn check_probe_lists(models: &JsonValue, usage: &JsonValue) -> (r: Result<(), AppError>)
    ensures
        !(model_list(*models) matches Some(v) && v.len() > 0) ==> (r matches Err(e)
            && e matches AppError::Validation(m)
            && m@ == "models must contain between 1 and 200 entries"@),
        (model_list(*models) matches Some(v) && v.len() > 0) && !(usage_windows(*usage) matches Some(
            w,
        ) && w.len() > 0) ==> (r matches Err(e) && e matches AppError::Validation(m) && m@
            == "usage must contain between 1 and 100 exact quota windows"@),
        (model_list(*models) matches Some(v) && v.len() > 0) && (usage_windows(*usage) matches Some(
            w,
        ) && w.len() > 0) ==> r is Ok,
{
    let has_models = match models {
        JsonValue::Array(v) => v.len() > 0,
        _ => false,
    };
    if !has_models {
        return Err(AppError::Validation(owned("models must contain between 1 and 200 entries")));
    }
    let has_windows = match usage {
        JsonValue::Object(f) => match find_member(f, "windows") {
            Some(k) => match &f[k].1 {
                JsonValue::Array(w) => w.len() > 0,
                _ => false,
            },
            None => false,
        },
        _ => false,
    };
    if !has_windows {
        return Err(
            AppError::Validation(owned("usage must contain between 1 and 100 exact quota windows")),
        );
    }
    Ok(())
}

} // verus!
