//! Choruz Online accounts: which service is used, what a sign-in must
//! carry, and how the account service's answers are read.
use vstd::prelude::*;
use vstd::utf8::encode_utf8;
use crate::harness::{parse_url, parsed_url, UrlView};
use crate::json_text::{json_member, json_string, push_json_key, push_json_string};
use crate::redaction::AppError;
use crate::telemetry::{find_member, member, JsonValue};
use crate::text::{
    bytes_of, chars_eq_str, chars_of, owned, push_char, string_from_chars, sub_chars, trim,
    trim_bounds, trim_str,
};

verus! {

/// The hosted account service used unless another one is configured.
pub open spec fn hosted_service() -> Seq<char> {
    "https://choruz-remote-control-gateway.jiachengguo778.workers.dev"@
}

/// `s` without its trailing `/` characters.
pub open spec fn strip_trailing_slashes(s: Seq<char>) -> Seq<char>
    decreases s.len(),
{
    if s.len() > 0 && s.last() == '/' {
        strip_trailing_slashes(s.drop_last())
    } else {
        s
    }
}

/// An account service origin: HTTPS (HTTP only on the loopback host), with
/// no credentials, query, fragment or path.
pub open spec fn origin_ok(u: UrlView) -> bool {
    &&& (u.scheme == "https"@ || (u.scheme == "http"@ && (u.host == Some("127.0.0.1"@) || u.host
        == Some("localhost"@) || u.host == Some("[::1]"@))))
    &&& u.username.len() == 0
    &&& !u.has_password
    &&& !u.has_query
    &&& !u.has_fragment
    &&& u.path == "/"@
}

pub open spec fn service_url_outcome(configured: Option<Seq<char>>) -> Result<Seq<char>, Seq<char>> {
    let value = match configured {
        Some(v) => v,
        None => hosted_service(),
    };
    match parsed_url(value) {
        None => Err("Invalid CHORUZ_ONLINE_URL"@),
        Some(u) => if origin_ok(u) {
            Ok(strip_trailing_slashes(value))
        } else {
            Err(
                "CHORUZ_ONLINE_URL must be an HTTPS origin (HTTP is allowed only for loopback tests)"@,
            )
        },
    }
}

fn host_is(host: &Option<String>, lit: &str) -> (r: bool)
    ensures
        r == (match host {
            Some(h) => Some(h@),
            None => None::<Seq<char>>,
        } == Some(lit@)),
{
    match host {
        Some(h) => {
            let c = chars_of(h.as_str());
            chars_eq_str(c.as_slice(), lit)
        },
        None => false,
    }
}

/// The account service origin, as configured or the hosted one.
pub fn service_url(configured: Option<&str>) -> (r: Result<String, AppError>)
    ensures
        match service_url_outcome(
            match configured {
                Some(v) => Some(v@),
                None => None,
            },
        ) {
            Ok(u) => r matches Ok(x) && x@ == u,
            Err(m) => r matches Err(e) && e matches AppError::Validation(x) && x@ == m,
        },
{
    let value = match configured {
        Some(v) => owned(v),
        None => owned("https://choruz-remote-control-gateway.jiachengguo778.workers.dev"),
    };
    let u = match parse_url(value.as_str()) {
        Some(u) => u,
        None => return Err(AppError::Validation(owned("Invalid CHORUZ_ONLINE_URL"))),
    };
    let scheme = chars_of(u.scheme.as_str());
    let https = chars_eq_str(scheme.as_slice(), "https");
    let http = chars_eq_str(scheme.as_slice(), "http");
    let loopback = host_is(&u.host, "127.0.0.1") || host_is(&u.host, "localhost") || host_is(
        &u.host,
        "[::1]",
    );
    let user = chars_of(u.username.as_str());
    let path = chars_of(u.path.as_str());
    if !(https || (http && loopback)) || user.len() > 0 || u.has_password || u.has_query
        || u.has_fragment || !chars_eq_str(path.as_slice(), "/") {
        return Err(
            AppError::Validation(
                owned(
                    "CHORUZ_ONLINE_URL must be an HTTPS origin (HTTP is allowed only for loopback tests)",
                ),
            ),
        );
    }
    let v = chars_of(value.as_str());
    let mut n: usize = v.len();
    assert(v@.take(v@.len() as int) =~= v@);
    while n > 0 && v[n - 1] == '/'
        invariant
            n <= v@.len(),
            strip_trailing_slashes(v@.take(n as int)) == strip_trailing_slashes(v@),
        decreases n,
    {
        assert(v@.take(n as int).drop_last() =~= v@.take(n - 1));
        n = n - 1;
    }
    let kept = sub_chars(v.as_slice(), 0, n);
    assert(kept@ =~= v@.take(n as int));
    Ok(string_from_chars(kept.as_slice()))
}

/// How the `retry-after` answer of the account service was found.
pub enum RetryAfter {
    /// Neither `retry-after` nor `x-retry-after` was sent.
    Absent,
    /// The first of them that was sent is not visible ASCII.
    Unreadable,
    /// The text of the first of them that was sent.
    Text(String),
}

/// Seconds to wait after a rate limit: the header's number (at least 1), else 60.
pub open spec fn retry_seconds(h: RetryAfter) -> nat {
    let v: nat = match h {
        RetryAfter::Text(t) => match crate::text::parse_u64(t@) {
            Some(n) => n as nat,
            None => 60,
        },
        _ => 60,
    };
    if v < 1 {
        1
    } else {
        v
    }
}

/// The error answered for a refused sign-in or sign-up.
pub open spec fn authentication_error_spec(status: u16, retry: RetryAfter, signup: bool, e: AppError) -> bool {
    if status == 429 {
        e == AppError::RateLimited {
            retry_after_ms: if retry_seconds(retry) * 1000 > u64::MAX {
                u64::MAX
            } else {
                (retry_seconds(retry) * 1000) as u64
            },
        }
    } else if 400 <= status <= 499 {
        e matches AppError::Validation(m) && m@ == (if signup {
            "Online registration rejected. Use a valid email and a password of 12–128 characters; the account may already exist."@
        } else {
            "Online sign-in rejected. Check your email and password, or wait before trying again."@
        })
    } else {
        e matches AppError::Internal(m) && m@ == "Online account service is unavailable"@
    }
}

pub fn authentication_error(status: u16, retry: RetryAfter, signup: bool) -> (e: AppError)
    ensures
        authentication_error_spec(status, retry, signup, e),
{
    if status == 429 {
        let seconds: u64 = match &retry {
            RetryAfter::Text(t) => {
                let c = chars_of(t.as_str());
                match crate::text::parse_u64_exec(c.as_slice()) {
                    Some(n) => n,
                    None => 60,
                }
            },
            _ => 60,
        };
        let seconds = if seconds < 1 {
            1
        } else {
            seconds
        };
        let ms: u64 = if seconds > u64::MAX / 1000 {
            u64::MAX
        } else {
            seconds * 1000
        };
        return AppError::RateLimited { retry_after_ms: ms };
    }
    if 400 <= status && status <= 499 {
        if signup {
            AppError::Validation(
                owned(
                    "Online registration rejected. Use a valid email and a password of 12–128 characters; the account may already exist.",
                ),
            )
        } else {
            AppError::Validation(
                owned(
                    "Online sign-in rejected. Check your email and password, or wait before trying again.",
                ),
            )
        }
    } else {
        AppError::Internal(owned("Online account service is unavailable"))
    }
}

/// The credentials of a sign-in (and, for a sign-up, a display name) fit the service's limits.
pub open spec fn credentials_ok(email: Seq<char>, password: Seq<char>, name: Option<Seq<char>>, signup: bool) -> bool {
    &&& encode_utf8(email).len() <= 254
    &&& encode_utf8(password).len() <= 512
    &&& password.len() > 0
    &&& signup ==> match name {
        Some(n) => trim(n).len() > 0 && encode_utf8(n).len() <= 80,
        None => false,
    }
}

pub fn check_credentials(email: &str, password: &str, name: Option<&str>, signup: bool) -> (r: Result<(), AppError>)
    ensures
        r is Ok <==> credentials_ok(
            email@,
            password@,
            match name {
                Some(n) => Some(n@),
                None => None,
            },
            signup,
        ),
        r matches Err(e) ==> e matches AppError::Validation(m) && m@
            == "Enter a valid email, password and display name"@,
{
    let e = bytes_of(email);
    let p = bytes_of(password);
    let pc = chars_of(password);
    let mut bad = e.len() > 254 || p.len() > 512 || pc.len() == 0;
    if signup {
        match name {
            Some(n) => {
                let nc = chars_of(n);
                let (a, b) = trim_bounds(nc.as_slice());
                let nb = bytes_of(n);
                if a == b || nb.len() > 80 {
                    bad = true;
                }
            },
            None => {
                bad = true;
            },
        }
    }
    if bad {
        Err(AppError::Validation(owned("Enter a valid email, password and display name")))
    } else {
        Ok(())
    }
}

/// A principal already linked to an Online account must sign out first.
pub fn check_not_signed_in(linked: bool) -> (r: Result<(), AppError>)
    ensures
        r is Ok <==> !linked,
        r matches Err(e) ==> e matches AppError::Conflict(m) && m@
            == "Sign out of Online before changing accounts"@,
{
    if linked {
        Err(AppError::Conflict(owned("Sign out of Online before changing accounts")))
    } else {
        Ok(())
    }
}

/// The sign-in request body: trimmed email, display name (or null) and password.
pub open spec fn sign_in_body_spec(email: Seq<char>, password: Seq<char>, name: Option<Seq<char>>) -> Seq<char> {
    seq!['{'] + json_member("email"@, json_string(trim(email))) + seq![','] + json_member(
        "name"@,
        match name {
            Some(n) => json_string(n),
            None => "null"@,
        },
    ) + seq![','] + json_member("password"@, json_string(password)) + seq!['}']
}

pub fn sign_in_body(email: &str, password: &str, name: Option<&str>) -> (r: String)
    ensures
        r@ == sign_in_body_spec(
            email@,
            password@,
            match name {
                Some(n) => Some(n@),
                None => None,
            },
        ),
{
    let mut out = String::new();
    push_char(&mut out, '{');
    let ghost p0 = out@;
    push_json_key(&mut out, "email");
    push_json_string(&mut out, trim_str(email));
    push_char(&mut out, ',');
    let ghost p1 = out@;
    push_json_key(&mut out, "name");
    match name {
        Some(n) => push_json_string(&mut out, n),
        None => out.append("null"),
    }
    push_char(&mut out, ',');
    let ghost p2 = out@;
    push_json_key(&mut out, "password");
    push_json_string(&mut out, password);
    push_char(&mut out, '}');
    proof {
        assert(p1 =~= p0 + json_member("email"@, json_string(trim(email@))) + seq![',']);
        assert(p2 =~= p1 + json_member(
            "name"@,
            match name {
                Some(n) => json_string(n@),
                None => "null"@,
            },
        ) + seq![',']);
        assert(out@ =~= p2 + json_member("password"@, json_string(password@)) + seq!['}']);
    }
    out
}

/// `value[key]` of a JSON object, as `serde_json` indexes (null when absent).
pub open spec fn field(value: JsonValue, key: Seq<char>) -> JsonValue {
    match value {
        JsonValue::Object(fields) => match member(fields@, key) {
            Some(v) => v,
            None => JsonValue::Null,
        },
        _ => JsonValue::Null,
    }
}

fn field_exec<'a>(value: &'a JsonValue, key: &str) -> (r: Option<&'a JsonValue>)
    ensures
        match r {
            Some(v) => *v == field(*value, key@),
            None => field(*value, key@) == JsonValue::Null,
        },
{
    match value {
        JsonValue::Object(fields) => match find_member(fields, key) {
            Some(i) => Some(&fields[i].1),
            None => None,
        },
        _ => None,
    }
}

/// A non-empty string, as the identity fields must be.
pub open spec fn nonempty_text(v: JsonValue) -> Option<Seq<char>> {
    match v {
        JsonValue::Str(s) => if s@.len() > 0 {
            Some(s@)
        } else {
            None
        },
        _ => None,
    }
}

fn nonempty_text_exec(v: Option<&JsonValue>) -> (r: Option<String>)
    ensures
        match v {
            Some(x) => match nonempty_text(*x) {
                Some(t) => r matches Some(s) && s@ == t,
                None => r is None,
            },
            None => r is None,
        },
{
    match v {
        Some(JsonValue::Str(s)) => {
            let c = chars_of(s.as_str());
            if c.len() > 0 {
                Some(owned(s.as_str()))
            } else {
                None
            }
        },
        _ => None,
    }
}

/// The account, session token and display name a successful sign-in answers with.
pub open spec fn identity_outcome(data: JsonValue) -> Option<(Seq<char>, Seq<char>, Seq<char>)> {
    match (
        nonempty_text(field(field(data, "user"@), "id"@)),
        nonempty_text(field(data, "token"@)),
        nonempty_text(field(field(data, "user"@), "name"@)),
    ) {
        (Some(a), Some(t), Some(n)) => Some((a, t, n)),
        _ => None,
    }
}

pub fn signed_in_identity(data: &JsonValue) -> (r: Result<(String, String, String), AppError>)
    ensures
        match identity_outcome(*data) {
            Some((a, t, n)) => r matches Ok((x, y, z)) && x@ == a && y@ == t && z@ == n,
            None => r matches Err(e) && e matches AppError::Internal(m) && m@
                == "Online account service returned an incomplete identity"@,
        },
{
    let user = field_exec(data, "user");
    let account = match user {
        Some(u) => nonempty_text_exec(field_exec(u, "id")),
        None => None,
    };
    let token = nonempty_text_exec(field_exec(data, "token"));
    let name = match user {
        Some(u) => nonempty_text_exec(field_exec(u, "name")),
        None => None,
    };
    match (account, token, name) {
        (Some(a), Some(t), Some(n)) => Ok((a, t, n)),
        _ => Err(
            AppError::Internal(owned("Online account service returned an incomplete identity")),
        ),
    }
}

/// Whether a stored Online session is still active: refused (401) means no,
/// success means yes when it is still the same account, anything else is an error.
pub fn session_still_active(status: u16, reply: Option<&JsonValue>, account_id: &str) -> (r: Result<bool, AppError>)
    ensures
        status == 401 ==> r == Ok::<bool, AppError>(false),
        status != 401 && 200 <= status <= 299 ==> r == Ok::<bool, AppError>(match reply {
            Some(v) => field(field(*v, "user"@), "id"@) matches JsonValue::Str(s) && s@ == account_id@,
            None => false,
        }),
        status != 401 && !(200 <= status <= 299) ==> (r matches Err(e) && e matches AppError::Internal(
            m,
        ) && m@ == "Online session verification failed"@),
{
    if status == 401 {
        return Ok(false);
    }
    if 200 <= status && status <= 299 {
        let active = match reply {
            Some(v) => match field_exec(v, "user") {
                Some(u) => match field_exec(u, "id") {
                    Some(JsonValue::Str(s)) => {
                        let a = chars_of(s.as_str());
                        let b = chars_of(account_id);
                        crate::text::chars_eq(a.as_slice(), b.as_slice())
                    },
                    _ => false,
                },
                None => false,
            },
            None => false,
        };
        return Ok(active);
    }
    Err(AppError::Internal(owned("Online session verification failed")))
}

/// Signing out succeeds when the service revoked the session or no longer knows it.
pub fn revocation_result(status: u16) -> (r: Result<(), AppError>)
    ensures
        r is Ok <==> (200 <= status <= 299 || status == 401),
        r matches Err(e) ==> e matches AppError::Internal(m) && m@
            == "Online account service could not revoke this session"@,
{
    if (200 <= status && status <= 299) || status == 401 {
        Ok(())
    } else {
        Err(AppError::Internal(owned("Online account service could not revoke this session")))
    }
}

} // verus!
