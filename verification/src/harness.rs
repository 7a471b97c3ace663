//! Harness account sign-in: what is accepted from a connector, and what a
//! failed probe or login is reported as.
use vstd::prelude::*;
use vstd::utf8::encode_utf8;
use crate::redaction::AppError;
use crate::text::{
    any_ctrl, chars_eq_str, chars_of, contains, contains_exec, is_ctrl, lower, lower_chars, owned,
    starts_with, starts_with_exec, string_from_chars, sub_chars, trim, trim_str,
};

verus! {

/// Longest login error kept, in bytes.
pub const MAX_LOGIN_ERROR_LEN: usize = 500;

/// Longest authorization URL or callback code accepted, in bytes.
pub const MAX_LOGIN_FIELD_LEN: usize = 8000;

/// Any control character in `s`.
pub open spec fn has_ctrl(s: Seq<char>) -> bool {
    exists|i: int| 0 <= i < s.len() && is_ctrl(#[trigger] s[i])
}

/// The error recorded for a failed login: the reported text, trimmed, when
/// it is short and printable; a fixed message otherwise.
pub open spec fn login_error_spec(error: Seq<char>) -> Seq<char> {
    let t = trim(error);
    if t.len() == 0 || encode_utf8(t).len() > MAX_LOGIN_ERROR_LEN || has_ctrl(t) {
        "Harness login failed"@
    } else {
        t
    }
}

pub fn sanitize_login_error(error: &str) -> (r: &str)
    ensures
        r@ == login_error_spec(error@),
{
    let t = trim_str(error);
    let v = chars_of(t);
    let b = crate::text::bytes_of(t);
    if v.len() == 0 || b.len() > MAX_LOGIN_ERROR_LEN || any_ctrl(v.as_slice()) {
        "Harness login failed"
    } else {
        t
    }
}

/// The error a connector reported for a failed login, or the fixed message when it reported none.
pub fn reported_login_error(error: Option<&str>) -> (r: &str)
    ensures
        r@ == login_error_spec(
            match error {
                Some(e) => e@,
                None => "Harness login failed"@,
            },
        ),
{
    match error {
        Some(e) => sanitize_login_error(e),
        None => sanitize_login_error("Harness login failed"),
    }
}

/// A pasted authorization code: trimmed, non-empty, at most 8000 bytes, printable.
pub open spec fn callback_code_ok(value: Seq<char>) -> bool {
    let t = trim(value);
    t.len() > 0 && encode_utf8(t).len() <= MAX_LOGIN_FIELD_LEN && !has_ctrl(t)
}

pub fn validate_callback_code(value: &str) -> (r: Result<&str, AppError>)
    ensures
        callback_code_ok(value@) ==> (r matches Ok(t) && t@ == trim(value@)),
        !callback_code_ok(value@) ==> (r matches Err(e) && e matches AppError::Validation(m) && m@
            == "authorization code is invalid"@),
{
    let t = trim_str(value);
    let v = chars_of(t);
    let b = crate::text::bytes_of(t);
    if v.len() == 0 || b.len() > MAX_LOGIN_FIELD_LEN || any_ctrl(v.as_slice()) {
        return Err(AppError::Validation(owned("authorization code is invalid")));
    }
    Ok(t)
}

/// The parts of a parsed URL that the gateway checks.
#[derive(Debug, Clone)]
pub struct UrlParts {
    pub scheme: String,
    pub host: Option<String>,
    pub username: String,
    pub has_password: bool,
    pub has_query: bool,
    pub has_fragment: bool,
    pub path: String,
}

pub struct UrlView {
    pub scheme: Seq<char>,
    pub host: Option<Seq<char>>,
    pub username: Seq<char>,
    pub has_password: bool,
    pub has_query: bool,
    pub has_fragment: bool,
    pub path: Seq<char>,
}

impl View for UrlParts {
    type V = UrlView;

    open spec fn view(&self) -> UrlView {
        UrlView {
            scheme: self.scheme@,
            host: match self.host {
                Some(h) => Some(h@),
                None => None,
            },
            username: self.username@,
            has_password: self.has_password,
            has_query: self.has_query,
            has_fragment: self.has_fragment,
            path: self.path@,
        }
    }
}

/// What URL parsing gives for `text`, none when it is not an absolute URL.
pub uninterp spec fn parsed_url(text: Seq<char>) -> Option<UrlView>;

/// `reqwest::Url::parse`, read back as scheme, host, user name, password,
/// query and fragment presence and path; named `parsed_url` of the text.
#[verifier::external_body]
pub fn parse_url(text: &str) -> (r: Option<UrlParts>)
    ensures
        match r {
            Some(u) => parsed_url(text@) == Some(u@),
            None => parsed_url(text@) is None,
        },
{
    match reqwest::Url::parse(text) {
        Ok(u) => Some(UrlParts {
            scheme: u.scheme().to_string(),
            host: match u.host_str() {
                Some(h) => Some(h.to_string()),
                None => None,
            },
            username: u.username().to_string(),
            has_password: u.password().is_some(),
            has_query: u.query().is_some(),
            has_fragment: u.fragment().is_some(),
            path: u.path().to_string(),
        }),
        Err(_) => None,
    }
}

/// The authorization URL a connector publishes: an HTTPS URL of at most 8000 bytes.
pub open spec fn login_url_ok(value: Seq<char>) -> bool {
    let t = trim(value);
    match parsed_url(t) {
        Some(u) => u.scheme == "https"@ && encode_utf8(t).len() <= MAX_LOGIN_FIELD_LEN,
        None => false,
    }
}

pub fn validate_login_url(value: &str) -> (r: Result<&str, AppError>)
    ensures
        login_url_ok(value@) ==> (r matches Ok(t) && t@ == trim(value@)),
        !login_url_ok(value@) ==> (r matches Err(e) && e matches AppError::Validation(m) && m@
            == "authorization_url must be a valid HTTPS URL"@),
{
    let t = trim_str(value);
    let parsed = parse_url(t);
    match parsed {
        None => Err(AppError::Validation(owned("authorization_url must be a valid HTTPS URL"))),
        Some(u) => {
            let sc = chars_of(u.scheme.as_str());
            let b = crate::text::bytes_of(t);
            if !chars_eq_str(sc.as_slice(), "https") || b.len() > MAX_LOGIN_FIELD_LEN {
                return Err(
                    AppError::Validation(owned("authorization_url must be a valid HTTPS URL")),
                );
            }
            Ok(t)
        },
    }
}

/// `s` with every leading copy of `p` removed (`trim_start_matches`).
pub open spec fn strip_leading(s: Seq<char>, p: Seq<char>) -> Seq<char>
    decreases s.len(),
{
    if p.len() > 0 && starts_with(s, p) {
        strip_leading(s.skip(p.len() as int), p)
    } else {
        s
    }
}

/// The reason shown for a failed account probe; the harness's own words
/// reach the dashboard only when they say the account is not connected.
pub open spec fn probe_failure_spec(detail: Seq<char>) -> Seq<char> {
    let l = lower(detail);
    if contains(l, "not connected"@) {
        strip_leading(detail, "conflict: "@)
    } else if contains(l, "no selectable models"@) {
        "This account returned no selectable models; sign in again and verify it"@
    } else if contains(l, "auth"@) || contains(l, "login"@) || contains(l, "credential"@) {
        "Harness login is invalid; sign in to this profile and verify again"@
    } else if contains(l, "timed out"@) {
        "Harness account probe timed out"@
    } else if contains(l, "start "@) || contains(l, "no such file"@) || contains(l, "not configured"@) {
        "Harness binary is not configured on this device"@
    } else if contains(l, "rate limits"@) || contains(l, "quota"@) {
        "Harness did not return exact quota data for this account"@
    } else if contains(l, "identity is unavailable"@) || contains(l, "account is unavailable"@) {
        "Harness account identity is unavailable; sign in and verify again"@
    } else {
        "Harness account probe failed"@
    }
}

fn has(l: &[char], lit: &str) -> (r: bool)
    ensures
        r == contains(l@, lit@),
{
    let p = chars_of(lit);
    contains_exec(l, p.as_slice())
}

pub fn probe_failure_message(detail: &str) -> (r: String)
    ensures
        r@ == probe_failure_spec(detail@),
{
    let v = chars_of(detail);
    let lv = lower_chars(v.as_slice());
    let l = lv.as_slice();
    if has(l, "not connected") {
        let p = chars_of("conflict: ");
        proof {
            reveal_strlit("conflict: ");
        }
        let mut start: usize = 0;
        assert(v@.skip(0) =~= v@);
        while p.len() <= v.len() - start && starts_with_exec(
            sub_chars(v.as_slice(), start, v.len()).as_slice(),
            p.as_slice(),
        )
            invariant
                start <= v@.len(),
                p@ == "conflict: "@,
                p@.len() == 10,
                strip_leading(v@, p@) == strip_leading(v@.skip(start as int), p@),
            decreases v.len() - start,
        {
            assert(v@.skip(start as int).skip(p@.len() as int) =~= v@.skip(start + p@.len()));
            start = start + p.len();
        }
        let rest = sub_chars(v.as_slice(), start, v.len());
        proof {
            assert(rest@ =~= v@.skip(start as int));
            if p@.len() > v@.len() - start {
                assert(!starts_with(v@.skip(start as int), p@));
            }
        }
        return string_from_chars(rest.as_slice());
    }
    if has(l, "no selectable models") {
        return owned("This account returned no selectable models; sign in again and verify it");
    }
    if has(l, "auth") || has(l, "login") || has(l, "credential") {
        return owned("Harness login is invalid; sign in to this profile and verify again");
    }
    if has(l, "timed out") {
        return owned("Harness account probe timed out");
    }
    if has(l, "start ") || has(l, "no such file") || has(l, "not configured") {
        return owned("Harness binary is not configured on this device");
    }
    if has(l, "rate limits") || has(l, "quota") {
        return owned("Harness did not return exact quota data for this account");
    }
    if has(l, "identity is unavailable") || has(l, "account is unavailable") {
        return owned("Harness account identity is unavailable; sign in and verify again");
    }
    owned("Harness account probe failed")
}

/// The account status recorded with a probe failure: re-authentication
/// when the message asks the user to sign in.
pub fn probe_failure_status(message: &str) -> (r: &'static str)
    ensures
        r@ == (if contains(message@, "sign in"@) {
            "reauth_required"@
        } else {
            "error"@
        }),
{
    let v = chars_of(message);
    if has(v.as_slice(), "sign in") {
        "reauth_required"
    } else {
        "error"
    }
}

/// One login as its executor addresses it: the connector of
/// `runtime_host_id`, or the gateway itself when there is none.
#[derive(Debug, Clone)]
pub struct LoginScope {
    pub login_id: String,
    pub company_id: String,
    pub runtime_host_id: Option<String>,
}

/// The scope of a login run by a runtime host of a company.
pub fn host_scope(host_id: &str, host_company_id: &str, login_id: String) -> (r: LoginScope)
    ensures
        r.login_id@ == login_id@,
        r.company_id@ == host_company_id@,
        r.runtime_host_id matches Some(h) && h@ == host_id@,
{
    LoginScope {
        login_id,
        company_id: owned(host_company_id),
        runtime_host_id: Some(owned(host_id)),
    }
}

/// How a new browser sign-in starts.
pub struct LoginStart {
    /// `queued` until the host's connector claims it, else `authorizing`.
    pub state: &'static str,
    /// The gateway claims it at once.
    pub claimed_now: bool,
    /// The gateway runs the login itself.
    pub runs_locally: bool,
}

/// A sign-in for an account on a runtime host waits for that host's
/// connector, except for the `claude_terminal` harness, whose sign-in the
/// gateway claims itself; the gateway runs a login only for an account of
/// no host and another harness.
pub fn login_start(on_runtime_host: bool, claude: bool) -> (r: LoginStart)
    ensures
        (on_runtime_host && !claude) ==> (r.state@ == "queued"@ && !r.claimed_now),
        !(on_runtime_host && !claude) ==> (r.state@ == "authorizing"@ && r.claimed_now),
        r.runs_locally == (!on_runtime_host && !claude),
{
    if on_runtime_host && !claude {
        LoginStart { state: "queued", claimed_now: false, runs_locally: false }
    } else {
        LoginStart { state: "authorizing", claimed_now: true, runs_locally: !on_runtime_host && !claude }
    }
}

/// The account a sign-in is for must be named by a UUID.
pub fn check_login_account_id(account_id: &str) -> (r: Result<(), AppError>)
    ensures
        crate::identifiers::uuid_text(encode_utf8(account_id@)) ==> r is Ok,
        !crate::identifiers::uuid_text(encode_utf8(account_id@)) ==> (r matches Err(e)
            && e matches AppError::Validation(m) && m@ == "account_id must be a UUID"@),
{
    crate::identifiers::require_uuid(account_id, "account_id must be a UUID")
}

} // verus!
