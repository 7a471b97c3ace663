//! Turning a remote-control pairing into a company runtime host: what the
//! controller must send, where the connector keeps its configuration, and how
//! the connector's answer is read.
use vstd::prelude::*;
use vstd::utf8::encode_utf8;
use sha2::Digest;
use crate::harness::{has_ctrl, parse_url, parsed_url};
use crate::json_text::{json_member, json_string, push_json_key, push_json_string};
use crate::redaction::AppError;
use crate::remote_control::{hex_lower, lemma_hex_lower, pairing_credential_ok, valid_pairing_credential};
use crate::telemetry::{string_member, string_member_exec, JsonValue};
use crate::text::{
    any_ctrl, bytes_of, chars_eq_str, chars_of, is_ascii_digit_char, lines, owned, path_join,
    push_char, push_path, split_lines, string_from_chars, sub_chars, trim, trim_str,
};

verus! {

/// What the controller sends to enrol this computer as a runtime host.
#[derive(Debug, Clone)]
pub struct OnboardRequest {
    pub controller_gateway_url: String,
    pub controller_credential: String,
    pub runtime_host_code: String,
    pub name: String,
}

/// Exactly eight ASCII digits.
pub open spec fn host_code_ok(code: Seq<char>) -> bool {
    code.len() == 8 && forall|i: int| 0 <= i < code.len() ==> is_ascii_digit_char(#[trigger] code[i])
}

/// A host name: not blank, at most 80 bytes, printable.
pub open spec fn host_name_ok(name: Seq<char>) -> bool {
    trim(name).len() > 0 && encode_utf8(name).len() <= 80 && !has_ctrl(name)
}

/// The first refusal of an onboarding request, if any.
pub open spec fn onboard_error(p: OnboardRequest) -> Option<Seq<char>> {
    if !pairing_credential_ok(trim(p.controller_credential@)) {
        Some("controller_credential is malformed"@)
    } else if !host_code_ok(p.runtime_host_code@) {
        Some("runtime_host_code must contain exactly 8 digits"@)
    } else if !host_name_ok(p.name@) {
        Some("name must contain between 1 and 80 printable characters"@)
    } else {
        match parsed_url(trim(p.controller_gateway_url@)) {
            None => Some("controller_gateway_url is invalid"@),
            Some(u) => if (u.scheme == "https"@ || u.scheme == "http"@) && u.host is Some {
                None
            } else {
                Some("controller_gateway_url must be an HTTP or HTTPS URL"@)
            },
        }
    }
}

fn all_digits_exec(v: &[char]) -> (r: bool)
    ensures
        r == forall|i: int| 0 <= i < v@.len() ==> is_ascii_digit_char(#[trigger] v@[i]),
{
    let mut i: usize = 0;
    while i < v.len()
        invariant
            i <= v.len(),
            forall|j: int| 0 <= j < i ==> is_ascii_digit_char(#[trigger] v@[j]),
        decreases v.len() - i,
    {
        if !('0' <= v[i] && v[i] <= '9') {
            return false;
        }
        i = i + 1;
    }
    true
}

/// Checks an onboarding request before anything is started.
pub fn validate(payload: &OnboardRequest) -> (r: Result<(), AppError>)
    ensures
        match onboard_error(*payload) {
            None => r is Ok,
            Some(m) => r matches Err(e) && e matches AppError::Validation(x) && x@ == m,
        },
{
    let credential = trim_str(payload.controller_credential.as_str());
    if !valid_pairing_credential(credential) {
        return Err(AppError::Validation(owned("controller_credential is malformed")));
    }
    let code = chars_of(payload.runtime_host_code.as_str());
    if !(code.len() == 8 && all_digits_exec(code.as_slice())) {
        return Err(AppError::Validation(owned("runtime_host_code must contain exactly 8 digits")));
    }
    let name = chars_of(payload.name.as_str());
    let name_bytes = bytes_of(payload.name.as_str());
    let trimmed = trim_str(payload.name.as_str());
    let trimmed_chars = chars_of(trimmed);
    if trimmed_chars.len() == 0 || name_bytes.len() > 80 || any_ctrl(name.as_slice()) {
        return Err(
            AppError::Validation(owned("name must contain between 1 and 80 printable characters")),
        );
    }
    let url = trim_str(payload.controller_gateway_url.as_str());
    match parse_url(url) {
        None => Err(AppError::Validation(owned("controller_gateway_url is invalid"))),
        Some(u) => {
            let s = chars_of(u.scheme.as_str());
            if (chars_eq_str(s.as_slice(), "https") || chars_eq_str(s.as_slice(), "http"))
                && u.host.is_some() {
                Ok(())
            } else {
                Err(AppError::Validation(owned("controller_gateway_url must be an HTTP or HTTPS URL")))
            }
        },
    }
}

/// The connector binary named by configuration must be a file.
pub fn executable(path: String, is_file: bool) -> (r: Result<String, AppError>)
    ensures
        is_file ==> (r matches Ok(p) && p@ == path@),
        !is_file ==> (r matches Err(e) && e matches AppError::Internal(m) && m@
            == "CHORUZ_CONNECTOR_BINARY does not point to a file: "@ + path@),
{
    if is_file {
        Ok(path)
    } else {
        let mut m = owned("CHORUZ_CONNECTOR_BINARY does not point to a file: ");
        m.append(path.as_str());
        Err(AppError::Internal(m))
    }
}

/// The connector to start: the configured binary (which must be a file),
/// else the one beside this executable when it exists, else `choruz-connector` on `PATH`.
pub fn connector_binary(configured: Option<(String, bool)>, sibling: Option<String>) -> (r: Result<String, AppError>)
    ensures
        match configured {
            Some((p, is_file)) => if is_file {
                r matches Ok(x) && x@ == p@
            } else {
                r matches Err(e) && e matches AppError::Internal(m) && m@
                    == "CHORUZ_CONNECTOR_BINARY does not point to a file: "@ + p@
            },
            None => match sibling {
                Some(s) => r matches Ok(x) && x@ == s@,
                None => r matches Ok(x) && x@ == "choruz-connector"@,
            },
        },
{
    match configured {
        Some((p, is_file)) => executable(p, is_file),
        None => match sibling {
            Some(s) => Ok(s),
            None => Ok(owned("choruz-connector")),
        },
    }
}

/// The SHA-256 digest of `message`.
pub uninterp spec fn sha256_digest(message: Seq<u8>) -> Seq<u8>;

/// `Sha256::digest`: named `sha256_digest` of the message; 32 bytes.
#[verifier::external_body]
pub(crate) fn sha256(message: &[u8]) -> (r: Vec<u8>)
    ensures
        r@ == sha256_digest(message@),
        r@.len() == 32,
{
    sha2::Sha256::digest(message).to_vec()
}

/// The message hashed to name a connector configuration.
pub open spec fn config_key_message(gateway_url: Seq<char>, credential: Seq<char>, name: Seq<char>) -> Seq<u8> {
    encode_utf8(gateway_url) + seq![0u8] + encode_utf8(credential) + seq![0u8] + encode_utf8(name)
}

/// The configuration file of a connector: the first 24 hex digits of the
/// hash of what it connects with, so the name reveals none of it.
pub open spec fn config_file_name(gateway_url: Seq<char>, credential: Seq<char>, name: Seq<char>) -> Seq<char> {
    hex_lower(sha256_digest(config_key_message(gateway_url, credential, name))).take(24) + ".json"@
}

fn append_bytes(out: &mut Vec<u8>, b: &Vec<u8>)
    ensures
        final(out)@ == old(out)@ + b@,
{
    let mut i: usize = 0;
    while i < b.len()
        invariant
            i <= b@.len(),
            out@ == old(out)@ + b@.take(i as int),
        decreases b.len() - i,
    {
        out.push(b[i]);
        assert(old(out)@ + b@.take(i + 1) =~= (old(out)@ + b@.take(i as int)).push(b@[i as int]));
        i = i + 1;
    }
    assert(b@.take(b@.len() as int) =~= b@);
}

/// Where the connector configuration for these credentials lives in `directory`.
pub fn connector_config_path(gateway_url: &str, credential: &str, name: &str, directory: &str) -> (r: String)
    ensures
        r@ == path_join(directory@, config_file_name(gateway_url@, credential@, name@)),
{
    let mut message = bytes_of(gateway_url);
    message.push(0u8);
    let c = bytes_of(credential);
    append_bytes(&mut message, &c);
    message.push(0u8);
    let n = bytes_of(name);
    append_bytes(&mut message, &n);
    assert(message@ =~= config_key_message(gateway_url@, credential@, name@));
    let digest = sha256(message.as_slice());
    let key = crate::remote_control::hex_encode(digest.as_slice());
    proof {
        lemma_hex_lower(digest@);
    }
    let k = chars_of(key.as_str());
    let head = sub_chars(k.as_slice(), 0, 24);
    let mut file = string_from_chars(head.as_slice());
    file.append(".json");
    let mut path = owned(directory);
    push_path(&mut path, file.as_str());
    path
}

/// The request handed to the connector: its fields as a JSON object in key order.
pub open spec fn pairing_request_spec(p: OnboardRequest) -> Seq<char> {
    seq!['{'] + json_member("credential"@, json_string(p.controller_credential@)) + seq![',']
        + json_member("gateway_url"@, json_string(p.controller_gateway_url@)) + seq![',']
        + json_member("name"@, json_string(p.name@)) + seq![','] + json_member(
        "runtime_host_code"@,
        json_string(p.runtime_host_code@),
    ) + seq!['}']
}

pub fn pairing_request_json(payload: &OnboardRequest) -> (r: String)
    ensures
        r@ == pairing_request_spec(*payload),
{
    let mut out = String::new();
    push_char(&mut out, '{');
    let ghost p0 = out@;
    push_json_key(&mut out, "credential");
    push_json_string(&mut out, payload.controller_credential.as_str());
    push_char(&mut out, ',');
    let ghost p1 = out@;
    push_json_key(&mut out, "gateway_url");
    push_json_string(&mut out, payload.controller_gateway_url.as_str());
    push_char(&mut out, ',');
    let ghost p2 = out@;
    push_json_key(&mut out, "name");
    push_json_string(&mut out, payload.name.as_str());
    push_char(&mut out, ',');
    let ghost p3 = out@;
    push_json_key(&mut out, "runtime_host_code");
    push_json_string(&mut out, payload.runtime_host_code.as_str());
    push_char(&mut out, '}');
    proof {
        assert(p1 =~= p0 + json_member("credential"@, json_string(payload.controller_credential@))
            + seq![',']);
        assert(p2 =~= p1 + json_member("gateway_url"@, json_string(payload.controller_gateway_url@))
            + seq![',']);
        assert(p3 =~= p2 + json_member("name"@, json_string(payload.name@)) + seq![',']);
        assert(out@ =~= p3 + json_member("runtime_host_code"@, json_string(payload.runtime_host_code@))
            + seq!['}']);
    }
    out
}

/// Why a pairing run failed: the last line of the connector's error output.
pub open spec fn pairing_failure_spec(stderr: Seq<char>) -> Seq<char> {
    let ls = lines(stderr);
    "connector pairing failed: "@ + if ls.len() > 0 {
        ls.last()
    } else {
        "unknown error"@
    }
}

pub fn pairing_failure_message(stderr: &str) -> (r: String)
    ensures
        r@ == pairing_failure_spec(stderr@),
{
    let v = chars_of(stderr);
    let ls = split_lines(v.as_slice());
    let mut m = owned("connector pairing failed: ");
    if ls.len() > 0 {
        let last = &ls[ls.len() - 1];
        crate::text::append_chars(&mut m, last.as_slice());
    } else {
        m.append("unknown error");
    }
    m
}

/// The host id and name the connector answered with.
pub fn onboard_response(paired: &JsonValue) -> (r: Result<(String, String), AppError>)
    ensures
        match (string_member(*paired, "host_id"@), string_member(*paired, "host_name"@)) {
            (Some(id), Some(name)) => r matches Ok((i, n)) && i@ == id && n@ == name,
            (None, _) => r matches Err(e) && e matches AppError::Internal(m) && m@
                == "connector did not return a host id"@,
            (Some(_), None) => r matches Err(e) && e matches AppError::Internal(m) && m@
                == "connector did not return a host name"@,
        },
{
    let id = match string_member_exec(paired, "host_id") {
        Some(i) => i,
        None => return Err(AppError::Internal(owned("connector did not return a host id"))),
    };
    let name = match string_member_exec(paired, "host_name") {
        Some(n) => n,
        None => return Err(AppError::Internal(owned("connector did not return a host name"))),
    };
    Ok((id, name))
}

} // verus!
