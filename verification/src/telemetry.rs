//! Telemetry sent by clients is scrubbed before it is stored: sensitive
//! fields are replaced, private payloads lose their content, and free text
//! loses anything that looks like a credential.
use vstd::prelude::*;
use crate::redaction::{redact_sensitive_text, redacted};
use crate::text::{
    chars_eq_str, chars_of, contains, contains_exec, ends_with, ends_with_exec, lower, lower_chars,
    owned,
};

verus! {

/// A JSON document as the telemetry endpoint receives it. Numbers keep
/// their text; object members keep their order.
#[derive(Debug)]
pub enum JsonValue {
    Null,
    Bool(bool),
    Number(String),
    Str(String),
    Array(Vec<JsonValue>),
    Object(Vec<(String, JsonValue)>),
}

/// `s` without its `_` and `-` characters.
pub open spec fn compact(s: Seq<char>) -> Seq<char>
    decreases s.len(),
{
    if s.len() == 0 {
        seq![]
    } else {
        let r = compact(s.drop_last());
        if s.last() == '_' || s.last() == '-' {
            r
        } else {
            r.push(s.last())
        }
    }
}

/// Compact key names that are always sensitive.
pub open spec fn sensitive_compact_name(c: Seq<char>) -> bool {
    c == "authorization"@ || c == "cookie"@ || c == "setcookie"@ || c == "database64"@ || c
        == "attachmentbytes"@ || c == "filebytes"@ || c == "contentbytes"@ || c == "bodybytes"@
        || c == "rawbytes"@ || c == "bytesbase64"@ || c == "payloadbase64"@ || c == "filename"@
        || c == "attachmentname"@ || c == "path"@ || c == "paths"@ || c == "authenticationcode"@
        || c == "authorizationcode"@ || c == "devicecode"@ || c == "pairingcredential"@ || c
        == "credential"@
}

/// A key whose value is never stored: credentials, cookies, raw bytes,
/// file names and paths, secrets, passwords and tokens, matched
/// case-insensitively and also with `_` and `-` removed.
pub open spec fn sensitive_key(key: Seq<char>) -> bool {
    let k = lower(key);
    let c = compact(k);
    k == "authorization"@ || k == "cookie"@ || k == "set-cookie"@ || sensitive_compact_name(c)
        || ends_with(c, "filename"@) || contains(k, "secret"@) || contains(c, "secret"@) || contains(
        k,
        "password"@,
    ) || contains(c, "password"@) || ends_with(k, "_path"@) || ends_with(k, "_paths"@) || ends_with(
        c,
        "path"@,
    ) || ends_with(c, "paths"@) || contains(k, "session_token"@) || contains(c, "sessiontoken"@)
        || ends_with(k, "_token"@) || ends_with(k, "token"@) || ends_with(c, "token"@)
}

fn compact_exec(v: &[char]) -> (r: Vec<char>)
    ensures
        r@ == compact(v@),
{
    let mut r: Vec<char> = Vec::new();
    let mut i: usize = 0;
    while i < v.len()
        invariant
            i <= v.len(),
            r@ == compact(v@.take(i as int)),
        decreases v.len() - i,
    {
        assert(v@.take(i + 1).drop_last() =~= v@.take(i as int));
        if v[i] != '_' && v[i] != '-' {
            r.push(v[i]);
        }
        i = i + 1;
    }
    assert(v@.take(v.len() as int) =~= v@);
    r
}

fn sensitive_compact_name_exec(c: &[char]) -> (r: bool)
    ensures
        r == sensitive_compact_name(c@),
{
    chars_eq_str(c, "authorization") || chars_eq_str(c, "cookie") || chars_eq_str(c, "setcookie")
        || chars_eq_str(c, "database64") || chars_eq_str(c, "attachmentbytes") || chars_eq_str(
        c,
        "filebytes",
    ) || chars_eq_str(c, "contentbytes") || chars_eq_str(c, "bodybytes") || chars_eq_str(
        c,
        "rawbytes",
    ) || chars_eq_str(c, "bytesbase64") || chars_eq_str(c, "payloadbase64") || chars_eq_str(
        c,
        "filename",
    ) || chars_eq_str(c, "attachmentname") || chars_eq_str(c, "path") || chars_eq_str(c, "paths")
        || chars_eq_str(c, "authenticationcode") || chars_eq_str(c, "authorizationcode")
        || chars_eq_str(c, "devicecode") || chars_eq_str(c, "pairingcredential") || chars_eq_str(
        c,
        "credential",
    )
}

fn ends_lit(s: &[char], lit: &str) -> (r: bool)
    ensures
        r == ends_with(s@, lit@),
{
    let p = chars_of(lit);
    ends_with_exec(s, p.as_slice())
}

fn contains_lit(s: &[char], lit: &str) -> (r: bool)
    ensures
        r == contains(s@, lit@),
{
    let p = chars_of(lit);
    contains_exec(s, p.as_slice())
}

/// Is the value under `key` withheld from storage?
pub fn telemetry_key_is_sensitive(key: &str) -> (r: bool)
    ensures
        r == sensitive_key(key@),
{
    let v = chars_of(key);
    let k = lower_chars(v.as_slice());
    let c = compact_exec(k.as_slice());
    let ks = k.as_slice();
    let cs = c.as_slice();
    chars_eq_str(ks, "authorization") || chars_eq_str(ks, "cookie") || chars_eq_str(ks, "set-cookie")
        || sensitive_compact_name_exec(cs) || ends_lit(cs, "filename") || contains_lit(ks, "secret")
        || contains_lit(cs, "secret") || contains_lit(ks, "password") || contains_lit(cs, "password")
        || ends_lit(ks, "_path") || ends_lit(ks, "_paths") || ends_lit(cs, "path") || ends_lit(
        cs,
        "paths",
    ) || contains_lit(ks, "session_token") || contains_lit(cs, "sessiontoken") || ends_lit(
        ks,
        "_token",
    ) || ends_lit(ks, "token") || ends_lit(cs, "token")
}

/// Keys that carry the content of a private payload.
pub open spec fn private_content_key(key: Seq<char>) -> bool {
    let k = lower(key);
    k == "content"@ || k == "message"@ || k == "text"@ || k == "body"@ || k == "preview"@
}

/// Is the value under `key` content that a private payload withholds?
pub fn telemetry_key_is_private_content(key: &str) -> (r: bool)
    ensures
        r == private_content_key(key@),
{
    let v = chars_of(key);
    let k = lower_chars(v.as_slice());
    let ks = k.as_slice();
    chars_eq_str(ks, "content") || chars_eq_str(ks, "message") || chars_eq_str(ks, "text")
        || chars_eq_str(ks, "body") || chars_eq_str(ks, "preview")
}

/// Index of the first member named `key`.
pub open spec fn member_index(fields: Seq<(String, JsonValue)>, key: Seq<char>) -> Option<int>
    decreases fields.len(),
{
    if fields.len() == 0 {
        None
    } else if fields.last().0@ == key {
        match member_index(fields.drop_last(), key) {
            Some(i) => Some(i),
            None => Some(fields.len() - 1),
        }
    } else {
        member_index(fields.drop_last(), key)
    }
}

/// Some member is named `key`.
pub open spec fn has_member(fields: Seq<(String, JsonValue)>, key: Seq<char>) -> bool {
    exists|j: int| 0 <= j < fields.len() && (#[trigger] fields[j]).0@ == key
}

/// The first member named `key` exists exactly when some member has that name.
pub proof fn lemma_member_index_some(fields: Seq<(String, JsonValue)>, key: Seq<char>)
    ensures
        member_index(fields, key) is Some <==> has_member(fields, key),
        match member_index(fields, key) {
            Some(i) => 0 <= i < fields.len() && fields[i].0@ == key && forall|j: int|
                0 <= j < i ==> (#[trigger] fields[j]).0@ != key,
            None => true,
        },
    decreases fields.len(),
{
    if fields.len() > 0 {
        let init = fields.drop_last();
        lemma_member_index_some(init, key);
        if has_member(init, key) {
            let j = choose|j: int| 0 <= j < init.len() && (#[trigger] init[j]).0@ == key;
            assert(fields[j] == init[j]);
        }
        if has_member(fields, key) && !has_member(init, key) {
            let j = choose|j: int| 0 <= j < fields.len() && (#[trigger] fields[j]).0@ == key;
            if j < init.len() {
                assert(init[j] == fields[j]);
            }
        }
        match member_index(init, key) {
            Some(i) => {
                assert forall|j: int| 0 <= j < i implies (#[trigger] fields[j]).0@ != key by {
                    assert(fields[j] == init[j]);
                }
            },
            None => {
                assert forall|j: int| 0 <= j < init.len() implies (#[trigger] fields[j]).0@
                    != key by {
                    assert(fields[j] == init[j]);
                    if init[j].0@ == key {
                        assert(has_member(init, key));
                    }
                }
            },
        }
    }
}

/// The value of the first member named `key`.
pub open spec fn member(fields: Seq<(String, JsonValue)>, key: Seq<char>) -> Option<JsonValue> {
    match member_index(fields, key) {
        Some(i) => Some(fields[i].1),
        None => None,
    }
}

/// A payload marks itself private by `private: true` (or, without a
/// `private` member, `is_private: true`), or by `privacy: "private"`.
pub open spec fn private_payload(fields: Seq<(String, JsonValue)>) -> bool {
    let flag = match member(fields, "private"@) {
        Some(v) => v == JsonValue::Bool(true),
        None => match member(fields, "is_private"@) {
            Some(v) => v == JsonValue::Bool(true),
            None => false,
        },
    };
    flag || match member(fields, "privacy"@) {
        Some(JsonValue::Str(s)) => s@ == "private"@,
        _ => false,
    }
}

/// The placeholder a withheld value is replaced by.
pub open spec fn redacted_marker(v: JsonValue) -> bool {
    v matches JsonValue::Str(s) && s@ == "[REDACTED]"@
}

/// `out` is `input` scrubbed: strings redacted, sensitive members (and, in a
/// private payload, content members) replaced by `[REDACTED]`, everything
/// else scrubbed in place; the shape and the member names are kept.
pub open spec fn sanitized(input: JsonValue, out: JsonValue) -> bool
    decreases input,
{
    match input {
        JsonValue::Str(s) => out matches JsonValue::Str(t) && t@ == redacted(s@),
        JsonValue::Array(items) => out matches JsonValue::Array(outs) && outs@.len()
            == items@.len() && forall|i: int|
            0 <= i < items@.len() ==> sanitized(#[trigger] items@[i], outs@[i]),
        JsonValue::Object(fields) => out matches JsonValue::Object(outs) && outs@.len()
            == fields@.len() && forall|i: int|
            0 <= i < fields@.len() ==> {
                &&& (#[trigger] outs@[i]).0@ == fields@[i].0@
                &&& if sensitive_key(fields@[i].0@) || (private_payload(fields@)
                    && private_content_key(fields@[i].0@)) {
                    redacted_marker(outs@[i].1)
                } else {
                    sanitized(fields@[i].1, outs@[i].1)
                }
            },
        _ => out == input,
    }
}

pub(crate) proof fn lemma_member_index_is(fields: Seq<(String, JsonValue)>, key: Seq<char>, k: int)
    requires
        0 <= k <= fields.len(),
        forall|j: int| 0 <= j < k ==> (#[trigger] fields[j]).0@ != key,
        k < fields.len() ==> fields[k].0@ == key,
    ensures
        member_index(fields, key) == (if k < fields.len() { Some(k) } else { None::<int> }),
    decreases fields.len(),
{
    if fields.len() > 0 {
        let init = fields.drop_last();
        if k < fields.len() - 1 {
            lemma_member_index_is(init, key, k);
        } else {
            assert forall|j: int| 0 <= j < init.len() implies (#[trigger] init[j]).0@ != key by {
                assert(init[j] == fields[j]);
            }
            lemma_member_index_is(init, key, init.len() as int);
        }
    }
}

/// Position of the first member named `key`.
pub fn find_member(fields: &Vec<(String, JsonValue)>, key: &str) -> (r: Option<usize>)
    ensures
        match r {
            Some(i) => member_index(fields@, key@) == Some(i as int) && i < fields@.len(),
            None => member_index(fields@, key@) is None,
        },
{
    let k = chars_of(key);
    let mut i: usize = 0;
    while i < fields.len()
        invariant
            i <= fields@.len(),
            k@ == key@,
            forall|j: int| 0 <= j < i ==> (#[trigger] fields@[j]).0@ != key@,
        decreases fields.len() - i,
    {
        let name = chars_of(fields[i].0.as_str());
        if crate::text::chars_eq(name.as_slice(), k.as_slice()) {
            proof {
                lemma_member_index_is(fields@, key@, i as int);
            }
            return Some(i);
        }
        i = i + 1;
    }
    proof {
        lemma_member_index_is(fields@, key@, fields@.len() as int);
    }
    None
}

fn bool_member_true(fields: &Vec<(String, JsonValue)>, i: usize) -> (r: bool)
    requires
        i < fields@.len(),
    ensures
        r == (fields@[i as int].1 == JsonValue::Bool(true)),
{
    match &fields[i].1 {
        JsonValue::Bool(b) => *b,
        _ => false,
    }
}

/// Does the payload mark itself private?
pub(crate) fn is_private_payload(fields: &Vec<(String, JsonValue)>) -> (r: bool)
    ensures
        r == private_payload(fields@),
{
    proof {
        reveal_strlit("private");
    }
    let flag = match find_member(fields, "private") {
        Some(i) => bool_member_true(fields, i),
        None => match find_member(fields, "is_private") {
            Some(i) => bool_member_true(fields, i),
            None => false,
        },
    };
    if flag {
        return true;
    }
    match find_member(fields, "privacy") {
        Some(i) => match &fields[i].1 {
            JsonValue::Str(s) => {
                let c = chars_of(s.as_str());
                chars_eq_str(c.as_slice(), "private")
            },
            _ => false,
        },
        None => false,
    }
}

/// Scrubs a telemetry value before it is stored.
pub fn sanitize_telemetry_value(value: JsonValue) -> (r: JsonValue)
    ensures
        sanitized(value, r),
    decreases value,
{
    let ghost whole = value;
    match value {
        JsonValue::Str(s) => JsonValue::Str(redact_sensitive_text(s.as_str())),
        JsonValue::Array(items) => {
            let ghost orig = items@;
            let ghost v0 = items;
            let mut items = items;
            let mut rev: Vec<JsonValue> = Vec::new();
            while items.len() > 0
                invariant
                    whole == JsonValue::Array(v0),
                    whole == value,
                    v0@ == orig,
                    items@.len() <= orig.len(),
                    items@ == orig.take(items@.len() as int),
                    rev@.len() == orig.len() - items@.len(),
                    forall|j: int|
                        0 <= j < rev@.len() ==> sanitized(
                            #[trigger] orig[orig.len() - 1 - j],
                            rev@[j],
                        ),
                decreases items.len(),
            {
                let ghost n = items@.len();
                let x = items.pop().unwrap();
                proof {
                    assert(x == orig[n - 1]);
                    assert(items@ =~= orig.take(items@.len() as int));
                    assert(decreases_to!(whole => whole->Array_0));
                    assert(decreases_to!(v0 => v0@));
                    assert(decreases_to!(v0@ => v0@[n - 1]));
                    assert(decreases_to!(whole => x));
                }
                let y = sanitize_telemetry_value(x);
                rev.push(y);
            }
            let mut outs: Vec<JsonValue> = Vec::new();
            while rev.len() > 0
                invariant
                    rev@.len() + outs@.len() == orig.len(),
                    forall|j: int|
                        0 <= j < rev@.len() ==> sanitized(
                            #[trigger] orig[orig.len() - 1 - j],
                            rev@[j],
                        ),
                    forall|j: int| 0 <= j < outs@.len() ==> sanitized(#[trigger] orig[j], outs@[j]),
                decreases rev.len(),
            {
                let ghost m = rev@.len();
                let y = rev.pop().unwrap();
                proof {
                    assert(sanitized(orig[orig.len() - 1 - (m - 1)], y));
                }
                outs.push(y);
            }
            JsonValue::Array(outs)
        },
        JsonValue::Object(fields) => {
            let private = is_private_payload(&fields);
            let ghost orig = fields@;
            let ghost v0 = fields;
            let mut fields = fields;
            let mut rev: Vec<(String, JsonValue)> = Vec::new();
            while fields.len() > 0
                invariant
                    whole == JsonValue::Object(v0),
                    whole == value,
                    v0@ == orig,
                    private == private_payload(orig),
                    fields@.len() <= orig.len(),
                    fields@ == orig.take(fields@.len() as int),
                    rev@.len() == orig.len() - fields@.len(),
                    forall|j: int|
                        0 <= j < rev@.len() ==> {
                            let f = #[trigger] orig[orig.len() - 1 - j];
                            &&& rev@[j].0@ == f.0@
                            &&& if sensitive_key(f.0@) || (private && private_content_key(f.0@)) {
                                redacted_marker(rev@[j].1)
                            } else {
                                sanitized(f.1, rev@[j].1)
                            }
                        },
                decreases fields.len(),
            {
                let ghost n = fields@.len();
                let (key, x) = fields.pop().unwrap();
                proof {
                    assert((key, x) == orig[n - 1]);
                    assert(fields@ =~= orig.take(fields@.len() as int));
                }
                if telemetry_key_is_sensitive(key.as_str()) || (private
                    && telemetry_key_is_private_content(key.as_str())) {
                    rev.push((key, JsonValue::Str(owned("[REDACTED]"))));
                } else {
                    proof {
                        assert(decreases_to!(whole => whole->Object_0));
                        assert(decreases_to!(v0 => v0@));
                        assert(decreases_to!(v0@ => v0@[n - 1]));
                        assert(decreases_to!(v0@[n - 1] => v0@[n - 1].1));
                        assert(decreases_to!(whole => x));
                    }
                    let y = sanitize_telemetry_value(x);
                    rev.push((key, y));
                }
            }
            let mut outs: Vec<(String, JsonValue)> = Vec::new();
            while rev.len() > 0
                invariant
                    rev@.len() + outs@.len() == orig.len(),
                    private == private_payload(orig),
                    forall|j: int|
                        0 <= j < rev@.len() ==> {
                            let f = #[trigger] orig[orig.len() - 1 - j];
                            &&& rev@[j].0@ == f.0@
                            &&& if sensitive_key(f.0@) || (private && private_content_key(f.0@)) {
                                redacted_marker(rev@[j].1)
                            } else {
                                sanitized(f.1, rev@[j].1)
                            }
                        },
                    forall|j: int|
                        0 <= j < outs@.len() ==> {
                            let f = #[trigger] orig[j];
                            &&& outs@[j].0@ == f.0@
                            &&& if sensitive_key(f.0@) || (private && private_content_key(f.0@)) {
                                redacted_marker(outs@[j].1)
                            } else {
                                sanitized(f.1, outs@[j].1)
                            }
                        },
                decreases rev.len(),
            {
                let ghost m = rev@.len();
                let y = rev.pop().unwrap();
                proof {
                    let f = orig[orig.len() - 1 - (m - 1)];
                    assert(y.0@ == f.0@);
                }
                outs.push(y);
            }
            JsonValue::Object(outs)
        },
        JsonValue::Null => JsonValue::Null,
        JsonValue::Bool(b) => JsonValue::Bool(b),
        JsonValue::Number(n) => JsonValue::Number(n),
    }
}

/// A string member of a JSON object, as `value[key].as_str()` reads it.
pub open spec fn string_member(value: JsonValue, key: Seq<char>) -> Option<Seq<char>> {
    match value {
        JsonValue::Object(fields) => match member(fields@, key) {
            Some(JsonValue::Str(s)) => Some(s@),
            _ => None,
        },
        _ => None,
    }
}

pub fn string_member_exec(value: &JsonValue, key: &str) -> (r: Option<String>)
    ensures
        match string_member(*value, key@) {
            Some(s) => r matches Some(x) && x@ == s,
            None => r is None,
        },
{
    match value {
        JsonValue::Object(fields) => match find_member(fields, key) {
            Some(i) => match &fields[i].1 {
                JsonValue::Str(s) => Some(owned(s.as_str())),
                _ => None,
            },
            None => None,
        },
        _ => None,
    }
}


/// The payload's own members say it is private: `private: true`; or, with
/// no `private` member at all, `is_private: true`; or `privacy: "private"`.
pub open spec fn marked_private(fields: Seq<(String, JsonValue)>) -> bool {
    ||| member(fields, "private"@) == Some(JsonValue::Bool(true))
    ||| (member(fields, "private"@) is None && member(fields, "is_private"@) == Some(JsonValue::Bool(true)))
    ||| match member(fields, "privacy"@) {
        Some(JsonValue::Str(p)) => p@ == "private"@,
        _ => false,
    }
}

/// A payload that marks itself private is stored without its content:
/// whatever its `content`, `message`, `text`, `body` or `preview` members
/// held (in any letter case), each comes out as `"[REDACTED]"`, and every
/// other member keeps its name and place.
pub proof fn law_private_payloads_withhold_their_content(fields: Vec<(String, JsonValue)>, out: JsonValue)
    requires
        sanitized(JsonValue::Object(fields), out),
        marked_private(fields@),
    ensures
        out matches JsonValue::Object(outs) && outs@.len() == fields@.len() && forall|i: int|
            0 <= i < fields@.len() ==> (#[trigger] outs@[i]).0@ == fields@[i].0@ && ((lower(fields@[i].0@)
                == "content"@ || lower(fields@[i].0@) == "message"@ || lower(fields@[i].0@) == "text"@
                || lower(fields@[i].0@) == "body"@ || lower(fields@[i].0@) == "preview"@) ==> (
            outs@[i].1 matches JsonValue::Str(t) && t@ == "[REDACTED]"@)),
{
    assert(private_payload(fields@));
}

/// A payload that does not mark itself private keeps its content: a
/// member that is not sensitive is scrubbed in place (only secrets inside
/// its text are redacted), never withheld as a whole.
pub proof fn law_other_payloads_keep_their_content(fields: Vec<(String, JsonValue)>, out: JsonValue, i: int)
    requires
        sanitized(JsonValue::Object(fields), out),
        !marked_private(fields@),
        0 <= i < fields@.len(),
        !sensitive_key(fields@[i].0@),
    ensures
        out matches JsonValue::Object(outs) && outs@[i].0@ == fields@[i].0@ && sanitized(fields@[i].1, outs@[i].1),
{
    assert(!private_payload(fields@));
}

/// A member name that marks a credential, cookie, raw payload, file name,
/// path, secret, password or token: compared in lower case, and also with
/// `_` and `-` removed.
pub open spec fn names_a_secret(key: Seq<char>) -> bool {
    let k = lower(key);
    let c = compact(k);
    ||| k == "set-cookie"@
    ||| c == "authorization"@ ||| c == "cookie"@ ||| c == "setcookie"@ ||| c == "database64"@
    ||| c == "attachmentbytes"@ ||| c == "filebytes"@ ||| c == "contentbytes"@ ||| c == "bodybytes"@
    ||| c == "rawbytes"@ ||| c == "bytesbase64"@ ||| c == "payloadbase64"@ ||| c == "attachmentname"@
    ||| c == "authenticationcode"@ ||| c == "authorizationcode"@ ||| c == "devicecode"@
    ||| c == "pairingcredential"@ ||| c == "credential"@
    ||| ends_with(c, "filename"@)
    ||| contains(k, "secret"@) ||| contains(c, "secret"@)
    ||| contains(k, "password"@) ||| contains(c, "password"@)
    ||| ends_with(k, "_path"@) ||| ends_with(k, "_paths"@) ||| ends_with(c, "path"@) ||| ends_with(c, "paths"@)
    ||| contains(k, "session_token"@) ||| contains(c, "sessiontoken"@)
    ||| ends_with(k, "_token"@) ||| ends_with(k, "token"@) ||| ends_with(c, "token"@)
}

/// Every member whose name marks a secret is withheld from stored
/// telemetry, whether or not the payload is private and whatever it held:
/// its value comes out as `"[REDACTED]"` under the same name.
pub proof fn law_secret_members_are_withheld(fields: Vec<(String, JsonValue)>, out: JsonValue)
    requires
        sanitized(JsonValue::Object(fields), out),
    ensures
        out matches JsonValue::Object(outs) && outs@.len() == fields@.len() && forall|i: int|
            0 <= i < fields@.len() && names_a_secret(fields@[i].0@) ==> (#[trigger] outs@[i]).0@
                == fields@[i].0@ && (outs@[i].1 matches JsonValue::Str(t) && t@ == "[REDACTED]"@),
{
    if let JsonValue::Object(outs) = out {
        assert forall|i: int| 0 <= i < fields@.len() && names_a_secret(fields@[i].0@) implies (
        #[trigger] outs@[i]).0@ == fields@[i].0@ && (outs@[i].1 matches JsonValue::Str(t) && t@
            == "[REDACTED]"@) by {
            assert(sensitive_key(fields@[i].0@));
        }
    }
}
} // verus!
