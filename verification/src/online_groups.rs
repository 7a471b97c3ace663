//! Online groups: the invitation a group owner shares, what a guest's
//! gateway accepts of it, and the links both sides record.
use vstd::prelude::*;
use crate::identifiers::{parses_as_uuid, require_uuid, uuid_text};
use crate::json_text::{json_member, json_string, push_json_key, push_json_string};
use crate::redaction::AppError;
use crate::remote_control::{base64url_decoded, base64url_nopad, decode_base64url, encode_base64url};
use crate::telemetry::{string_member, string_member_exec, JsonValue};
use crate::text::{
    bytes_of, chars_eq, chars_of, decimal, owned, push_char, starts_with, starts_with_exec,
    string_from_chars, sub_chars, trim, trim_str, u64_to_decimal,
};
use vstd::utf8::encode_utf8;

verus! {

/// What a group owner shares with a guest.
pub struct Invitation {
    pub version: u8,
    /// The Online service both gateways use.
    pub origin: String,
    /// The service's link id (a UUID).
    pub link: String,
    /// The one-use grant the service issued (64 characters).
    pub grant: String,
    /// The group's encryption key, base64url without padding.
    pub key: String,
    pub conversation: String,
    pub name: String,
}

/// The invitation's JSON text, members in declaration order.
pub open spec fn invitation_json(inv: Invitation) -> Seq<char> {
    seq!['{'] + json_member("version"@, decimal(inv.version as nat)) + seq![','] + json_member(
        "origin"@,
        json_string(inv.origin@),
    ) + seq![','] + json_member("link"@, json_string(inv.link@)) + seq![','] + json_member(
        "grant"@,
        json_string(inv.grant@),
    ) + seq![','] + json_member("key"@, json_string(inv.key@)) + seq![','] + json_member(
        "conversation"@,
        json_string(inv.conversation@),
    ) + seq![','] + json_member("name"@, json_string(inv.name@)) + seq!['}']
}

/// The shared text: `choruz-online.` and the base64url of the JSON.
pub open spec fn invitation_text(inv: Invitation) -> Seq<char> {
    "choruz-online."@ + base64url_nopad(encode_utf8(invitation_json(inv)))
}

/// The bytes a shared invitation carries: at most 4096 bytes of text that,
/// once trimmed, is `choruz-online.` and base64url.
pub open spec fn invitation_payload(text: Seq<char>) -> Option<Seq<u8>> {
    if encode_utf8(text).len() > 4096 {
        None
    } else {
        let t = trim(text);
        if starts_with(t, "choruz-online."@) {
            base64url_decoded(t.skip("choruz-online."@.len() as int))
        } else {
            None
        }
    }
}

fn invalid() -> (e: AppError)
    ensures
        e matches AppError::Validation(m) && m@ == "Invalid Online group invitation"@,
{
    AppError::Validation(owned("Invalid Online group invitation"))
}

fn push_string_member(out: &mut String, key: &str, value: &str)
    ensures
        final(out)@ == old(out)@ + seq![','] + json_member(key@, json_string(value@)),
{
    push_char(out, ',');
    push_json_key(out, key);
    push_json_string(out, value);
    assert(final(out)@ =~= old(out)@ + seq![','] + json_member(key@, json_string(value@)));
}

fn invitation_json_text(inv: &Invitation) -> (r: String)
    ensures
        r@ == invitation_json(*inv),
{
    let mut json = String::new();
    push_char(&mut json, '{');
    push_json_key(&mut json, "version");
    json.append(u64_to_decimal(inv.version as u64).as_str());
    assert(json@ =~= seq!['{'] + json_member("version"@, decimal(inv.version as nat)));
    push_string_member(&mut json, "origin", inv.origin.as_str());
    push_string_member(&mut json, "link", inv.link.as_str());
    push_string_member(&mut json, "grant", inv.grant.as_str());
    push_string_member(&mut json, "key", inv.key.as_str());
    push_string_member(&mut json, "conversation", inv.conversation.as_str());
    push_string_member(&mut json, "name", inv.name.as_str());
    push_char(&mut json, '}');
    json
}

/// The text a group owner shares; it reads back as the invitation's JSON.
pub fn encode_invitation(inv: &Invitation) -> (r: String)
    ensures
        r@ == invitation_text(*inv),
        encode_utf8(r@).len() <= 4096 ==> invitation_payload(r@) == Some(encode_utf8(invitation_json(*inv))),
{
    let json = invitation_json_text(inv);
    let bytes = bytes_of(json.as_str());
    let body = encode_base64url(bytes.as_slice());
    let mut out = owned("choruz-online.");
    out.append(body.as_str());
    proof {
        lemma_invitation_text_trimmed(bytes@, body@, out@);
    }
    out
}

proof fn lemma_invitation_text_trimmed(b: Seq<u8>, body: Seq<char>, text: Seq<char>)
    requires
        body == base64url_nopad(b),
        text == "choruz-online."@ + body,
    ensures
        encode_utf8(text).len() <= 4096 ==> invitation_payload(text) == base64url_decoded(body),
{
    reveal_strlit("choruz-online.");
    crate::remote_control::lemma_base64url_nopad(b);
    assert(text.skip(14) =~= body);
    crate::text::lemma_leading_ws_is(text, 0);
    let s = crate::text::trim_start(text);
    assert(s =~= text);
    if body.len() > 0 {
        assert(crate::remote_control::url_safe_char(body[body.len() - 1]));
    }
    crate::text::lemma_trailing_ws_is(s, 0);
    assert(crate::text::trim_end(s) =~= s);
    assert(trim(text) == text);
    assert(text.take(14) =~= "choruz-online."@);
    assert(starts_with(text, "choruz-online."@));
}

/// The bytes a guest's gateway reads from a shared invitation.
pub fn invitation_bytes(text: &str) -> (r: Result<Vec<u8>, AppError>)
    ensures
        match invitation_payload(text@) {
            Some(b) => r matches Ok(x) && x@ == b,
            None => r matches Err(e) && e matches AppError::Validation(m) && m@ == "Invalid Online group invitation"@,
        },
{
    proof {
        reveal_strlit("choruz-online.");
    }
    if bytes_of(text).len() > 4096 {
        return Err(invalid());
    }
    let t = chars_of(trim_str(text));
    let prefix = chars_of("choruz-online.");
    if !starts_with_exec(t.as_slice(), prefix.as_slice()) {
        return Err(invalid());
    }
    let rest = string_from_chars(sub_chars(t.as_slice(), prefix.len(), t.len()).as_slice());
    assert(rest@ =~= trim(text@).skip("choruz-online."@.len() as int));
    match decode_base64url(rest.as_str()) {
        Some(b) => Ok(b),
        None => Err(invalid()),
    }
}

/// What a guest's gateway accepts of an invitation: version 1, issued by
/// the same Online service, a UUID link, a 64-byte grant, a key of 32 bytes
/// and a name of at most 200 bytes.
pub open spec fn invitation_acceptable(inv: Invitation, service_url: Seq<char>) -> bool {
    &&& inv.version == 1
    &&& inv.origin@ == service_url
    &&& uuid_text(encode_utf8(inv.link@))
    &&& encode_utf8(inv.grant@).len() == 64
    &&& base64url_decoded(inv.key@) matches Some(k) && k.len() == 32
    &&& encode_utf8(inv.name@).len() <= 200
}

/// Refuses an invitation this gateway cannot accept.
pub fn check_invitation(inv: &Invitation, service_url: &str) -> (r: Result<(), AppError>)
    ensures
        invitation_acceptable(*inv, service_url@) ==> r is Ok,
        !invitation_acceptable(*inv, service_url@) ==> (r matches Err(e) && e matches AppError::Validation(m)
            && m@ == "Invalid Online group invitation"@),
{
    if inv.version != 1 || !chars_eq(chars_of(inv.origin.as_str()).as_slice(), chars_of(service_url).as_slice())
        || !parses_as_uuid(inv.link.as_str()) || bytes_of(inv.grant.as_str()).len() != 64 {
        return Err(invalid());
    }
    let key_ok = match decode_base64url(inv.key.as_str()) {
        Some(k) => k.len() == 32,
        None => false,
    };
    if !key_ok || bytes_of(inv.name.as_str()).len() > 200 {
        return Err(invalid());
    }
    Ok(())
}

/// A link this account already holds for the invitation: a live guest link
/// is answered again (`Ok(true)`); any other is refused; without one the
/// join goes ahead (`Ok(false)`).
pub fn existing_link(existing: Option<(&str, &str)>) -> (r: Result<bool, AppError>)
    ensures
        match existing {
            None => r == Ok::<bool, AppError>(false),
            Some((role, status)) => if role@ == "guest"@ && status@ != "revoked"@ {
                r == Ok::<bool, AppError>(true)
            } else {
                r matches Err(e) && e matches AppError::Conflict(m) && m@
                    == "This invitation is already linked or revoked"@
            },
        },
{
    match existing {
        None => Ok(false),
        Some((role, status)) => {
            let c = chars_of(role);
            let st = chars_of(status);
            proof {
                reveal_strlit("guest");
                reveal_strlit("revoked");
            }
            if crate::text::chars_eq_str(c.as_slice(), "guest") && !crate::text::chars_eq_str(st.as_slice(), "revoked") {
                Ok(true)
            } else {
                Err(AppError::Conflict(owned("This invitation is already linked or revoked")))
            }
        },
    }
}

/// A 2xx status.
pub open spec fn success_status(status: u16) -> bool {
    200 <= status < 300
}

/// The group owner's account, from the service's answer to a join: the
/// service must accept, name the owner, and name this account as the peer.
pub fn join_owner(status: u16, data: &JsonValue, account_id: &str) -> (r: Result<String, AppError>)
    ensures
        !success_status(status) ==> (r matches Err(e) && e matches AppError::Validation(m) && m@
            == "Online invitation expired, was used, or belongs to this account"@),
        success_status(status) ==> match (string_member(*data, "owner_id"@), string_member(*data, "peer_id"@)) {
            (Some(o), Some(p)) => if p == account_id@ {
                r matches Ok(x) && x@ == o
            } else {
                r matches Err(e) && e matches AppError::Validation(m) && m@ == "Invalid Online group invitation"@
            },
            _ => r matches Err(e) && e matches AppError::Validation(m) && m@ == "Invalid Online group invitation"@,
        },
{
    if status < 200 || status >= 300 {
        return Err(AppError::Validation(owned("Online invitation expired, was used, or belongs to this account")));
    }
    let owner = match string_member_exec(data, "owner_id") {
        Some(o) => o,
        None => return Err(invalid()),
    };
    match string_member_exec(data, "peer_id") {
        Some(p) => {
            if !chars_eq(chars_of(p.as_str()).as_slice(), chars_of(account_id).as_slice()) {
                return Err(invalid());
            }
        },
        None => return Err(invalid()),
    }
    Ok(owner)
}

/// Only the owner of a group conversation, still a member, may invite.
pub fn check_invite_owner(creator_id: &str, actor_id: &str, is_group: bool, actor_is_member: bool) -> (r: Result<(), AppError>)
    ensures
        (creator_id@ == actor_id@ && is_group && actor_is_member) ==> r is Ok,
        !(creator_id@ == actor_id@ && is_group && actor_is_member) ==> (r matches Err(e)
            && e matches AppError::Forbidden(m) && m@ == "Only the group owner can invite"@),
{
    if !chars_eq(chars_of(creator_id).as_slice(), chars_of(actor_id).as_slice()) || !is_group || !actor_is_member {
        return Err(AppError::Forbidden(owned("Only the group owner can invite")));
    }
    Ok(())
}

/// The link id and grant from the service's answer to creating a link: a
/// 2xx status, a UUID `id` and a 64-byte `invitation`.
pub fn created_link(status: u16, data: &JsonValue) -> (r: Result<(String, String), AppError>)
    ensures
        !success_status(status) ==> (r matches Err(e) && e matches AppError::Internal(m) && m@
            == "Could not create Online invitation; check your Online session"@),
        success_status(status) ==> match string_member(*data, "id"@) {
            Some(id) if uuid_text(encode_utf8(id)) => match string_member(*data, "invitation"@) {
                Some(g) if encode_utf8(g).len() == 64 => r matches Ok((i, x)) && i@ == id && x@ == g,
                _ => r matches Err(e) && e matches AppError::Internal(m) && m@ == "Missing Online invitation"@,
            },
            _ => r matches Err(e) && e matches AppError::Internal(m) && m@ == "Missing Online link id"@,
        },
{
    if status < 200 || status >= 300 {
        return Err(AppError::Internal(owned("Could not create Online invitation; check your Online session")));
    }
    let id = match string_member_exec(data, "id") {
        Some(id) => {
            if !parses_as_uuid(id.as_str()) {
                return Err(AppError::Internal(owned("Missing Online link id")));
            }
            id
        },
        None => return Err(AppError::Internal(owned("Missing Online link id"))),
    };
    let grant = match string_member_exec(data, "invitation") {
        Some(g) => {
            if bytes_of(g.as_str()).len() != 64 {
                return Err(AppError::Internal(owned("Missing Online invitation")));
            }
            g
        },
        None => return Err(AppError::Internal(owned("Missing Online invitation"))),
    };
    Ok((id, grant))
}

/// `thread_rng().fill_bytes`: `n` bytes from the thread's random generator.
#[verifier::external_body]
fn thread_random_bytes(n: usize) -> (r: Vec<u8>)
    ensures
        r@.len() == n,
{
    let mut b = vec![0u8; n];
    rand::RngCore::fill_bytes(&mut rand::thread_rng(), &mut b);
    b
}

/// A fresh group key: 32 random bytes as base64url without padding.
pub fn new_group_key() -> (r: String)
    ensures
        exists|k: Seq<u8>| k.len() == 32 && r@ == base64url_nopad(k) && base64url_decoded(r@) == Some(k),
{
    let k = thread_random_bytes(32);
    let r = encode_base64url(k.as_slice());
    assert(k@.len() == 32 && r@ == base64url_nopad(k@) && base64url_decoded(r@) == Some(k@));
    r
}

/// The answer to an invitation request: the text to share and when it
/// expires (members sorted by name).
pub fn invite_reply(invitation: String, expires_at: JsonValue) -> (r: JsonValue)
    ensures
        r matches JsonValue::Object(f) && f@.len() == 2 && f@[0].0@ == "expires_at"@ && f@[0].1 == expires_at
            && f@[1].0@ == "invitation"@ && f@[1].1 == JsonValue::Str(invitation),
{
    let mut f: Vec<(String, JsonValue)> = Vec::new();
    f.push((owned("expires_at"), expires_at));
    f.push((owned("invitation"), JsonValue::Str(invitation)));
    JsonValue::Object(f)
}

/// The link a side of a group records.
pub struct GroupLink {
    pub id: String,
    pub channel_id: String,
    pub principal_id: String,
    pub workspace_id: String,
    pub account_id: String,
    pub peer_account_id: Option<String>,
    /// `host` for the owner's side, `guest` for an invited side.
    pub role: String,
    pub conversation_id: String,
    pub peer_principal_id: Option<String>,
    pub encryption_key: String,
    pub name: String,
    /// `pending` until the service confirms the link.
    pub status: String,
    pub last_seq: i64,
}

/// The owner's side of a new group link, named after the conversation
/// (`Group` when it has no name).
pub fn host_link(
    id: String,
    channel_id: String,
    principal_id: String,
    workspace_id: String,
    account_id: String,
    conversation_id: String,
    peer_principal_id: String,
    encryption_key: String,
    conversation_name: Option<String>,
) -> (r: GroupLink)
    ensures
        r.id == id && r.channel_id == channel_id && r.principal_id == principal_id && r.workspace_id
            == workspace_id && r.account_id == account_id && r.conversation_id == conversation_id,
        r.peer_account_id is None,
        r.peer_principal_id == Some(peer_principal_id),
        r.encryption_key == encryption_key,
        r.role@ == "host"@,
        r.status@ == "pending"@,
        r.last_seq == 0,
        r.name@ == match conversation_name {
            Some(n) => n@,
            None => "Group"@,
        },
{
    let name = match conversation_name {
        Some(n) => n,
        None => owned("Group"),
    };
    GroupLink {
        id,
        channel_id,
        principal_id,
        workspace_id,
        account_id,
        peer_account_id: None,
        role: owned("host"),
        conversation_id,
        peer_principal_id: Some(peer_principal_id),
        encryption_key,
        name,
        status: owned("pending"),
        last_seq: 0,
    }
}

/// A guest's side of a link, taken from the accepted invitation.
pub fn guest_link(
    id: String,
    invitation: Invitation,
    principal_id: String,
    workspace_id: String,
    account_id: String,
    owner_account_id: String,
) -> (r: GroupLink)
    ensures
        r.id == id && r.principal_id == principal_id && r.workspace_id == workspace_id && r.account_id
            == account_id,
        r.channel_id == invitation.link,
        r.conversation_id == invitation.conversation,
        r.encryption_key == invitation.key,
        r.name == invitation.name,
        r.peer_account_id == Some(owner_account_id),
        r.peer_principal_id is None,
        r.role@ == "guest"@,
        r.status@ == "pending"@,
        r.last_seq == 0,
{
    GroupLink {
        id,
        channel_id: invitation.link,
        principal_id,
        workspace_id,
        account_id,
        peer_account_id: Some(owner_account_id),
        role: owned("guest"),
        conversation_id: invitation.conversation,
        peer_principal_id: None,
        encryption_key: invitation.key,
        name: invitation.name,
        status: owned("pending"),
        last_seq: 0,
    }
}

/// Leaving succeeds when the service revoked the link or no longer has it.
pub fn leave_result(status: u16) -> (r: Result<(), AppError>)
    ensures
        (success_status(status) || status == 404) ==> r is Ok,
        !(success_status(status) || status == 404) ==> (r matches Err(e) && e matches AppError::Internal(m)
            && m@ == "Group disabled locally; cloud revocation is pending retry"@),
{
    if (status >= 200 && status < 300) || status == 404 {
        Ok(())
    } else {
        Err(AppError::Internal(owned("Group disabled locally; cloud revocation is pending retry")))
    }
}

/// A message page starts after a sequence number that is not negative.
pub fn check_message_cursor(after_seq: i64) -> (r: Result<(), AppError>)
    ensures
        after_seq >= 0 ==> r is Ok,
        after_seq < 0 ==> (r matches Err(e) && e matches AppError::Validation(m) && m@ == "Invalid message cursor"@),
{
    if after_seq < 0 {
        return Err(AppError::Validation(owned("Invalid message cursor")));
    }
    Ok(())
}

/// A group message carries a UUID the sender chose.
pub fn check_message_id(id: &str) -> (r: Result<(), AppError>)
    ensures
        uuid_text(encode_utf8(id@)) ==> r is Ok,
        !uuid_text(encode_utf8(id@)) ==> (r matches Err(e) && e matches AppError::Validation(m) && m@
            == "Message id must be a UUID"@),
{
    require_uuid(id, "Message id must be a UUID")
}

} // verus!
