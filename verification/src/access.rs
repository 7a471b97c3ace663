//! Who may read or change a conversation, a company and their records,
//! and how message pages and searches are bounded.
use vstd::prelude::*;
use crate::redaction::AppError;
use crate::text::{chars_eq, chars_of, concat2, owned, trim, trim_str};

verus! {

/// A change of a member's view of a conversation.
pub enum ConversationChange {
    Pin,
    Unpin,
    Archive,
    Unarchive,
    Hide,
    Restore,
}

pub open spec fn change_refusal(change: ConversationChange) -> Seq<char> {
    match change {
        ConversationChange::Pin => "agents cannot pin conversations"@,
        ConversationChange::Unpin => "agents cannot unpin conversations"@,
        ConversationChange::Archive => "agents cannot archive conversations"@,
        ConversationChange::Unarchive => "agents cannot unarchive conversations"@,
        ConversationChange::Hide => "agents cannot hide conversations"@,
        ConversationChange::Restore => "agents cannot restore hidden conversations"@,
    }
}

/// Agents do not pin, archive or hide conversations.
pub fn check_conversation_change(is_agent: bool, change: ConversationChange) -> (r: Result<(), AppError>)
    ensures
        !is_agent ==> r is Ok,
        is_agent ==> (r matches Err(e) && e matches AppError::Forbidden(m) && m@ == change_refusal(change)),
{
    if !is_agent {
        return Ok(());
    }
    let m = match change {
        ConversationChange::Pin => "agents cannot pin conversations",
        ConversationChange::Unpin => "agents cannot unpin conversations",
        ConversationChange::Archive => "agents cannot archive conversations",
        ConversationChange::Unarchive => "agents cannot unarchive conversations",
        ConversationChange::Hide => "agents cannot hide conversations",
        ConversationChange::Restore => "agents cannot restore hidden conversations",
    };
    Err(AppError::Forbidden(owned(m)))
}

/// A request acts only as the authenticated operator.
pub fn check_actor_is_operator(actor_id: &str, operator_id: &str) -> (r: Result<(), AppError>)
    ensures
        actor_id@ == operator_id@ ==> r is Ok,
        actor_id@ != operator_id@ ==> (r matches Err(e) && e matches AppError::Forbidden(m) && m@
            == "authenticated principal does not match actor_id"@),
{
    if !chars_eq(chars_of(actor_id).as_slice(), chars_of(operator_id).as_slice()) {
        return Err(AppError::Forbidden(owned("authenticated principal does not match actor_id")));
    }
    Ok(())
}

/// A company is reached only while it exists and only by a principal that
/// belongs to it (`member_companies` are the companies the principal lists).
pub fn check_company_access(company_id: &str, deleted: bool, member_companies: &[String]) -> (r: Result<(), AppError>)
    ensures
        deleted ==> (r matches Err(e) && e matches AppError::NotFound(m) && m@ == "company "@ + company_id@),
        !deleted && (exists|i: int| 0 <= i < member_companies@.len() && (#[trigger] member_companies@[i])@
            == company_id@) ==> r is Ok,
        !deleted && !(exists|i: int| 0 <= i < member_companies@.len() && (#[trigger] member_companies@[i])@
            == company_id@) ==> (r matches Err(e) && e matches AppError::Forbidden(m) && m@
            == "cannot read company from another workspace"@),
{
    if deleted {
        return Err(AppError::NotFound(concat2("company ", company_id)));
    }
    let id = chars_of(company_id);
    let mut i: usize = 0;
    while i < member_companies.len()
        invariant
            i <= member_companies@.len(),
            !deleted,
            id@ == company_id@,
            forall|j: int| 0 <= j < i ==> (#[trigger] member_companies@[j])@ != company_id@,
        decreases member_companies.len() - i,
    {
        if chars_eq(chars_of(member_companies[i].as_str()).as_slice(), id.as_slice()) {
            return Ok(());
        }
        i = i + 1;
    }
    Err(AppError::Forbidden(owned("cannot read company from another workspace")))
}

/// Audit logs are read only within one's own workspace.
pub fn check_audit_workspace(principal_workspace: &str, requested_workspace: &str) -> (r: Result<(), AppError>)
    ensures
        principal_workspace@ == requested_workspace@ ==> r is Ok,
        principal_workspace@ != requested_workspace@ ==> (r matches Err(e) && e matches AppError::Forbidden(m)
            && m@ == "cannot read audit logs from another workspace"@),
{
    if !chars_eq(chars_of(principal_workspace).as_slice(), chars_of(requested_workspace).as_slice()) {
        return Err(AppError::Forbidden(owned("cannot read audit logs from another workspace")));
    }
    Ok(())
}

/// Reading a conversation or its threads: it must be live, and the caller
/// an active member of it.
pub fn check_conversation_read(live: bool, member: bool) -> (r: Result<(), AppError>)
    ensures
        !live ==> (r matches Err(e) && e matches AppError::Forbidden(m) && m@ == "conversation is not accessible"@),
        live && !member ==> (r matches Err(e) && e matches AppError::Forbidden(m) && m@
            == "not a member of this conversation"@),
        live && member ==> r is Ok,
{
    if !live {
        return Err(AppError::Forbidden(owned("conversation is not accessible")));
    }
    if !member {
        return Err(AppError::Forbidden(owned("not a member of this conversation")));
    }
    Ok(())
}

/// What a member does with a whole conversation.
pub enum ConversationUse {
    View,
    Export,
}

/// Viewing or exporting a conversation needs an active membership.
pub fn check_conversation_use(granted: bool, use_kind: ConversationUse) -> (r: Result<(), AppError>)
    ensures
        granted ==> r is Ok,
        !granted ==> (r matches Err(e) && e matches AppError::Forbidden(m) && m@ == match use_kind {
            ConversationUse::View => "cannot view this conversation"@,
            ConversationUse::Export => "cannot export this conversation"@,
        }),
{
    if granted {
        return Ok(());
    }
    match use_kind {
        ConversationUse::View => Err(AppError::Forbidden(owned("cannot view this conversation"))),
        ConversationUse::Export => Err(AppError::Forbidden(owned("cannot export this conversation"))),
    }
}

/// A message page reads before or after a sequence number, not both.
pub fn check_page_direction(before: bool, after: bool) -> (r: Result<(), AppError>)
    ensures
        !(before && after) ==> r is Ok,
        (before && after) ==> (r matches Err(e) && e matches AppError::Validation(m) && m@
            == "before_seq and after_seq are mutually exclusive"@),
{
    if before && after {
        return Err(AppError::Validation(owned("before_seq and after_seq are mutually exclusive")));
    }
    Ok(())
}

/// Messages per page: 50 unless asked, kept within 1 to 100.
pub fn message_page_limit(limit: Option<i64>) -> (r: i64)
    ensures
        r == match limit {
            None => 50,
            Some(l) => if l < 1 { 1 } else if l > 100 { 100 } else { l },
        },
{
    match limit {
        None => 50,
        Some(l) => if l < 1 {
            1
        } else if l > 100 {
            100
        } else {
            l
        },
    }
}

/// Search results: 50 unless asked, at most 100.
pub fn search_limit(limit: Option<i64>) -> (r: i64)
    ensures
        r == match limit {
            None => 50,
            Some(l) => if l > 100 { 100 } else { l },
        },
{
    match limit {
        None => 50,
        Some(l) => if l > 100 {
            100
        } else {
            l
        },
    }
}

/// An empty search would match every message the caller can read: refused.
pub fn check_search_query(q: &str) -> (r: Result<(), AppError>)
    ensures
        trim(q@).len() > 0 ==> r is Ok,
        trim(q@).len() == 0 ==> (r matches Err(e) && e matches AppError::Validation(m) && m@
            == "search query `q` must not be empty"@),
{
    if chars_of(trim_str(q)).len() == 0 {
        return Err(AppError::Validation(owned("search query `q` must not be empty")));
    }
    Ok(())
}

/// The conversation a search is limited to: the one named, trimmed, unless
/// that is empty.
pub fn search_scope(conversation_id: Option<&str>) -> (r: Option<&str>)
    ensures
        match conversation_id {
            Some(c) => if trim(c@).len() > 0 {
                r matches Some(x) && x@ == trim(c@)
            } else {
                r is None
            },
            None => r is None,
        },
{
    match conversation_id {
        Some(c) => {
            let t = trim_str(c);
            if chars_of(t).len() > 0 {
                Some(t)
            } else {
                None
            }
        },
        None => None,
    }
}

/// A computer-use request names a device of the company, when it names one.
pub fn check_computer_use_device(named: bool, in_company: bool) -> (r: Result<(), AppError>)
    ensures
        (!named || in_company) ==> r is Ok,
        (named && !in_company) ==> (r matches Err(e) && e matches AppError::NotFound(m) && m@
            == "device in this company"@),
{
    if named && !in_company {
        return Err(AppError::NotFound(owned("device in this company")));
    }
    Ok(())
}

/// A computer-use request that sets a tool's state is audited, against the
/// device it names or `local`.
pub fn computer_use_audit_target(sets_tool: bool, sets_enabled: bool, runtime_host_id: Option<&str>) -> (r: Option<&str>)
    ensures
        !(sets_tool && sets_enabled) ==> r is None,
        (sets_tool && sets_enabled) ==> (r matches Some(t) && t@ == match runtime_host_id {
            Some(h) => h@,
            None => "local"@,
        }),
{
    if !(sets_tool && sets_enabled) {
        return None;
    }
    match runtime_host_id {
        Some(h) => Some(h),
        None => Some("local"),
    }
}

/// A request that may find its record already made answers 201 when it
/// made it and 200 when it found it.
pub fn created_status(created: bool) -> (r: u16)
    ensures
        r == if created { 201u16 } else { 200u16 },
{
    if created {
        201
    } else {
        200
    }
}

} // verus!
