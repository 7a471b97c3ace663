//! What operators see of an agent's runtime in a conversation: its state,
//! its queue and the command it is running, with errors redacted.
use vstd::prelude::*;
use crate::cron::UtcInstant;
use crate::redaction::{redact_sensitive_text, redacted};
use crate::text::owned;

verus! {

/// A command an agent runtime is working on, as the session store reports it.
#[derive(Debug)]
pub struct RuntimeStatusCommand {
    pub command_id: String,
    pub message_id: String,
    pub turn_id: String,
    pub status: String,
    pub created_at: UtcInstant,
    pub updated_at: UtcInstant,
    pub lease_age_seconds: i64,
    pub attempt_count: i32,
    pub last_error: Option<String>,
}

/// An agent's runtime state in one conversation, as the session store reports it.
#[derive(Debug)]
pub struct AgentRuntimeStatus {
    pub agent_id: String,
    pub conversation_id: String,
    pub status: String,
    pub queued_count: i64,
    pub active_command: Option<RuntimeStatusCommand>,
    pub last_error: Option<String>,
}

/// The agent a status is shown for.
#[derive(Debug)]
pub struct AgentRef {
    pub id: String,
    pub name: String,
}

/// A command as operators see it.
#[derive(Debug)]
pub struct RuntimeStatusCommandView {
    pub command_id: String,
    pub message_id: String,
    pub turn_id: String,
    pub status: String,
    pub created_at: UtcInstant,
    pub updated_at: UtcInstant,
    pub lease_age_seconds: Option<i64>,
    pub attempt_count: i32,
    pub last_error: Option<String>,
}

/// An agent's runtime state as operators see it.
#[derive(Debug)]
pub struct ConversationRuntimeStatusView {
    pub conversation_id: String,
    pub agent_principal_id: String,
    pub agent_name: String,
    pub status: String,
    pub queued_count: i64,
    pub active_command: Option<RuntimeStatusCommandView>,
    pub last_error: Option<String>,
}

pub open spec fn redacted_opt(e: Option<String>) -> Option<Seq<char>> {
    match e {
        Some(s) => Some(redacted(s@)),
        None => None,
    }
}

pub open spec fn view_opt(e: Option<String>) -> Option<Seq<char>> {
    match e {
        Some(s) => Some(s@),
        None => None,
    }
}

/// `v` shows `c`: the same identifiers, state and times, the lease age,
/// and the error redacted.
pub open spec fn shows_command(c: RuntimeStatusCommand, v: RuntimeStatusCommandView) -> bool {
    &&& v.command_id@ == c.command_id@
    &&& v.message_id@ == c.message_id@
    &&& v.turn_id@ == c.turn_id@
    &&& v.status@ == c.status@
    &&& v.created_at == c.created_at
    &&& v.updated_at == c.updated_at
    &&& v.lease_age_seconds == Some(c.lease_age_seconds)
    &&& v.attempt_count == c.attempt_count
    &&& view_opt(v.last_error) == redacted_opt(c.last_error)
}

fn redact_opt(e: &Option<String>) -> (r: Option<String>)
    ensures
        view_opt(r) == redacted_opt(*e),
{
    match e {
        Some(s) => Some(redact_sensitive_text(s.as_str())),
        None => None,
    }
}

/// A command as operators see it, its error redacted.
pub fn command_view(command: RuntimeStatusCommand) -> (v: RuntimeStatusCommandView)
    ensures
        shows_command(command, v),
{
    let last_error = redact_opt(&command.last_error);
    RuntimeStatusCommandView {
        command_id: command.command_id,
        message_id: command.message_id,
        turn_id: command.turn_id,
        status: command.status,
        created_at: command.created_at,
        updated_at: command.updated_at,
        lease_age_seconds: Some(command.lease_age_seconds),
        attempt_count: command.attempt_count,
        last_error,
    }
}

/// The error shown for a status: its own, else its active command's.
pub open spec fn status_error(s: AgentRuntimeStatus) -> Option<String> {
    match s.last_error {
        Some(e) => Some(e),
        None => match s.active_command {
            Some(c) => c.last_error,
            None => None,
        },
    }
}

/// `v` shows `agent`'s runtime in `conversation_id`: the reported status
/// when there is one (its error redacted, falling back to the active
/// command's), else an idle agent with an empty queue.
pub open spec fn shows_status(
    conversation_id: Seq<char>,
    agent: AgentRef,
    status: Option<AgentRuntimeStatus>,
    v: ConversationRuntimeStatusView,
) -> bool {
    &&& v.agent_principal_id@ == agent.id@
    &&& v.agent_name@ == agent.name@
    &&& match status {
        Some(s) => {
            &&& v.conversation_id@ == s.conversation_id@
            &&& v.status@ == s.status@
            &&& v.queued_count == s.queued_count
            &&& view_opt(v.last_error) == redacted_opt(status_error(s))
            &&& match s.active_command {
                Some(c) => v.active_command matches Some(cv) && shows_command(c, cv),
                None => v.active_command is None,
            }
        },
        None => {
            &&& v.conversation_id@ == conversation_id
            &&& v.status@ == "idle"@
            &&& v.queued_count == 0
            &&& v.active_command is None
            &&& v.last_error is None
        },
    }
}

/// The runtime status of `agent` in the conversation.
pub fn runtime_status_view(conversation_id: &str, agent: AgentRef, status: Option<AgentRuntimeStatus>) -> (v: ConversationRuntimeStatusView)
    ensures
        shows_status(conversation_id@, agent, status, v),
{
    match status {
        Some(status) => {
            let last_error = match &status.last_error {
                Some(e) => Some(redact_sensitive_text(e.as_str())),
                None => match &status.active_command {
                    Some(c) => redact_opt(&c.last_error),
                    None => None,
                },
            };
            let active_command = match status.active_command {
                Some(c) => Some(command_view(c)),
                None => None,
            };
            ConversationRuntimeStatusView {
                conversation_id: status.conversation_id,
                agent_principal_id: agent.id,
                agent_name: agent.name,
                status: status.status,
                queued_count: status.queued_count,
                active_command,
                last_error,
            }
        },
        None => ConversationRuntimeStatusView {
            conversation_id: owned(conversation_id),
            agent_principal_id: agent.id,
            agent_name: agent.name,
            status: owned("idle"),
            queued_count: 0,
            active_command: None,
            last_error: None,
        },
    }
}

} // verus!
