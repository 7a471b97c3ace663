//! Verified request-validation, parsing and redaction logic of the Choruz API gateway.
use vstd::prelude::*;

pub mod text;
pub mod ssh_config;
pub mod redaction;
pub mod ssh_session;
pub mod ssh_connect;
pub mod ssh_aliases;
pub mod attachments;
pub mod filesystem;
pub mod cron;
pub mod remote_control;
pub mod telemetry;
pub mod config;
pub mod json_text;
pub mod harness;
pub mod host_onboarding;
pub mod online;
pub mod runtime_hosts;
pub mod runtime_bindings;
pub mod workspace_sessions;
pub mod experience;
pub mod runtime_status;
pub mod activity;
pub mod ordering;
pub mod host_link;
pub mod sync_socket;
pub mod decisions;
pub mod principals;
pub mod browser;
pub mod evaluation;
pub mod terminals;
pub mod behavior;
pub mod identifiers;
pub mod online_groups;
pub mod sessions;
pub mod access;
pub mod host_operations;
pub mod learning_review;
pub mod json_map;
pub mod curation;

verus! {

/// The gateway's fixed limits and periods: attachments of at most 25 MiB,
/// file reads of at most 1 MiB with binary content detected in the first
/// 8 KiB, task, program input and evaluation output texts of at most 16000
/// bytes, 100 conversations per batch, 64 equivalence links per case,
/// device names of at most 80 characters, session keys of 43 characters,
/// sync pages of 200 events, activity pages of 100 by default and cursors
/// of at most 1 KiB, login errors of at most 500 and login fields of at
/// most 8000 characters, behaviour evidence of at most 160 KiB, three
/// attempts to persist a host operation, a curation sweep every day, and
/// the SSH connect's 45 s handshake, 20 s port-forward wait probed every
/// 100 ms, and 2 s for a late runner to exit.
pub proof fn law_gateway_limits()
    ensures
        attachments::MAX_ATTACHMENT_BYTES == 25 * 1024 * 1024,
        filesystem::MAX_READ_SIZE == 1024 * 1024,
        filesystem::BINARY_SNIFF_BYTES == 8 * 1024,
        browser::MAX_TASK_BYTES == 16000,
        decisions::MAX_PROGRAM_INPUT_BYTES == 16000,
        evaluation::MAX_EVALUATION_OUTPUT_BYTES == 16000,
        principals::MAX_BATCH_CONVERSATIONS == 100,
        learning_review::MAX_RELATED_REFS == 64,
        remote_control::MAX_DEVICE_NAME_LEN == 80,
        remote_control::SESSION_KEY_LEN == 43,
        sync_socket::PAGE_SIZE == 200,
        activity::DEFAULT_PAGE_LIMIT == 100,
        activity::MAX_CURSOR_BYTES == 1024,
        harness::MAX_LOGIN_ERROR_LEN == 500,
        harness::MAX_LOGIN_FIELD_LEN == 8000,
        behavior::MAX_BEHAVIOR_EVIDENCE_BYTES == 160 * 1024,
        host_operations::PERSIST_ATTEMPTS == 3,
        curation::CURATION_PERIOD_SECS == 24 * 60 * 60,
        ssh_connect::HANDSHAKE_TIMEOUT_SECS == 45,
        ssh_connect::TUNNEL_READY_TIMEOUT_MS == 20000,
        ssh_connect::TUNNEL_POLL_MS == 100,
        ssh_connect::RUNNER_EXIT_GRACE_MS == 2000,
{
}

} // verus!
