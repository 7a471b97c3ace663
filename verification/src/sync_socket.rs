//! The decisions of a dashboard sync socket: how far changes have been
//! sent, which pages are sent, and which acknowledgements are accepted.
use vstd::prelude::*;

verus! {

/// Changes are read in pages of this many.
pub const PAGE_SIZE: u32 = 200;

/// One socket's progress: the cursor of the last change sent.
#[derive(Debug)]
pub struct SyncSession {
    pub last_sent: u64,
}

/// What to do with a page of changes just read.
#[derive(Debug, PartialEq, Eq, Structural)]
pub enum DrainStep {
    /// Nothing new: stop draining.
    Idle,
    /// Send the page, then read the next one.
    SendAndContinue,
    /// Send the page; it was the last.
    SendAndStop,
}

/// What to do with a frame the client sent.
#[derive(Debug, PartialEq, Eq, Structural)]
pub enum ClientStep {
    /// Tell the client the frame was not understood, and go on.
    RejectFrame,
    /// Tell the client it cannot acknowledge what was not sent, and close.
    RejectAckAndClose,
    /// Record the acknowledgement of this cursor.
    Acknowledge(u64),
}

/// What to tell the client once the store has answered an acknowledgement.
#[derive(Debug, PartialEq, Eq, Structural)]
pub enum AckStep {
    /// Confirm the cursor the store recorded.
    Acked(u64),
    /// Report the failure and close.
    FailAndClose,
}

/// The error text sent for each refusal.
pub fn reject_frame_detail() -> (r: &'static str)
    ensures
        r@ == "invalid sync frame"@,
{
    "invalid sync frame"
}

pub fn reject_ack_detail() -> (r: &'static str)
    ensures
        r@ == "cannot acknowledge an unsent cursor"@,
{
    "cannot acknowledge an unsent cursor"
}

pub fn ack_failed_detail() -> (r: &'static str)
    ensures
        r@ == "sync acknowledgement failed"@,
{
    "sync acknowledgement failed"
}

/// The step for a client frame on a socket whose last sent cursor is `last_sent`.
pub open spec fn client_step(last_sent: u64, ack: Option<u64>) -> ClientStep {
    match ack {
        None => ClientStep::RejectFrame,
        Some(c) => if c > last_sent {
            ClientStep::RejectAckAndClose
        } else {
            ClientStep::Acknowledge(c)
        },
    }
}

impl SyncSession {
    /// A socket starts from the cursor the device last acknowledged.
    pub fn new(acknowledged: u64) -> (s: Self)
        ensures
            s.last_sent == acknowledged,
    {
        SyncSession { last_sent: acknowledged }
    }

    /// A page was read: an empty page ends the drain; otherwise it is sent,
    /// its cursor becomes the last sent, and reading goes on while the store
    /// says there is more.
    pub fn on_page(&mut self, is_empty: bool, next_cursor: u64, has_more: bool) -> (step: DrainStep)
        ensures
            is_empty ==> step == DrainStep::Idle && final(self).last_sent == old(self).last_sent,
            !is_empty ==> final(self).last_sent == next_cursor && step == (if has_more {
                DrainStep::SendAndContinue
            } else {
                DrainStep::SendAndStop
            }),
    {
        if is_empty {
            return DrainStep::Idle;
        }
        self.last_sent = next_cursor;
        if has_more {
            DrainStep::SendAndContinue
        } else {
            DrainStep::SendAndStop
        }
    }

    /// A client frame arrived: `ack` is the cursor of a well-formed
    /// acknowledgement, `None` for anything else.
    pub fn on_client_frame(&self, ack: Option<u64>) -> (step: ClientStep)
        ensures
            step == client_step(self.last_sent, ack),
    {
        match ack {
            None => ClientStep::RejectFrame,
            Some(c) => if c > self.last_sent {
                ClientStep::RejectAckAndClose
            } else {
                ClientStep::Acknowledge(c)
            },
        }
    }
}

/// The store's answer to an acknowledgement: the cursor it recorded, or
/// `None` when it failed.
pub fn on_ack_result(recorded: Option<u64>) -> (step: AckStep)
    ensures
        match recorded {
            Some(c) => step == AckStep::Acked(c),
            None => step == AckStep::FailAndClose,
        },
{
    match recorded {
        Some(c) => AckStep::Acked(c),
        None => AckStep::FailAndClose,
    }
}

/// A client can only acknowledge changes it was sent: every accepted
/// acknowledgement is at most the last cursor sent on its socket.
pub proof fn law_acknowledgements_never_pass_what_was_sent(last_sent: u64, ack: Option<u64>)
    ensures
        client_step(last_sent, ack) matches ClientStep::Acknowledge(c) ==> c <= last_sent,
{
}

} // verus!
