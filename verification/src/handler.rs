//! The policy that a server brings to its sessions.

use vstd::prelude::*;
use crate::command::Mailbox;
use crate::state::SmtpState;

verus! {

/// Handler for SMTP events.
///
/// The two answers are the handler's own: a session promises nothing about
/// them and works with either.
pub trait Handler {
    /// Validate the recipient to be local.
    /// Return false to reject the recipient.
    fn recipient_local(&self, recipient: &Mailbox) -> bool;

    /// Save an email to the system.
    /// Return true to accept the email.
    fn save(&self, state: &SmtpState) -> bool;
}

} // verus!
