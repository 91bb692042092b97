//! The state of a mail transaction and the rules that change it.

use vstd::prelude::*;
use crate::command::{Domain, Mailbox, MailboxView};
use crate::command::{domain_view, mailbox_view};
use crate::response::ResponseView;

verus! {

/// The number of recipients one transaction may hold.
pub const MAX_RECIPIENTS: usize = 100;

/// Struct holding the current state of an transaction.
#[derive(Debug)]
pub struct SmtpState {
    pub receiving_data: bool,
    pub domain: Option<Domain>,
    pub from: Option<Mailbox>,
    pub recipients: Vec<Mailbox>,
    pub data: String,
}

/// The mathematical content of a [`SmtpState`].
pub struct StateView {
    pub receiving_data: bool,
    pub domain: Option<Seq<char>>,
    pub from: Option<MailboxView>,
    pub recipients: Seq<MailboxView>,
    pub data: Seq<char>,
}

impl View for SmtpState {
    type V = StateView;

    open spec fn view(&self) -> StateView {
        StateView {
            receiving_data: self.receiving_data,
            domain: domain_view(self.domain),
            from: mailbox_view(self.from),
            recipients: self.recipients@.map_values(|m: Mailbox| m@),
            data: self.data@,
        }
    }
}

impl StateView {
    /// The state of a connection on which nothing was said yet.
    pub open spec fn fresh() -> StateView {
        StateView {
            receiving_data: false,
            domain: None,
            from: None,
            recipients: Seq::empty(),
            data: Seq::empty(),
        }
    }

    /// No transaction holds more than [`MAX_RECIPIENTS`] recipients.
    pub open spec fn bounded(self) -> bool {
        self.recipients.len() <= MAX_RECIPIENTS
    }

    /// A sender is only known once the client has introduced itself.
    pub open spec fn introduced(self) -> bool {
        self.from is Some ==> self.domain is Some
    }

    /// What holds of every transaction: the list of recipients is bounded,
    /// and a sender is only known for a client that has introduced itself.
    pub open spec fn well_formed(self) -> bool {
        self.bounded() && self.introduced()
    }

    /// A body is only received for a complete envelope: a known client, a
    /// sender and at least one recipient.
    pub open spec fn envelope_complete(self) -> bool {
        self.receiving_data ==> self.domain is Some && self.from is Some && self.recipients.len()
            > 0
    }

    /// HELO and EHLO: the client's domain is noted, whatever was known before.
    pub open spec fn after_hello(self, domain: Seq<char>) -> StateView {
        StateView { domain: Some(domain), ..self }
    }

    /// MAIL FROM is in sequence once the client has introduced itself.
    pub open spec fn mail_reply(self) -> ResponseView {
        if self.domain is Some {
            ResponseView::Okay
        } else {
            ResponseView::OutOfSequence
        }
    }

    /// MAIL FROM: the sender is noted if the command was in sequence.
    pub open spec fn after_mail(self, sender: MailboxView) -> StateView {
        if self.domain is Some {
            StateView { from: Some(sender), ..self }
        } else {
            self
        }
    }

    /// What refuses RCPT TO before the handler is asked: a client that has not
    /// introduced itself, then a full list of recipients.
    pub open spec fn rcpt_refusal(self) -> Option<ResponseView> {
        if self.domain is None {
            Some(ResponseView::OutOfSequence)
        } else if self.recipients.len() >= MAX_RECIPIENTS {
            Some(ResponseView::TooManyRecipients)
        } else {
            None
        }
    }

    /// RCPT TO: the reply, given the handler's answer on whether the recipient
    /// is local.
    pub open spec fn rcpt_reply(self, local: bool) -> ResponseView {
        match self.rcpt_refusal() {
            Some(refusal) => refusal,
            None => if local {
                ResponseView::Okay
            } else {
                ResponseView::RecipientNotLocal
            },
        }
    }

    /// RCPT TO: the recipient joins the list if nothing refused it.
    pub open spec fn after_rcpt(self, recipient: MailboxView, local: bool) -> StateView {
        if self.rcpt_refusal() is None && local {
            StateView { recipients: self.recipients.push(recipient), ..self }
        } else {
            self
        }
    }

    /// DATA is in sequence for a complete envelope.
    pub open spec fn data_reply(self) -> ResponseView {
        if self.domain is Some && self.from is Some && self.recipients.len() > 0 {
            ResponseView::StartData
        } else {
            ResponseView::OutOfSequence
        }
    }

    /// DATA: the body follows if the command was in sequence.
    pub open spec fn after_data(self) -> StateView {
        if self.domain is Some && self.from is Some && self.recipients.len() > 0 {
            StateView { receiving_data: true, ..self }
        } else {
            self
        }
    }

    /// RSET: sender, recipients and body are dropped; the client's domain
    /// stays.
    pub open spec fn after_reset(self) -> StateView {
        StateView { from: None, recipients: Seq::empty(), data: Seq::empty(), ..self }
    }

    /// A piece of the body has arrived.
    pub open spec fn with_body(self, body: Seq<char>) -> StateView {
        StateView { data: self.data + body, ..self }
    }

    /// The handler has accepted the message: the transaction is over.  Sender,
    /// recipients and body are dropped and commands follow; the client's
    /// domain stays.
    pub open spec fn after_handoff(self) -> StateView {
        StateView {
            receiving_data: false,
            from: None,
            recipients: Seq::empty(),
            data: Seq::empty(),
            ..self
        }
    }

    /// The handler has refused the message: the body is dropped and commands
    /// follow.  Sender and recipients stay as they are, so the client may
    /// send another body to them, or reset.
    pub open spec fn after_refusal(self) -> StateView {
        StateView { receiving_data: false, data: Seq::empty(), ..self }
    }
}

impl Default for SmtpState {
    fn default() -> (r: Self)
        ensures
            r@ == StateView::fresh(),
    {
        let r = SmtpState {
            receiving_data: false,
            domain: None,
            from: None,
            recipients: Vec::new(),
            data: String::new(),
        };
        assert(r@.recipients =~= Seq::empty());
        r
    }
}

/// A transaction stays well-formed, whatever command it takes: in
/// particular, the number of recipients never passes [`MAX_RECIPIENTS`].
pub proof fn lemma_state_stays_well_formed(
    state: StateView,
    domain: Seq<char>,
    mailbox: MailboxView,
    local: bool,
    body: Seq<char>,
)
    requires
        state.well_formed(),
    ensures
        StateView::fresh().well_formed(),
        state.after_hello(domain).well_formed(),
        state.after_mail(mailbox).well_formed(),
        state.after_rcpt(mailbox, local).well_formed(),
        state.after_data().well_formed(),
        state.after_reset().well_formed(),
        state.with_body(body).well_formed(),
        state.after_handoff().well_formed(),
        state.after_refusal().well_formed(),
{
}

/// A state that receives a body has a complete envelope, and keeps it under
/// every command but RSET: RSET drops sender and recipients, so the envelope
/// stays complete under it only outside DATA mode.
pub proof fn lemma_envelope_stays_complete(
    state: StateView,
    domain: Seq<char>,
    mailbox: MailboxView,
    local: bool,
    body: Seq<char>,
)
    requires
        state.envelope_complete(),
    ensures
        StateView::fresh().envelope_complete(),
        state.after_hello(domain).envelope_complete(),
        state.after_mail(mailbox).envelope_complete(),
        state.after_rcpt(mailbox, local).envelope_complete(),
        state.after_data().envelope_complete(),
        !state.receiving_data ==> state.after_reset().envelope_complete(),
        state.with_body(body).envelope_complete(),
        state.after_handoff().envelope_complete(),
        state.after_refusal().envelope_complete(),
{
}

/// After an accepted message the sender is unset and the recipients and the
/// body are empty, and the session is back in command mode; the client's
/// domain remains.  After a refused one only the body is dropped.
pub proof fn lemma_handoff_clears_transaction(state: StateView)
    ensures
        state.after_handoff().from is None,
        state.after_handoff().recipients.len() == 0,
        state.after_handoff().data.len() == 0,
        !state.after_handoff().receiving_data,
        state.after_handoff().domain == state.domain,
        state.after_handoff() == (StateView { receiving_data: false, ..state.after_reset() }),
        state.after_refusal().from == state.from,
        state.after_refusal().recipients == state.recipients,
        state.after_refusal().data.len() == 0,
        !state.after_refusal().receiving_data,
        state.after_refusal().domain == state.domain,
{
}

/// After RSET the sender is unset and the recipients and the body are empty;
/// the client's domain and the mode are as before.
pub proof fn lemma_reset_clears_transaction(state: StateView)
    ensures
        state.after_reset().from is None,
        state.after_reset().recipients.len() == 0,
        state.after_reset().data.len() == 0,
        state.after_reset().domain == state.domain,
        state.after_reset().receiving_data == state.receiving_data,
{
}

} // verus!
