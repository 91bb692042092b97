//! The session: one client connection, from greeting to goodbye.
//!
//! A session does no input or output of its own.  Each of its steps takes what
//! happened (bytes arrived, a reply went out, the handler answered) and
//! returns the [`Action`] that the caller must perform next; the caller then
//! reports the outcome with the matching step.  A step that the session is
//! not waiting for closes it.

pub mod invariants;
pub mod run;

use std::collections::VecDeque;
use vstd::prelude::*;
use vstd::string::*;
use vstd::utf8::{decode_utf8, valid_utf8};
use crate::command::{
    Command, CommandView, Domain, Mailbox, MailboxView, command_view, mailbox_view,
};
use crate::parser::data::{decoded_body, decoded_tail, has_ended};
use crate::parser::lines::{all_lines, unfinished_tail};
use crate::parser::{commands_of, parse, parse_data_lines};
use crate::response::{Response, ResponseView};
use crate::session::invariants::{
    lemma_advance_keeps_envelope, lemma_advance_stays_well_formed,
    lemma_after_message_expects, lemma_process_keeps_envelope,
    lemma_process_stays_well_formed, lemma_received_keeps_envelope,
    lemma_received_stays_well_formed, lemma_sent_keeps_envelope, lemma_sent_stays_well_formed,
    lemma_take_commands_keeps_envelope, lemma_take_commands_stays_well_formed,
    resets_in_data_mode,
};
use crate::state::{MAX_RECIPIENTS, SmtpState, StateView};
use crate::text::text_of;

verus! {

/// What a session is waiting for.
#[derive(Clone, Copy, Debug, PartialEq, Eq, Structural)]
pub enum Phase {
    /// Nothing was sent yet.
    Fresh,
    /// The greeting is on its way.
    Greeting,
    /// The next bytes from the client.
    Reading,
    /// The handler's word on a recipient.
    Checking,
    /// The handler's word on a finished message.
    Saving,
    /// The reply to a message that the handler accepted is on its way.
    Confirming,
    /// The reply to a message that the handler refused is on its way.
    Refusing,
    /// The reply to a command is on its way.
    Replying,
    /// The goodbye is on its way.
    Leaving,
    /// The session is over.
    Closed,
}

/// What the caller of a session must do next.
#[derive(Debug, PartialEq)]
pub enum Action {
    /// Write the reply to the client, then call [`SmtpSession::sent`].
    Send(Response),
    /// Ask the handler whether the recipient is local, then call
    /// [`SmtpSession::recipient_checked`].
    CheckRecipient(Mailbox),
    /// Hand the state to the handler for saving, then call
    /// [`SmtpSession::saved`].
    Save,
    /// Read from the client, then call [`SmtpSession::received_bytes`] with
    /// what the read returned, or [`SmtpSession::received`] with its text.
    Read,
    /// Drop the connection.
    Close,
}

/// The mathematical content of an [`Action`].
pub enum ActionView {
    Send(ResponseView),
    CheckRecipient(MailboxView),
    Save,
    Read,
    Close,
}

impl View for Action {
    type V = ActionView;

    open spec fn view(&self) -> ActionView {
        match self {
            Action::Send(response) => ActionView::Send(response@),
            Action::CheckRecipient(mailbox) => ActionView::CheckRecipient(mailbox@),
            Action::Save => ActionView::Save,
            Action::Read => ActionView::Read,
            Action::Close => ActionView::Close,
        }
    }
}

/// The mathematical content of a [`SmtpSession`].
pub struct SessionView {
    /// The name the server greets with.
    pub server_name: Seq<char>,
    /// The unfinished line that the last read left.
    pub remaining: Seq<char>,
    /// The transaction.
    pub state: StateView,
    /// The lines that were read and not yet answered, each with the command it
    /// spells, if it spells one.
    pub pending: Seq<Option<CommandView>>,
    /// What followed the end of a message body, kept until the message is
    /// handed over.
    pub held: Seq<char>,
    /// The recipient that the handler is asked about.
    pub candidate: Option<MailboxView>,
    pub phase: Phase,
}

impl SessionView {
    /// The session of a new connection.
    pub open spec fn fresh(server_name: Seq<char>) -> SessionView {
        SessionView {
            server_name,
            remaining: Seq::empty(),
            state: StateView::fresh(),
            pending: Seq::empty(),
            held: Seq::empty(),
            candidate: None,
            phase: Phase::Fresh,
        }
    }

    /// What holds of every session: the transaction is well-formed, a
    /// recipient is at hand while the handler is asked about it, and no line
    /// is pending while the session waits for input or hands a message over.
    pub open spec fn well_formed(self) -> bool {
        &&& self.state.well_formed()
        &&& self.phase == Phase::Checking ==> self.candidate is Some
        &&& self.pending.len() > 0 ==> self.phase == Phase::Checking || self.phase
            == Phase::Replying || self.phase == Phase::Leaving || self.phase == Phase::Closed
    }

    /// The session waits for the outcome of `action`.
    pub open spec fn expects(self, action: ActionView) -> bool {
        match action {
            ActionView::Send(_) => self.phase == Phase::Greeting || self.phase == Phase::Confirming
                || self.phase == Phase::Refusing
                || self.phase == Phase::Replying || self.phase == Phase::Leaving,
            ActionView::CheckRecipient(recipient) => self.phase == Phase::Checking
                && self.candidate == Some(recipient),
            ActionView::Save => self.phase == Phase::Saving,
            ActionView::Read => self.phase == Phase::Reading,
            ActionView::Close => self.phase == Phase::Closed,
        }
    }

    /// The session is over.
    pub open spec fn close(self) -> (SessionView, ActionView) {
        (SessionView { phase: Phase::Closed, ..self }, ActionView::Close)
    }

    /// The session sends `response` as the reply to a command.
    pub open spec fn reply(self, response: ResponseView) -> (SessionView, ActionView) {
        (SessionView { phase: Phase::Replying, ..self }, ActionView::Send(response))
    }

    /// The session takes a command.
    ///
    /// - HELO and EHLO note the client's domain.
    /// - MAIL FROM notes the sender, once the client is known.
    /// - RCPT TO is refused for an unknown client and for a full list;
    ///   otherwise the handler is asked about the recipient.
    /// - DATA starts the body, for a complete envelope.
    /// - RSET drops the transaction.
    /// - QUIT says goodbye.
    pub open spec fn process(self, command: CommandView) -> (SessionView, ActionView) {
        match command {
            CommandView::HELO(domain) => SessionView {
                state: self.state.after_hello(domain),
                ..self
            }.reply(ResponseView::Helo(self.server_name)),
            CommandView::EHLO(domain) => SessionView {
                state: self.state.after_hello(domain),
                ..self
            }.reply(ResponseView::Ehlo(self.server_name)),
            CommandView::FROM(sender) => SessionView {
                state: self.state.after_mail(sender),
                ..self
            }.reply(self.state.mail_reply()),
            CommandView::RCPT(recipient) => match self.state.rcpt_refusal() {
                Some(refusal) => self.reply(refusal),
                None => (
                    SessionView { candidate: Some(recipient), phase: Phase::Checking, ..self },
                    ActionView::CheckRecipient(recipient),
                ),
            },
            CommandView::DATA => SessionView { state: self.state.after_data(), ..self }.reply(
                self.state.data_reply(),
            ),
            CommandView::RSET => SessionView { state: self.state.after_reset(), ..self }.reply(
                ResponseView::Okay,
            ),
            CommandView::QUIT => (
                SessionView { phase: Phase::Leaving, ..self },
                ActionView::Send(ResponseView::Goodbye),
            ),
        }
    }

    /// The session turns to the next pending line: a line that spells no
    /// command is answered with a syntax error, a command is processed, and
    /// when no line is left the session reads on.
    pub open spec fn advance(self) -> (SessionView, ActionView) {
        if self.pending.len() == 0 {
            (SessionView { phase: Phase::Reading, ..self }, ActionView::Read)
        } else {
            let rest = SessionView { pending: self.pending.skip(1), ..self };
            match self.pending[0] {
                Some(command) => rest.process(command),
                None => rest.reply(ResponseView::SyntaxError),
            }
        }
    }

    /// The session takes `text` as command input: its complete lines become
    /// the pending lines, its unfinished tail waits for the next read.
    pub open spec fn take_commands(self, text: Seq<char>) -> (SessionView, ActionView) {
        SessionView {
            remaining: unfinished_tail(text),
            pending: commands_of(text),
            ..self
        }.advance()
    }

    /// The session sends the greeting.
    pub open spec fn start(self) -> (SessionView, ActionView) {
        if self.phase == Phase::Fresh {
            (
                SessionView { phase: Phase::Greeting, ..self },
                ActionView::Send(ResponseView::Greeting(self.server_name)),
            )
        } else {
            self.close()
        }
    }

    /// Bytes have arrived.  They follow what the last read left unfinished.
    /// In DATA mode they are decoded as body; the end of the body asks for
    /// the handler.  Otherwise, and for what the decoder leaves, they are
    /// commands.
    pub open spec fn received(self, input: Seq<char>) -> (SessionView, ActionView) {
        if self.phase != Phase::Reading {
            self.close()
        } else if self.state.receiving_data {
            let lines = all_lines(self.remaining + input);
            let fed = SessionView { state: self.state.with_body(decoded_body(lines)), ..self };
            if has_ended(lines) {
                (
                    SessionView { held: decoded_tail(lines), phase: Phase::Saving, ..fed },
                    ActionView::Save,
                )
            } else {
                fed.take_commands(decoded_tail(lines))
            }
        } else {
            self.take_commands(self.remaining + input)
        }
    }

    /// A read has returned `bytes`.  No bytes mean that the client is gone,
    /// and bytes that are not UTF-8 are not answered: both end the session.
    /// Other bytes are taken as the text they encode.
    pub open spec fn received_bytes(self, bytes: Seq<u8>) -> (SessionView, ActionView) {
        if bytes.len() == 0 || !valid_utf8(bytes) {
            self.close()
        } else {
            self.received(decode_utf8(bytes))
        }
    }

    /// The handler has answered on the finished message: the client is told,
    /// and the session remembers the answer until the reply is out.
    pub open spec fn saved(self, accepted: bool) -> (SessionView, ActionView) {
        if self.phase != Phase::Saving {
            self.close()
        } else if accepted {
            (
                SessionView { phase: Phase::Confirming, ..self },
                ActionView::Send(ResponseView::Okay),
            )
        } else {
            (
                SessionView { phase: Phase::Refusing, ..self },
                ActionView::Send(ResponseView::TransactionFailed),
            )
        }
    }

    /// The session leaves DATA mode once the reply to a message is out.  An
    /// accepted message ends the transaction: sender, recipients and body
    /// are dropped.  A refused message drops the body only; its sender and
    /// recipients stay.  Either way the client's domain stays, and what
    /// followed the body is taken as commands.
    pub open spec fn after_message(self, accepted: bool) -> (SessionView, ActionView) {
        SessionView {
            state: if accepted {
                self.state.after_handoff()
            } else {
                self.state.after_refusal()
            },
            held: Seq::empty(),
            ..self
        }.take_commands(self.held)
    }

    /// The handler has answered on the recipient: it joins the list if it is
    /// local, and the client is told.
    pub open spec fn recipient_checked(self, local: bool) -> (SessionView, ActionView) {
        if self.phase == Phase::Checking && self.candidate is Some {
            SessionView {
                state: self.state.after_rcpt(self.candidate->0, local),
                candidate: None,
                ..self
            }.reply(self.state.rcpt_reply(local))
        } else {
            self.close()
        }
    }

    /// A reply has gone out, or has failed to.  A failure ends the session,
    /// and so does the goodbye.  After the greeting the session reads; after
    /// the reply to a message it leaves DATA mode, drops the transaction if
    /// the message was accepted, and takes what followed the body as
    /// commands; after the reply to a command it turns to the next line.
    pub open spec fn sent(self, ok: bool) -> (SessionView, ActionView) {
        if !ok {
            self.close()
        } else {
            match self.phase {
                Phase::Greeting => (SessionView { phase: Phase::Reading, ..self }, ActionView::Read),
                Phase::Confirming => self.after_message(true),
                Phase::Refusing => self.after_message(false),
                Phase::Replying => self.advance(),
                _ => self.close(),
            }
        }
    }
}

/// Struct holding data about the session.
pub struct SmtpSession {
    server_name: String,
    remaining: String,
    state: SmtpState,
    pending: VecDeque<Option<Command>>,
    held: String,
    candidate: Option<Mailbox>,
    phase: Phase,
}

impl View for SmtpSession {
    type V = SessionView;

    closed spec fn view(&self) -> SessionView {
        SessionView {
            server_name: self.server_name@,
            remaining: self.remaining@,
            state: self.state@,
            pending: self.pending@.map_values(|c: Option<Command>| command_view(c)),
            held: self.held@,
            candidate: mailbox_view(self.candidate),
            phase: self.phase,
        }
    }
}

impl SmtpSession {
    /// Create a new session.
    pub fn new(server_name: String) -> (r: Self)
        ensures
            r@ == SessionView::fresh(server_name@),
            r@.well_formed(),
            r@.state.envelope_complete(),
    {
        let r = SmtpSession {
            server_name,
            remaining: String::new(),
            state: SmtpState::default(),
            pending: VecDeque::new(),
            held: String::new(),
            candidate: None,
            phase: Phase::Fresh,
        };
        assert(r@.pending =~= Seq::empty());
        r
    }

    /// The transaction as it stands, for the handler to read.
    pub fn state(&self) -> (r: &SmtpState)
        ensures
            r@ == self@.state,
    {
        &self.state
    }

    /// The name the server greets with.
    pub fn server_name(&self) -> (r: &str)
        ensures
            r@ == self@.server_name,
    {
        self.server_name.as_str()
    }

    /// The unfinished line that the last read left.
    pub fn remaining(&self) -> (r: &str)
        ensures
            r@ == self@.remaining,
    {
        self.remaining.as_str()
    }

    /// What the session is waiting for.
    pub fn phase(&self) -> (r: Phase)
        ensures
            r == self@.phase,
    {
        self.phase
    }

    fn close(&mut self) -> (action: Action)
        ensures
            (final(self)@, action@) == old(self)@.close(),
            final(self)@.expects(action@),
    {
        self.phase = Phase::Closed;
        Action::Close
    }

    fn reply(&mut self, response: Response) -> (action: Action)
        ensures
            (final(self)@, action@) == old(self)@.reply(response@),
            final(self)@.expects(action@),
    {
        self.phase = Phase::Replying;
        Action::Send(response)
    }

    /// HELO: note the client's domain.
    pub fn process_helo(&mut self, domain: Domain) -> (r: Response)
        ensures
            r@ == ResponseView::Helo(old(self)@.server_name),
            final(self)@ == (SessionView {
                state: old(self)@.state.after_hello(domain@),
                ..old(self)@
            }),
            old(self)@.well_formed() ==> final(self)@.well_formed(),
            old(self)@.state.envelope_complete() ==> final(self)@.state.envelope_complete(),
    {
        self.state.domain = Some(domain);
        Response::Helo(self.server_name.clone())
    }

    /// EHLO: note the client's domain.
    pub fn process_ehlo(&mut self, domain: Domain) -> (r: Response)
        ensures
            r@ == ResponseView::Ehlo(old(self)@.server_name),
            final(self)@ == (SessionView {
                state: old(self)@.state.after_hello(domain@),
                ..old(self)@
            }),
            old(self)@.well_formed() ==> final(self)@.well_formed(),
            old(self)@.state.envelope_complete() ==> final(self)@.state.envelope_complete(),
    {
        self.state.domain = Some(domain);
        Response::Ehlo(self.server_name.clone())
    }

    /// MAIL FROM: note the sender, if the client has introduced itself.
    pub fn process_from(&mut self, sender: Mailbox) -> (r: Response)
        ensures
            r@ == old(self)@.state.mail_reply(),
            final(self)@ == (SessionView {
                state: old(self)@.state.after_mail(sender@),
                ..old(self)@
            }),
            old(self)@.well_formed() ==> final(self)@.well_formed(),
            old(self)@.state.envelope_complete() ==> final(self)@.state.envelope_complete(),
    {
        if self.state.domain.is_none() {
            return Response::OutOfSequence;
        }
        self.state.from = Some(sender);
        Response::Okay
    }

    /// What refuses a recipient before the handler is asked about it.
    pub fn refuse_rcpt(&self) -> (r: Option<Response>)
        ensures
            crate::response::option_response_view(r) == self@.state.rcpt_refusal(),
    {
        if self.state.domain.is_none() {
            return Some(Response::OutOfSequence);
        }
        if self.state.recipients.len() >= MAX_RECIPIENTS {
            return Some(Response::TooManyRecipients);
        }
        None
    }

    /// Take a recipient, given the handler's answer on whether it is local.
    pub fn process_rcpt(&mut self, recipient: Mailbox, local: bool) -> (r: Response)
        ensures
            r@ == old(self)@.state.rcpt_reply(local),
            final(self)@ == (SessionView {
                state: old(self)@.state.after_rcpt(recipient@, local),
                ..old(self)@
            }),
            old(self)@.well_formed() ==> final(self)@.well_formed(),
            old(self)@.state.envelope_complete() ==> final(self)@.state.envelope_complete(),
    {
        if self.state.domain.is_none() {
            return Response::OutOfSequence;
        }
        if self.state.recipients.len() >= MAX_RECIPIENTS {
            return Response::TooManyRecipients;
        }
        if !local {
            return Response::RecipientNotLocal;
        }
        self.state.recipients.push(recipient);
        assert(self.state@.recipients =~= old(self).state@.recipients.push(recipient@));
        Response::Okay
    }

    /// DATA: start to receive the body, if the envelope is complete.
    pub fn process_data(&mut self) -> (r: Response)
        ensures
            r@ == old(self)@.state.data_reply(),
            final(self)@ == (SessionView { state: old(self)@.state.after_data(), ..old(self)@ }),
            old(self)@.well_formed() ==> final(self)@.well_formed(),
            old(self)@.state.envelope_complete() ==> final(self)@.state.envelope_complete(),
    {
        if self.state.domain.is_none() {
            return Response::OutOfSequence;
        }
        if self.state.from.is_none() {
            return Response::OutOfSequence;
        }
        if self.state.recipients.len() == 0 {
            return Response::OutOfSequence;
        }
        self.state.receiving_data = true;
        Response::StartData
    }

    /// RSET: drop sender, recipients and body; the client's domain stays.
    pub fn process_reset(&mut self) -> (r: Response)
        ensures
            r@ == ResponseView::Okay,
            final(self)@ == (SessionView { state: old(self)@.state.after_reset(), ..old(self)@ }),
            old(self)@.well_formed() ==> final(self)@.well_formed(),
            old(self)@.state.envelope_complete() && !old(self)@.state.receiving_data
                ==> final(self)@.state.envelope_complete(),
            final(self)@.state.from is None,
            final(self)@.state.recipients.len() == 0,
            final(self)@.state.data.len() == 0,
            final(self)@.state.domain == old(self)@.state.domain,
    {
        self.state.from = None;
        self.state.recipients = Vec::new();
        self.state.data = String::new();
        assert(self.state@.recipients =~= Seq::empty());
        Response::Okay
    }

    /// Take a command and say what to do about it.
    pub fn process_command(&mut self, command: Command) -> (action: Action)
        ensures
            (final(self)@, action@) == old(self)@.process(command@),
            old(self)@.state.well_formed() ==> final(self)@.well_formed(),
            old(self)@.state.envelope_complete() && !(command@ == CommandView::RSET
                && old(self)@.state.receiving_data) ==> final(self)@.state.envelope_complete(),
            final(self)@.expects(action@),
    {
        proof {
            if self@.state.well_formed() {
                lemma_process_stays_well_formed(self@, command@);
            }
            if self@.state.envelope_complete() && !(command@ == CommandView::RSET
                && self@.state.receiving_data) {
                lemma_process_keeps_envelope(self@, command@);
            }
        }
        match command {
            Command::HELO(domain) => {
                let response = self.process_helo(domain);
                self.reply(response)
            },
            Command::EHLO(domain) => {
                let response = self.process_ehlo(domain);
                self.reply(response)
            },
            Command::FROM(sender) => {
                let response = self.process_from(sender);
                self.reply(response)
            },
            Command::RCPT(recipient) => {
                match self.refuse_rcpt() {
                    Some(refusal) => self.reply(refusal),
                    None => {
                        let action = Action::CheckRecipient(recipient.clone());
                        self.candidate = Some(recipient);
                        self.phase = Phase::Checking;
                        action
                    },
                }
            },
            Command::DATA => {
                let response = self.process_data();
                self.reply(response)
            },
            Command::RSET => {
                let response = self.process_reset();
                self.reply(response)
            },
            Command::QUIT => {
                self.phase = Phase::Leaving;
                Action::Send(Response::Goodbye)
            },
        }
    }

    fn advance(&mut self) -> (action: Action)
        ensures
            (final(self)@, action@) == old(self)@.advance(),
            old(self)@.state.well_formed() ==> final(self)@.well_formed(),
            old(self)@.state.envelope_complete() && !(old(self)@.state.receiving_data
                && old(self)@.pending.len() > 0 && old(self)@.pending[0] == Some(
                CommandView::RSET,
            )) ==> final(self)@.state.envelope_complete(),
            final(self)@.expects(action@),
    {
        proof {
            if self@.state.well_formed() {
                lemma_advance_stays_well_formed(self@);
            }
            if self@.state.envelope_complete() && !(self@.state.receiving_data
                && self@.pending.len() > 0 && self@.pending[0] == Some(CommandView::RSET)) {
                lemma_advance_keeps_envelope(self@);
            }
        }
        match self.pending.pop_front() {
            Some(Some(command)) => {
                assert(self@.pending =~= old(self)@.pending.skip(1));
                self.process_command(command)
            },
            Some(None) => {
                assert(self@.pending =~= old(self)@.pending.skip(1));
                self.reply(Response::SyntaxError)
            },
            None => {
                self.phase = Phase::Reading;
                Action::Read
            },
        }
    }

    fn take_commands(&mut self, text: &str) -> (action: Action)
        ensures
            (final(self)@, action@) == old(self)@.take_commands(text@),
            old(self)@.state.well_formed() ==> final(self)@.well_formed(),
            old(self)@.state.envelope_complete() && !old(self)@.state.receiving_data
                ==> final(self)@.state.envelope_complete(),
            final(self)@.expects(action@),
    {
        proof {
            if self@.state.well_formed() {
                lemma_take_commands_stays_well_formed(self@, text@);
            }
            if self@.state.envelope_complete() && !self@.state.receiving_data {
                lemma_take_commands_keeps_envelope(self@, text@);
            }
        }
        let (mut lines, tail) = parse(text);
        self.remaining = tail.to_owned();
        let ghost all = lines@;
        let mut pending: VecDeque<Option<Command>> = VecDeque::new();
        while lines.len() > 0
            invariant
                lines@ == all.take(lines@.len() as int),
                lines@.len() <= all.len(),
                pending@.len() == all.len() - lines@.len(),
                forall|i: int|
                    0 <= i < pending@.len() ==> command_view(#[trigger] pending@[i])
                        == command_view(all[lines@.len() + i].1),
            decreases lines.len(),
        {
            let ghost before = lines@;
            let ghost queued = pending@;
            let (_, command) = lines.pop().unwrap();
            pending.push_front(command);
            assert(lines@ =~= all.take(lines@.len() as int));
            assert forall|i: int| 0 <= i < pending@.len() implies command_view(
                #[trigger] pending@[i],
            ) == command_view(all[lines@.len() + i].1) by {
                if i > 0 {
                    assert(pending@[i] == queued[i - 1]);
                }
            }
        }
        self.pending = pending;
        assert(self@.pending =~= commands_of(text@));
        self.advance()
    }

    /// Start the session: the greeting is to be sent.
    pub fn start(&mut self) -> (action: Action)
        ensures
            (final(self)@, action@) == old(self)@.start(),
            old(self)@.well_formed() ==> final(self)@.well_formed(),
            old(self)@.state.envelope_complete() ==> final(self)@.state.envelope_complete(),
            final(self)@.expects(action@),
    {
        match self.phase {
            Phase::Fresh => {
                self.phase = Phase::Greeting;
                Action::Send(Response::Greeting(self.server_name.clone()))
            },
            _ => self.close(),
        }
    }

    /// Handle new incoming input.
    pub fn received(&mut self, input: &str) -> (action: Action)
        ensures
            (final(self)@, action@) == old(self)@.received(input@),
            old(self)@.well_formed() ==> final(self)@.well_formed(),
            old(self)@.state.envelope_complete() ==> final(self)@.state.envelope_complete(),
            final(self)@.expects(action@),
    {
        proof {
            if self@.well_formed() {
                lemma_received_stays_well_formed(self@, input@);
            }
            if self@.state.envelope_complete() {
                lemma_received_keeps_envelope(self@, input@);
            }
        }
        match self.phase {
            Phase::Reading => {},
            _ => {
                return self.close();
            },
        }
        let mut full_input = self.remaining.clone();
        full_input.append(input);
        if self.state.receiving_data {
            let (ended, body, tail) = parse_data_lines(full_input.as_str());
            self.state.data.append(body.as_str());
            if ended {
                self.held = tail;
                self.phase = Phase::Saving;
                Action::Save
            } else {
                self.take_commands(tail.as_str())
            }
        } else {
            self.take_commands(full_input.as_str())
        }
    }

    /// Handle what a read from the client returned.
    pub fn received_bytes(&mut self, bytes: &[u8]) -> (action: Action)
        ensures
            (final(self)@, action@) == old(self)@.received_bytes(bytes@),
            old(self)@.well_formed() ==> final(self)@.well_formed(),
            old(self)@.state.envelope_complete() ==> final(self)@.state.envelope_complete(),
            final(self)@.expects(action@),
    {
        if bytes.len() == 0 {
            return self.close();
        }
        match text_of(bytes) {
            Some(text) => {
                proof {
                    vstd::utf8::encode_utf8_decode_utf8(text@);
                }
                self.received(text)
            },
            None => self.close(),
        }
    }

    /// The handler has saved the message, or has refused it.  The client is
    /// told; once the reply is out, an accepted message takes its sender and
    /// recipients with it, and a refused one leaves them for another try.
    pub fn saved(&mut self, accepted: bool) -> (action: Action)
        ensures
            (final(self)@, action@) == old(self)@.saved(accepted),
            old(self)@.well_formed() ==> final(self)@.well_formed(),
            old(self)@.state.envelope_complete() ==> final(self)@.state.envelope_complete(),
            final(self)@.expects(action@),
    {
        match self.phase {
            Phase::Saving => {
                if accepted {
                    self.phase = Phase::Confirming;
                    Action::Send(Response::Okay)
                } else {
                    self.phase = Phase::Refusing;
                    Action::Send(Response::TransactionFailed)
                }
            },
            _ => self.close(),
        }
    }

    /// The handler has said whether the recipient is local.
    pub fn recipient_checked(&mut self, local: bool) -> (action: Action)
        ensures
            (final(self)@, action@) == old(self)@.recipient_checked(local),
            old(self)@.well_formed() ==> final(self)@.well_formed(),
            old(self)@.state.envelope_complete() ==> final(self)@.state.envelope_complete(),
            final(self)@.expects(action@),
    {
        match self.phase {
            Phase::Checking => {},
            _ => {
                return self.close();
            },
        }
        match self.candidate.take() {
            Some(recipient) => {
                let response = self.process_rcpt(recipient, local);
                self.reply(response)
            },
            None => self.close(),
        }
    }

    /// A reply was written to the client, or could not be.  After the reply
    /// to a message the session is in command mode again, and after the reply
    /// to an accepted message the transaction is cleared.
    pub fn sent(&mut self, ok: bool) -> (action: Action)
        ensures
            (final(self)@, action@) == old(self)@.sent(ok),
            old(self)@.well_formed() ==> final(self)@.well_formed(),
            old(self)@.state.envelope_complete() && !resets_in_data_mode(old(self)@)
                ==> final(self)@.state.envelope_complete(),
            final(self)@.expects(action@),
    {
        proof {
            if self@.well_formed() {
                lemma_sent_stays_well_formed(self@, ok);
            }
            if self@.state.envelope_complete() && !resets_in_data_mode(self@) {
                lemma_sent_keeps_envelope(self@, ok);
            }
        }
        if !ok {
            return self.close();
        }
        match self.phase {
            Phase::Greeting => {
                self.phase = Phase::Reading;
                Action::Read
            },
            Phase::Confirming => self.finish_message(true),
            Phase::Refusing => self.finish_message(false),
            Phase::Replying => self.advance(),
            _ => self.close(),
        }
    }

    /// Leave DATA mode after the reply to a message, and turn to what
    /// followed the body.
    fn finish_message(&mut self, accepted: bool) -> (action: Action)
        ensures
            (final(self)@, action@) == old(self)@.after_message(accepted),
            final(self)@.expects(action@),
    {
        proof {
            lemma_after_message_expects(self@, accepted);
        }
        self.state.receiving_data = false;
        self.state.data = String::new();
        if accepted {
            self.state.from = None;
            self.state.recipients = Vec::new();
            assert(self.state@.recipients =~= Seq::empty());
        }
        let mut held = String::new();
        core::mem::swap(&mut held, &mut self.held);
        self.take_commands(held.as_str())
    }
}

} // verus!
