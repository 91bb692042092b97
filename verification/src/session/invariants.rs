//! What holds of a session at every step.

use vstd::prelude::*;
use vstd::utf8::decode_utf8;
use crate::command::CommandView;
use crate::parser::commands_of;
use crate::parser::data::{decoded_body, decoded_tail, has_ended};
use crate::parser::lines::{all_lines, lemma_tail_holds_no_newline, unfinished_tail};
use crate::response::ResponseView;
use crate::session::{ActionView, Phase, SessionView};
use crate::state::MAX_RECIPIENTS;

verus! {

/// What a session takes as commands while it still receives a body is
/// nothing: the decoder leaves no text before the end of the body.
pub proof fn lemma_nothing_follows_open_body(session: SessionView, lines: Seq<Seq<char>>)
    requires
        !has_ended(lines),
    ensures
        decoded_tail(lines) == Seq::<char>::empty(),
        session.take_commands(decoded_tail(lines)) == (
            SessionView {
                remaining: Seq::empty(),
                pending: Seq::empty(),
                phase: Phase::Reading,
                ..session
            },
            ActionView::Read,
        ),
{
    let nothing = Seq::<char>::empty();
    assert(decoded_tail(lines) =~= nothing);
    assert(unfinished_tail(nothing) =~= nothing);
    assert(commands_of(nothing) =~= Seq::empty());
}

/// A command leaves the session well-formed.
pub proof fn lemma_process_stays_well_formed(session: SessionView, command: CommandView)
    requires
        session.state.well_formed(),
    ensures
        session.process(command).0.well_formed(),
{
}

/// The next pending line leaves the session well-formed.
pub proof fn lemma_advance_stays_well_formed(session: SessionView)
    requires
        session.state.well_formed(),
    ensures
        session.advance().0.well_formed(),
{
    if session.pending.len() > 0 {
        let rest = SessionView { pending: session.pending.skip(1), ..session };
        if let Some(command) = session.pending[0] {
            lemma_process_stays_well_formed(rest, command);
        }
    }
}

/// New command input leaves the session well-formed.
pub proof fn lemma_take_commands_stays_well_formed(session: SessionView, text: Seq<char>)
    requires
        session.state.well_formed(),
    ensures
        session.take_commands(text).0.well_formed(),
{
    lemma_advance_stays_well_formed(
        SessionView { remaining: unfinished_tail(text), pending: commands_of(text), ..session },
    );
}

/// Input leaves the session well-formed.
pub proof fn lemma_received_stays_well_formed(session: SessionView, input: Seq<char>)
    requires
        session.well_formed(),
    ensures
        session.received(input).0.well_formed(),
{
    if session.phase == Phase::Reading {
        if session.state.receiving_data {
            let lines = all_lines(session.remaining + input);
            let fed = SessionView {
                state: session.state.with_body(decoded_body(lines)),
                ..session
            };
            if !has_ended(lines) {
                lemma_take_commands_stays_well_formed(fed, decoded_tail(lines));
            }
        } else {
            lemma_take_commands_stays_well_formed(session, session.remaining + input);
        }
    }
}

/// A reply that went out leaves the session well-formed.
pub proof fn lemma_sent_stays_well_formed(session: SessionView, ok: bool)
    requires
        session.well_formed(),
    ensures
        session.sent(ok).0.well_formed(),
{
    if ok {
        if session.phase == Phase::Confirming || session.phase == Phase::Refusing {
            let accepted = session.phase == Phase::Confirming;
            lemma_take_commands_stays_well_formed(
                SessionView {
                    state: if accepted {
                        session.state.after_handoff()
                    } else {
                        session.state.after_refusal()
                    },
                    held: Seq::empty(),
                    ..session
                },
                session.held,
            );
        } else if session.phase == Phase::Replying {
            lemma_advance_stays_well_formed(session);
        }
    }
}

/// A session is well-formed at every step: a new session is, and no step
/// takes it away.  So a transaction never holds more than [`MAX_RECIPIENTS`]
/// recipients, and a sender is only known once the client has introduced
/// itself.
pub proof fn lemma_session_stays_well_formed(
    session: SessionView,
    server_name: Seq<char>,
    command: CommandView,
    input: Seq<char>,
    bytes: Seq<u8>,
    answer: bool,
)
    requires
        session.well_formed(),
    ensures
        session.state.recipients.len() <= MAX_RECIPIENTS,
        session.state.from is Some ==> session.state.domain is Some,
        SessionView::fresh(server_name).well_formed(),
        session.process(command).0.well_formed(),
        session.start().0.well_formed(),
        session.received(input).0.well_formed(),
        session.received_bytes(bytes).0.well_formed(),
        session.saved(answer).0.well_formed(),
        session.recipient_checked(answer).0.well_formed(),
        session.sent(answer).0.well_formed(),
{
    lemma_process_stays_well_formed(session, command);
    lemma_received_stays_well_formed(session, input);
    lemma_received_stays_well_formed(session, decode_utf8(bytes));
    lemma_sent_stays_well_formed(session, answer);
}

/// Whatever step a session takes, it then waits for the outcome of the action
/// that it has asked for.
pub proof fn lemma_session_expects_its_action(
    session: SessionView,
    command: CommandView,
    input: Seq<char>,
    bytes: Seq<u8>,
    answer: bool,
)
    ensures
        session.process(command).0.expects(session.process(command).1),
        session.advance().0.expects(session.advance().1),
        session.take_commands(input).0.expects(session.take_commands(input).1),
        session.start().0.expects(session.start().1),
        session.received(input).0.expects(session.received(input).1),
        session.received_bytes(bytes).0.expects(session.received_bytes(bytes).1),
        session.saved(answer).0.expects(session.saved(answer).1),
        session.recipient_checked(answer).0.expects(session.recipient_checked(answer).1),
        session.sent(answer).0.expects(session.sent(answer).1),
{
    lemma_process_expects(session, command);
    lemma_advance_expects(session);
    lemma_take_commands_expects(session, input);
    lemma_received_expects(session, input);
    lemma_received_expects(session, decode_utf8(bytes));
    lemma_sent_expects(session, answer);
}

/// After a command the session waits for the outcome of its action.
pub proof fn lemma_process_expects(session: SessionView, command: CommandView)
    ensures
        session.process(command).0.expects(session.process(command).1),
{
}

/// After the next pending line the session waits for the outcome of its
/// action.
pub proof fn lemma_advance_expects(session: SessionView)
    ensures
        session.advance().0.expects(session.advance().1),
{
    if session.pending.len() > 0 {
        let rest = SessionView { pending: session.pending.skip(1), ..session };
        if let Some(command) = session.pending[0] {
            lemma_process_expects(rest, command);
        }
    }
}

/// After new command input the session waits for the outcome of its action.
pub proof fn lemma_take_commands_expects(session: SessionView, text: Seq<char>)
    ensures
        session.take_commands(text).0.expects(session.take_commands(text).1),
{
    lemma_advance_expects(
        SessionView { remaining: unfinished_tail(text), pending: commands_of(text), ..session },
    );
}

/// After input the session waits for the outcome of its action.
pub proof fn lemma_received_expects(session: SessionView, input: Seq<char>)
    ensures
        session.received(input).0.expects(session.received(input).1),
{
    if session.phase == Phase::Reading {
        if session.state.receiving_data {
            let lines = all_lines(session.remaining + input);
            let fed = SessionView {
                state: session.state.with_body(decoded_body(lines)),
                ..session
            };
            if !has_ended(lines) {
                lemma_take_commands_expects(fed, decoded_tail(lines));
            }
        } else {
            lemma_take_commands_expects(session, session.remaining + input);
        }
    }
}

/// After the reply to a message the session waits for the outcome of its
/// action.
pub proof fn lemma_after_message_expects(session: SessionView, accepted: bool)
    ensures
        session.after_message(accepted).0.expects(session.after_message(accepted).1),
{
    lemma_take_commands_expects(
        SessionView {
            state: if accepted {
                session.state.after_handoff()
            } else {
                session.state.after_refusal()
            },
            held: Seq::empty(),
            ..session
        },
        session.held,
    );
}

/// After a reply that went out the session waits for the outcome of its
/// action.
pub proof fn lemma_sent_expects(session: SessionView, ok: bool)
    ensures
        session.sent(ok).0.expects(session.sent(ok).1),
{
    if ok {
        if session.phase == Phase::Confirming || session.phase == Phase::Refusing {
            let accepted = session.phase == Phase::Confirming;
            lemma_take_commands_expects(
                SessionView {
                    state: if accepted {
                        session.state.after_handoff()
                    } else {
                        session.state.after_refusal()
                    },
                    held: Seq::empty(),
                    ..session
                },
                session.held,
            );
        } else if session.phase == Phase::Replying {
            lemma_advance_expects(session);
        }
    }
}

/// The next pending line is an RSET that arrives while the session is in DATA
/// mode: the one step that takes the envelope from under a body.  It occurs
/// when DATA and RSET come in one read, since all lines of a read are taken
/// as commands.
pub open spec fn resets_in_data_mode(session: SessionView) -> bool {
    &&& session.phase == Phase::Replying
    &&& session.state.receiving_data
    &&& session.pending.len() > 0
    &&& session.pending[0] == Some(CommandView::RSET)
}

/// A command keeps the envelope complete, unless it is an RSET in DATA mode.
pub proof fn lemma_process_keeps_envelope(session: SessionView, command: CommandView)
    requires
        session.state.envelope_complete(),
        !(command == CommandView::RSET && session.state.receiving_data),
    ensures
        session.process(command).0.state.envelope_complete(),
{
}

/// The next pending line keeps the envelope complete, unless it is an RSET
/// in DATA mode.
pub proof fn lemma_advance_keeps_envelope(session: SessionView)
    requires
        session.state.envelope_complete(),
        !(session.state.receiving_data && session.pending.len() > 0 && session.pending[0] == Some(
            CommandView::RSET,
        )),
    ensures
        session.advance().0.state.envelope_complete(),
{
    if session.pending.len() > 0 {
        let rest = SessionView { pending: session.pending.skip(1), ..session };
        if let Some(command) = session.pending[0] {
            lemma_process_keeps_envelope(rest, command);
        }
    }
}

/// New command input, outside DATA mode, keeps the envelope complete.
pub proof fn lemma_take_commands_keeps_envelope(session: SessionView, text: Seq<char>)
    requires
        session.state.envelope_complete(),
        !session.state.receiving_data,
    ensures
        session.take_commands(text).0.state.envelope_complete(),
{
    lemma_advance_keeps_envelope(
        SessionView { remaining: unfinished_tail(text), pending: commands_of(text), ..session },
    );
}

/// Input keeps the envelope complete.
pub proof fn lemma_received_keeps_envelope(session: SessionView, input: Seq<char>)
    requires
        session.state.envelope_complete(),
    ensures
        session.received(input).0.state.envelope_complete(),
{
    if session.phase == Phase::Reading {
        if session.state.receiving_data {
            let lines = all_lines(session.remaining + input);
            let fed = SessionView {
                state: session.state.with_body(decoded_body(lines)),
                ..session
            };
            if !has_ended(lines) {
                lemma_nothing_follows_open_body(fed, lines);
            }
        } else {
            lemma_take_commands_keeps_envelope(session, session.remaining + input);
        }
    }
}

/// A reply that went out keeps the envelope complete, unless an RSET in DATA
/// mode is next.
pub proof fn lemma_sent_keeps_envelope(session: SessionView, ok: bool)
    requires
        session.state.envelope_complete(),
        !resets_in_data_mode(session),
    ensures
        session.sent(ok).0.state.envelope_complete(),
{
    if ok {
        if session.phase == Phase::Confirming || session.phase == Phase::Refusing {
            let accepted = session.phase == Phase::Confirming;
            lemma_take_commands_keeps_envelope(
                SessionView {
                    state: if accepted {
                        session.state.after_handoff()
                    } else {
                        session.state.after_refusal()
                    },
                    held: Seq::empty(),
                    ..session
                },
                session.held,
            );
        } else if session.phase == Phase::Replying {
            lemma_advance_keeps_envelope(session);
        }
    }
}

/// A session that receives a body has a complete envelope: a known client, a
/// sender and at least one recipient.  A new session receives no body, and
/// every step keeps the envelope complete, but for an RSET taken in DATA
/// mode.
pub proof fn lemma_session_keeps_envelope(
    session: SessionView,
    server_name: Seq<char>,
    command: CommandView,
    input: Seq<char>,
    bytes: Seq<u8>,
    answer: bool,
)
    requires
        session.state.envelope_complete(),
    ensures
        session.state.receiving_data ==> session.state.domain is Some && session.state.from
            is Some && session.state.recipients.len() > 0,
        SessionView::fresh(server_name).state.envelope_complete(),
        !(command == CommandView::RSET && session.state.receiving_data) ==> session.process(
            command,
        ).0.state.envelope_complete(),
        session.start().0.state.envelope_complete(),
        session.received(input).0.state.envelope_complete(),
        session.received_bytes(bytes).0.state.envelope_complete(),
        session.saved(answer).0.state.envelope_complete(),
        session.recipient_checked(answer).0.state.envelope_complete(),
        !resets_in_data_mode(session) ==> session.sent(answer).0.state.envelope_complete(),
{
    if !(command == CommandView::RSET && session.state.receiving_data) {
        lemma_process_keeps_envelope(session, command);
    }
    lemma_received_keeps_envelope(session, input);
    lemma_received_keeps_envelope(session, decode_utf8(bytes));
    if !resets_in_data_mode(session) {
        lemma_sent_keeps_envelope(session, answer);
    }
}

/// What the handler's answer on a finished message does, when nothing followed
/// the body: the client is told, and once the reply is out the session reads
/// on in command mode.  An accepted message has cleared the transaction:
/// the sender is unset, the recipients and the body are empty, and the
/// client's domain remains.  A refused message has dropped its body only.
pub proof fn lemma_session_handoff(session: SessionView, accepted: bool)
    requires
        session.phase == Phase::Saving,
        session.held.len() == 0,
    ensures
        session.saved(accepted).1 == ActionView::Send(
            if accepted {
                ResponseView::Okay
            } else {
                ResponseView::TransactionFailed
            },
        ),
        session.saved(accepted).0.state == session.state,
        session.saved(accepted).0.sent(true).1 == ActionView::Read,
        session.saved(accepted).0.sent(true).0.state == if accepted {
            session.state.after_handoff()
        } else {
            session.state.after_refusal()
        },
        !session.saved(accepted).0.sent(true).0.state.receiving_data,
        session.saved(accepted).0.sent(true).0.state.data.len() == 0,
        session.saved(accepted).0.sent(true).0.state.domain == session.state.domain,
        accepted ==> session.saved(accepted).0.sent(true).0.state.from is None,
        accepted ==> session.saved(accepted).0.sent(true).0.state.recipients.len() == 0,
        !accepted ==> session.saved(accepted).0.sent(true).0.state.from == session.state.from,
        !accepted ==> session.saved(accepted).0.sent(true).0.state.recipients
            == session.state.recipients,
{
    let nothing = Seq::<char>::empty();
    assert(session.held =~= nothing);
    assert(unfinished_tail(nothing) =~= nothing);
    assert(commands_of(nothing) =~= Seq::empty());
}

/// After RSET the sender is unset and the recipients and the body are empty;
/// the client's domain remains, and the reply is `250 Ok`.
pub proof fn lemma_session_reset(session: SessionView)
    ensures
        session.process(CommandView::RSET).0.state.from is None,
        session.process(CommandView::RSET).0.state.recipients.len() == 0,
        session.process(CommandView::RSET).0.state.data.len() == 0,
        session.process(CommandView::RSET).0.state.domain == session.state.domain,
        session.process(CommandView::RSET).1 == ActionView::Send(ResponseView::Okay),
{
}

/// The unfinished line that a session keeps between reads holds no line feed.
pub proof fn lemma_remaining_holds_no_newline(session: SessionView, text: Seq<char>)
    ensures
        forall|i: int|
            0 <= i < session.take_commands(text).0.remaining.len()
                ==> session.take_commands(text).0.remaining[i] != '\n',
{
    lemma_tail_holds_no_newline(text);
}

} // verus!
