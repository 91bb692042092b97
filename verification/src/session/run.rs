//! Running a session against a handler that answers at once.

use vstd::prelude::*;
use crate::handler::Handler;
use crate::parser::commands_of;
use crate::parser::data::{decoded_body, decoded_tail, has_ended};
use crate::parser::lines::{all_lines, unfinished_tail};
use crate::response::{Response, ResponseView};
use crate::session::invariants::lemma_session_handoff;
use crate::session::{Action, ActionView, Phase, SessionView, SmtpSession};

verus! {

/// How a run of steps ends: the session it leaves, the replies that went out
/// and whether the connection is to be closed.
pub struct Outcome {
    pub session: SessionView,
    pub replies: Seq<ResponseView>,
    pub quit: bool,
}

/// The views of the replies.
pub open spec fn reply_views(replies: Seq<Response>) -> Seq<ResponseView> {
    replies.map_values(|r: Response| r@)
}

impl SessionView {
    /// A bound on the steps that a session takes before it reads again: the
    /// steps of a message being handed over, then those of each pending line.
    pub open spec fn steps_left(self, action: ActionView) -> (nat, nat, nat) {
        (
            match self.phase {
                Phase::Greeting | Phase::Saving | Phase::Confirming | Phase::Refusing => 1,
                _ => 0,
            },
            self.pending.len(),
            match action {
                ActionView::Save | ActionView::CheckRecipient(_) => 2,
                ActionView::Send(_) => 1,
                ActionView::Read | ActionView::Close => 0,
            },
        )
    }

    /// The session performs `action` and all that follows from it, up to the
    /// next read or the end: every reply goes out, and the handler gives
    /// `answers`, in order, where it is asked.  (Where the answers run out,
    /// the answer is no.)
    pub open spec fn settle(self, action: ActionView, answers: Seq<bool>) -> Outcome
        decreases self.steps_left(action).0, self.steps_left(action).1, self.steps_left(action).2,
    {
        let answer = answers.len() > 0 && answers[0];
        let later = if answers.len() > 0 {
            answers.skip(1)
        } else {
            answers
        };
        match action {
            ActionView::Read => Outcome { session: self, replies: Seq::empty(), quit: false },
            ActionView::Close => Outcome { session: self, replies: Seq::empty(), quit: true },
            ActionView::Send(response) => {
                let next = self.sent(true);
                let rest = next.0.settle(next.1, answers);
                Outcome { replies: seq![response] + rest.replies, ..rest }
            },
            ActionView::CheckRecipient(_) => {
                let next = self.recipient_checked(answer);
                next.0.settle(next.1, later)
            },
            ActionView::Save => {
                let next = self.saved(answer);
                next.0.settle(next.1, later)
            },
        }
    }
}

impl SessionView {
    /// The read of `input` ends a message body and brings nothing behind it.
    pub open spec fn ends_message(self, input: Seq<char>) -> bool {
        &&& self.phase == Phase::Reading
        &&& self.state.receiving_data
        &&& has_ended(all_lines(self.remaining + input))
        &&& decoded_tail(all_lines(self.remaining + input)).len() == 0
    }

    /// How a read that ends a message body, with nothing behind it, comes out
    /// for the handler's answer.  The answer is the only reply, and the
    /// session reads on in command mode.  An accepted message has cleared the
    /// transaction: the sender is unset and the recipients and the body are
    /// empty.  A refused message has dropped its body only.  The client's
    /// domain remains either way.
    pub open spec fn handed_over(self, input: Seq<char>, accepted: bool) -> Outcome {
        let message = self.state.with_body(decoded_body(all_lines(self.remaining + input)));
        Outcome {
            session: SessionView {
                state: if accepted {
                    message.after_handoff()
                } else {
                    message.after_refusal()
                },
                remaining: Seq::empty(),
                pending: Seq::empty(),
                held: Seq::empty(),
                phase: Phase::Reading,
                ..self
            },
            replies: seq![
                if accepted {
                    ResponseView::Okay
                } else {
                    ResponseView::TransactionFailed
                },
            ],
            quit: false,
        }
    }
}

/// A read that ends a body, with nothing behind it, asks the handler once and
/// comes out as [`SessionView::handed_over`] says for its answer: a
/// successful handoff clears the transaction and keeps the client's domain.
pub proof fn lemma_read_hands_message_over(
    session: SessionView,
    input: Seq<char>,
    answers: Seq<bool>,
)
    requires
        session.ends_message(input),
    ensures
        session.received(input).1 == ActionView::Save,
        session.received(input).0.settle(ActionView::Save, answers) == session.handed_over(
            input,
            answers.len() > 0 && answers[0],
        ),
        session.handed_over(input, true).session.state.from is None,
        session.handed_over(input, true).session.state.recipients.len() == 0,
        session.handed_over(input, true).session.state.data.len() == 0,
        !session.handed_over(input, true).session.state.receiving_data,
        session.handed_over(input, true).session.state.domain == session.state.domain,
        session.handed_over(input, false).session.state.from == session.state.from,
        session.handed_over(input, false).session.state.recipients == session.state.recipients,
{
    let accepted = answers.len() > 0 && answers[0];
    let later = if answers.len() > 0 {
        answers.skip(1)
    } else {
        answers
    };
    let saving = session.received(input).0;
    let nothing = Seq::<char>::empty();
    assert(saving.held =~= nothing);
    lemma_session_handoff(saving, accepted);
    let confirming = saving.saved(accepted);
    let reading = confirming.0.sent(true);
    assert(unfinished_tail(nothing) =~= nothing);
    assert(commands_of(nothing) =~= Seq::empty());
    assert(reading.0.settle(reading.1, later).replies =~= Seq::empty());
    assert(confirming.0.settle(confirming.1, later).replies =~= seq![
        if accepted {
            ResponseView::Okay
        } else {
            ResponseView::TransactionFailed
        },
    ]);
    assert(saving.settle(ActionView::Save, answers) == confirming.0.settle(confirming.1, later));
}

/// `replies`, then the replies of `outcome`.
pub open spec fn after_replies(replies: Seq<ResponseView>, outcome: Outcome) -> Outcome {
    Outcome { replies: replies + outcome.replies, ..outcome }
}

/// A run that began at `first` with `first_action` has come to `now` with
/// `action`: the handler has given `answers`, `replies` went out, and whatever
/// the handler answers from here on, the run ends as the rest of it ends.
#[verifier::opaque]
spec fn run_reaches(
    first: SessionView,
    first_action: ActionView,
    answers: Seq<bool>,
    replies: Seq<ResponseView>,
    now: SessionView,
    action: ActionView,
) -> bool {
    forall|more: Seq<bool>| #[trigger]
        first.settle(first_action, answers + more) == after_replies(
            replies,
            now.settle(action, more),
        )
}

proof fn lemma_run_begins(first: SessionView, action: ActionView)
    ensures
        run_reaches(first, action, Seq::empty(), Seq::empty(), first, action),
{
    reveal(run_reaches);
    let none = Seq::<bool>::empty();
    let silent = Seq::<ResponseView>::empty();
    assert forall|more: Seq<bool>| #[trigger]
        first.settle(action, none + more) == after_replies(silent, first.settle(action, more)) by {
        assert(none + more =~= more);
        assert(silent + first.settle(action, more).replies =~= first.settle(action, more).replies);
    }
}

proof fn lemma_run_sends(
    first: SessionView,
    first_action: ActionView,
    answers: Seq<bool>,
    replies: Seq<ResponseView>,
    now: SessionView,
    response: ResponseView,
)
    requires
        run_reaches(first, first_action, answers, replies, now, ActionView::Send(response)),
    ensures
        run_reaches(
            first,
            first_action,
            answers,
            replies.push(response),
            now.sent(true).0,
            now.sent(true).1,
        ),
{
    reveal(run_reaches);
    let next = now.sent(true);
    assert forall|more: Seq<bool>| #[trigger]
        first.settle(first_action, answers + more) == after_replies(
            replies.push(response),
            next.0.settle(next.1, more),
        ) by {
        let rest = next.0.settle(next.1, more);
        assert(now.settle(ActionView::Send(response), more) == after_replies(
            seq![response],
            rest,
        ));
        assert(replies + (seq![response] + rest.replies) =~= replies.push(response)
            + rest.replies);
    }
}

proof fn lemma_run_asks(
    first: SessionView,
    first_action: ActionView,
    answers: Seq<bool>,
    replies: Seq<ResponseView>,
    now: SessionView,
    action: ActionView,
    answer: bool,
)
    requires
        run_reaches(first, first_action, answers, replies, now, action),
        action is CheckRecipient || action is Save,
    ensures
        action is CheckRecipient ==> run_reaches(
            first,
            first_action,
            answers.push(answer),
            replies,
            now.recipient_checked(answer).0,
            now.recipient_checked(answer).1,
        ),
        action is Save ==> run_reaches(
            first,
            first_action,
            answers.push(answer),
            replies,
            now.saved(answer).0,
            now.saved(answer).1,
        ),
{
    reveal(run_reaches);
    let next = if action is Save {
        now.saved(answer)
    } else {
        now.recipient_checked(answer)
    };
    assert forall|more: Seq<bool>| #[trigger]
        first.settle(first_action, answers.push(answer) + more) == after_replies(
            replies,
            next.0.settle(next.1, more),
        ) by {
        let given = seq![answer] + more;
        assert(answers.push(answer) + more =~= answers + given);
        assert(given[0] == answer);
        assert(given.skip(1) =~= more);
        assert(now.settle(action, given) == next.0.settle(next.1, more));
    }
}

proof fn lemma_run_ends(
    first: SessionView,
    first_action: ActionView,
    answers: Seq<bool>,
    replies: Seq<ResponseView>,
    now: SessionView,
    action: ActionView,
)
    requires
        run_reaches(first, first_action, answers, replies, now, action),
        action is Read || action is Close,
    ensures
        first.settle(first_action, answers) == (Outcome {
            session: now,
            replies,
            quit: action is Close,
        }),
{
    reveal(run_reaches);
    let none = Seq::<bool>::empty();
    assert(answers + none =~= answers);
    assert(replies + now.settle(action, none).replies =~= replies);
}

impl SmtpSession {
    /// Handle new incoming input, asking `handler` where the session needs its
    /// word.
    ///
    /// Returns the replies for the client, in order, and whether the
    /// connection is to be closed once they are written.  The replies are
    /// gathered, not written one by one: a caller that must stop at the first
    /// write that fails drives the session by its single steps instead.
    pub fn input<H: Handler>(&mut self, handler: &H, input: &str) -> (r: (Vec<Response>, bool))
        ensures
            exists|answers: Seq<bool>|
                (Outcome { session: final(self)@, replies: reply_views(r.0@), quit: r.1 })
                    == #[trigger] old(self)@.received(input@).0.settle(
                    old(self)@.received(input@).1,
                    answers,
                ),
            old(self)@.well_formed() ==> final(self)@.well_formed(),
            final(self)@.phase == if r.1 {
                Phase::Closed
            } else {
                Phase::Reading
            },
            old(self)@.ends_message(input@) ==> exists|accepted: bool|
                (Outcome { session: final(self)@, replies: reply_views(r.0@), quit: r.1 })
                    == #[trigger] old(self)@.handed_over(input@, accepted),
    {
        let mut action = self.received(input);
        let ghost first = self@;
        let ghost first_action = action@;
        let ghost mut answers: Seq<bool> = Seq::empty();
        let mut replies: Vec<Response> = Vec::new();
        proof {
            assert(reply_views(replies@) =~= Seq::empty());
            lemma_run_begins(first, first_action);
        }
        loop
            invariant
                first == old(self)@.received(input@).0,
                first_action == old(self)@.received(input@).1,
                old(self)@.well_formed() ==> self@.well_formed(),
                self@.expects(action@),
                run_reaches(first, first_action, answers, reply_views(replies@), self@, action@),
            decreases
                    self@.steps_left(action@).0,
                    self@.steps_left(action@).1,
                    self@.steps_left(action@).2,
        {
            let ghost now = self@;
            let ghost sent = reply_views(replies@);
            match action {
                Action::Read => {
                    proof {
                        lemma_run_ends(first, first_action, answers, sent, now, ActionView::Read);
                        if old(self)@.ends_message(input@) {
                            lemma_read_hands_message_over(old(self)@, input@, answers);
                        }
                    }
                    return (replies, false);
                },
                Action::Close => {
                    proof {
                        lemma_run_ends(first, first_action, answers, sent, now, ActionView::Close);
                        if old(self)@.ends_message(input@) {
                            lemma_read_hands_message_over(old(self)@, input@, answers);
                        }
                    }
                    return (replies, true);
                },
                Action::Send(response) => {
                    proof {
                        lemma_run_sends(first, first_action, answers, sent, now, response@);
                    }
                    replies.push(response);
                    assert(reply_views(replies@) =~= sent.push(response@));
                    action = self.sent(true);
                },
                Action::CheckRecipient(recipient) => {
                    let local = handler.recipient_local(&recipient);
                    proof {
                        lemma_run_asks(first, first_action, answers, sent, now, action@, local);
                        answers = answers.push(local);
                    }
                    action = self.recipient_checked(local);
                },
                Action::Save => {
                    let accepted = handler.save(&self.state);
                    proof {
                        lemma_run_asks(first, first_action, answers, sent, now, action@, accepted);
                        answers = answers.push(accepted);
                    }
                    action = self.saved(accepted);
                },
            }
        }
    }
}

} // verus!
