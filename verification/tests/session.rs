use std::cell::RefCell;

use postbus::command::{Command, Domain, Mailbox};
use postbus::{Action, Handler, Phase, Response, SmtpSession, SmtpState};

/// Accepts recipients at nexium.app and saves every message.
struct Demo {
    saved: RefCell<Vec<(Option<String>, Vec<String>, String)>>,
    accept: bool,
}

impl Demo {
    fn new() -> Self {
        Demo {
            saved: RefCell::new(Vec::new()),
            accept: true,
        }
    }

    fn refusing() -> Self {
        Demo {
            saved: RefCell::new(Vec::new()),
            accept: false,
        }
    }
}

impl Handler for Demo {
    fn recipient_local(&self, recipient: &Mailbox) -> bool {
        recipient.domain == Domain("nexium.app".to_string())
    }

    fn save(&self, state: &SmtpState) -> bool {
        self.saved.borrow_mut().push((
            state.from.as_ref().map(|m| format!("{}@{}", m.local, m.domain.0)),
            state
                .recipients
                .iter()
                .map(|m| format!("{}@{}", m.local, m.domain.0))
                .collect(),
            state.data.clone(),
        ));
        self.accept
    }
}

/// A greeted session.
fn connect() -> SmtpSession {
    let mut session = SmtpSession::new("Postbus Demo".to_string());
    assert_eq!(
        Action::Send(Response::Greeting("Postbus Demo".to_string())),
        session.start()
    );
    assert_eq!(Action::Read, session.sent(true));
    session
}

/// Feed `input` and return the wire form of the replies and the quit flag.
fn say(session: &mut SmtpSession, handler: &Demo, input: &str) -> (String, bool) {
    let (replies, quit) = session.input(handler, input);
    let mut wire = String::new();
    for reply in replies {
        wire.push_str(&reply.to_response());
    }
    (wire, quit)
}

fn mailbox(local: &str, domain: &str) -> Mailbox {
    Mailbox {
        local: local.to_string(),
        domain: Domain(domain.to_string()),
    }
}

#[test]
fn greeting_and_quit() {
    let mut session = SmtpSession::new("Postbus Demo".to_string());
    let greeting = session.start();
    match &greeting {
        Action::Send(reply) => assert_eq!("220 Postbus Demo ESMTP\r\n", reply.to_response()),
        _ => panic!("no greeting"),
    }
    assert_eq!(Action::Read, session.sent(true));
    let handler = Demo::new();
    assert_eq!(
        ("221 Goodbye!\r\n".to_string(), true),
        say(&mut session, &handler, "QUIT\r\n")
    );
    assert_eq!(Phase::Closed, session.phase());
}

#[test]
fn out_of_sequence_mail() {
    let mut session = connect();
    let handler = Demo::new();
    assert_eq!(
        ("503 Command out of sequence\r\n".to_string(), false),
        say(&mut session, &handler, "MAIL FROM:<a@nexium.app>\r\n")
    );
    assert!(session.state().from.is_none());
}

#[test]
fn full_happy_path() {
    let mut session = connect();
    let handler = Demo::new();
    assert_eq!(
        ("250 Postbus Demo ESMTP\r\n".to_string(), false),
        say(&mut session, &handler, "EHLO nexium.app\r\n")
    );
    assert_eq!(
        ("250 Ok\r\n".to_string(), false),
        say(&mut session, &handler, "MAIL FROM:<a@nexium.app>\r\n")
    );
    assert_eq!(
        ("250 Ok\r\n".to_string(), false),
        say(&mut session, &handler, "RCPT TO:<b@nexium.app>\r\n")
    );
    assert_eq!(
        ("354 Go ahead\r\n".to_string(), false),
        say(&mut session, &handler, "DATA\r\n")
    );
    assert!(session.state().receiving_data);
    assert_eq!(
        ("250 Ok\r\n".to_string(), false),
        say(&mut session, &handler, "Hello\r\n.\r\n")
    );
    assert_eq!(
        vec![(
            Some("a@nexium.app".to_string()),
            vec!["b@nexium.app".to_string()],
            "Hello".to_string()
        )],
        *handler.saved.borrow()
    );
    assert!(!session.state().receiving_data);
    assert_eq!("", session.state().data);
    assert!(session.state().from.is_none());
    assert!(session.state().recipients.is_empty());
    assert_eq!(
        ("221 Goodbye!\r\n".to_string(), true),
        say(&mut session, &handler, "QUIT\r\n")
    );
}

#[test]
fn handoff_clears_the_transaction() {
    let mut session = connect();
    let handler = Demo::new();
    say(&mut session, &handler, "EHLO nexium.app\r\n");
    say(&mut session, &handler, "MAIL FROM:<a@nexium.app>\r\n");
    say(&mut session, &handler, "RCPT TO:<b@nexium.app>\r\n");
    say(&mut session, &handler, "RCPT TO:<c@nexium.app>\r\n");
    say(&mut session, &handler, "DATA\r\n");
    assert_eq!(
        ("250 Ok\r\n".to_string(), false),
        say(&mut session, &handler, "Hello\r\n.\r\n")
    );
    // The message is with the handler: the transaction is over, the
    // greeting stays in effect.
    let state = session.state();
    assert!(!state.receiving_data);
    assert!(state.from.is_none());
    assert!(state.recipients.is_empty());
    assert_eq!("", state.data);
    assert_eq!(Some(Domain("nexium.app".to_string())), state.domain);
    // A body needs a new envelope, and a new envelope needs no new greeting.
    assert_eq!(
        ("503 Command out of sequence\r\n".to_string(), false),
        say(&mut session, &handler, "DATA\r\n")
    );
    assert_eq!(
        ("250 Ok\r\n250 Ok\r\n354 Go ahead\r\n".to_string(), false),
        say(
            &mut session,
            &handler,
            "MAIL FROM:<d@nexium.app>\r\nRCPT TO:<e@nexium.app>\r\nDATA\r\n"
        )
    );
    say(&mut session, &handler, "Again\r\n.\r\n");
    assert_eq!(
        vec![
            (
                Some("a@nexium.app".to_string()),
                vec!["b@nexium.app".to_string(), "c@nexium.app".to_string()],
                "Hello".to_string()
            ),
            (
                Some("d@nexium.app".to_string()),
                vec!["e@nexium.app".to_string()],
                "Again".to_string()
            ),
        ],
        *handler.saved.borrow()
    );
}

#[test]
fn handoff_clears_before_what_follows_the_body() {
    let mut session = connect();
    let handler = Demo::new();
    say(&mut session, &handler, "EHLO nexium.app\r\n");
    say(&mut session, &handler, "MAIL FROM:<a@nexium.app>\r\n");
    say(&mut session, &handler, "RCPT TO:<b@nexium.app>\r\n");
    say(&mut session, &handler, "DATA\r\n");
    // The recipient behind the body opens no transaction: the sender went
    // with the message.
    assert_eq!(
        ("250 Ok\r\n250 Ok\r\n503 Command out of sequence\r\n".to_string(), false),
        say(
            &mut session,
            &handler,
            "Hello\r\n.\r\nRCPT TO:<c@nexium.app>\r\nDATA\r\nQUIT"
        )
    );
    assert!(session.state().from.is_none());
    assert_eq!(vec![mailbox("c", "nexium.app")], session.state().recipients);
    assert_eq!("QUIT", session.remaining());
}

#[test]
fn non_local_recipient() {
    let mut session = connect();
    let handler = Demo::new();
    say(&mut session, &handler, "EHLO nexium.app\r\n");
    say(&mut session, &handler, "MAIL FROM:<a@nexium.app>\r\n");
    assert_eq!(
        ("550 User not local\r\n".to_string(), false),
        say(&mut session, &handler, "RCPT TO:<x@other.example>\r\n")
    );
    assert!(session.state().recipients.is_empty());
    assert_eq!(
        ("250 Ok\r\n".to_string(), false),
        say(&mut session, &handler, "RCPT TO:<b@nexium.app>\r\n")
    );
    assert_eq!(vec![mailbox("b", "nexium.app")], session.state().recipients);
}

#[test]
fn syntax_error_preserves_session() {
    let mut session = connect();
    let handler = Demo::new();
    say(&mut session, &handler, "EHLO nexium.app\r\n");
    assert_eq!(
        ("500 Syntax error\r\n".to_string(), false),
        say(&mut session, &handler, "GARBAGE\r\n")
    );
    assert_eq!(
        Some(Domain("nexium.app".to_string())),
        session.state().domain
    );
    assert_eq!(
        ("250 Ok\r\n".to_string(), false),
        say(&mut session, &handler, "MAIL FROM:<a@nexium.app>\r\n")
    );
}

#[test]
fn dot_stuffing() {
    let mut session = connect();
    let handler = Demo::new();
    say(&mut session, &handler, "EHLO nexium.app\r\n");
    say(&mut session, &handler, "MAIL FROM:<a@nexium.app>\r\n");
    say(&mut session, &handler, "RCPT TO:<b@nexium.app>\r\n");
    say(&mut session, &handler, "DATA\r\n");
    assert_eq!(
        ("250 Ok\r\n".to_string(), false),
        say(&mut session, &handler, ".hidden\r\n..dotted\r\n.\r\n")
    );
    assert_eq!("hidden\r\n.dotted", handler.saved.borrow()[0].2);
}

#[test]
fn helo_and_ehlo_reply_with_the_server_name() {
    let mut session = connect();
    let handler = Demo::new();
    assert_eq!(
        ("250 Postbus Demo ESMTP\r\n".to_string(), false),
        say(&mut session, &handler, "helo client.example\r\n")
    );
    assert_eq!(
        Some(Domain("client.example".to_string())),
        session.state().domain
    );
    assert_eq!("Postbus Demo", session.server_name());
}

#[test]
fn several_commands_in_one_read() {
    let mut session = connect();
    let handler = Demo::new();
    assert_eq!(
        (
            "250 Postbus Demo ESMTP\r\n250 Ok\r\n250 Ok\r\n550 User not local\r\n500 Syntax error\r\n"
                .to_string(),
            false
        ),
        say(
            &mut session,
            &handler,
            "EHLO nexium.app\r\nMAIL FROM:<a@nexium.app>\r\nRCPT TO:<b@nexium.app>\r\nRCPT TO:<c@x.y>\r\nNOOP\r\nRS"
        )
    );
    assert_eq!("RS", session.remaining());
    assert_eq!(
        ("250 Ok\r\n".to_string(), false),
        say(&mut session, &handler, "ET\r\n")
    );
    assert_eq!("", session.remaining());
    assert!(session.state().from.is_none());
    assert!(session.state().recipients.is_empty());
}

#[test]
fn nothing_is_processed_after_quit() {
    let mut session = connect();
    let handler = Demo::new();
    assert_eq!(
        ("221 Goodbye!\r\n".to_string(), true),
        say(&mut session, &handler, "QUIT\r\nEHLO nexium.app\r\n")
    );
    assert!(session.state().domain.is_none());
}

#[test]
fn reset_keeps_the_domain() {
    let mut session = connect();
    let handler = Demo::new();
    say(&mut session, &handler, "EHLO nexium.app\r\n");
    say(&mut session, &handler, "MAIL FROM:<a@nexium.app>\r\n");
    say(&mut session, &handler, "RCPT TO:<b@nexium.app>\r\n");
    assert_eq!(
        ("250 Ok\r\n".to_string(), false),
        say(&mut session, &handler, "RSET\r\n")
    );
    let state = session.state();
    assert!(state.from.is_none());
    assert!(state.recipients.is_empty());
    assert_eq!("", state.data);
    assert_eq!(Some(Domain("nexium.app".to_string())), state.domain);
    assert_eq!(
        ("503 Command out of sequence\r\n".to_string(), false),
        say(&mut session, &handler, "DATA\r\n")
    );
}

#[test]
fn data_needs_the_whole_envelope() {
    let handler = Demo::new();
    let out_of_sequence = ("503 Command out of sequence\r\n".to_string(), false);

    let mut session = connect();
    assert_eq!(out_of_sequence, say(&mut session, &handler, "DATA\r\n"));
    say(&mut session, &handler, "EHLO nexium.app\r\n");
    assert_eq!(out_of_sequence, say(&mut session, &handler, "DATA\r\n"));
    say(&mut session, &handler, "MAIL FROM:<a@nexium.app>\r\n");
    assert_eq!(out_of_sequence, say(&mut session, &handler, "DATA\r\n"));
    assert!(!session.state().receiving_data);
    say(&mut session, &handler, "RCPT TO:<b@nexium.app>\r\n");
    assert_eq!(
        ("354 Go ahead\r\n".to_string(), false),
        say(&mut session, &handler, "DATA\r\n")
    );
}

#[test]
fn recipient_before_hello_is_out_of_sequence() {
    let mut session = connect();
    let handler = Demo::new();
    assert_eq!(
        ("503 Command out of sequence\r\n".to_string(), false),
        say(&mut session, &handler, "RCPT TO:<b@nexium.app>\r\n")
    );
}

#[test]
fn at_most_a_hundred_recipients() {
    let mut session = connect();
    let handler = Demo::new();
    say(&mut session, &handler, "EHLO nexium.app\r\n");
    say(&mut session, &handler, "MAIL FROM:<a@nexium.app>\r\n");
    for i in 0..100 {
        assert_eq!(
            ("250 Ok\r\n".to_string(), false),
            say(
                &mut session,
                &handler,
                &format!("RCPT TO:<r{}@nexium.app>\r\n", i)
            )
        );
    }
    assert_eq!(100, session.state().recipients.len());
    assert_eq!(
        ("452 Too many recipients\r\n".to_string(), false),
        say(&mut session, &handler, "RCPT TO:<late@nexium.app>\r\n")
    );
    // The list is full before the handler is asked.
    assert_eq!(
        ("452 Too many recipients\r\n".to_string(), false),
        say(&mut session, &handler, "RCPT TO:<late@other.example>\r\n")
    );
    assert_eq!(100, session.state().recipients.len());
    assert_eq!(mailbox("r99", "nexium.app"), session.state().recipients[99]);
}

#[test]
fn refused_message() {
    let mut session = connect();
    let handler = Demo::refusing();
    say(&mut session, &handler, "EHLO nexium.app\r\n");
    say(&mut session, &handler, "MAIL FROM:<a@nexium.app>\r\n");
    say(&mut session, &handler, "RCPT TO:<b@nexium.app>\r\n");
    say(&mut session, &handler, "DATA\r\n");
    assert_eq!(
        ("554 Transaction failed\r\n".to_string(), false),
        say(&mut session, &handler, "Hello\r\n.\r\n")
    );
    assert!(!session.state().receiving_data);
    assert_eq!("", session.state().data);
    assert_eq!(1, handler.saved.borrow().len());
    // A refused message keeps its envelope: the client may try another body.
    assert_eq!(Some(mailbox("a", "nexium.app")), session.state().from);
    assert_eq!(vec![mailbox("b", "nexium.app")], session.state().recipients);
    assert_eq!(
        ("354 Go ahead\r\n".to_string(), false),
        say(&mut session, &handler, "DATA\r\n")
    );
}

#[test]
fn body_in_pieces() {
    let mut session = connect();
    let handler = Demo::new();
    say(&mut session, &handler, "EHLO nexium.app\r\n");
    say(&mut session, &handler, "MAIL FROM:<a@nexium.app>\r\n");
    say(&mut session, &handler, "RCPT TO:<b@nexium.app>\r\n");
    say(&mut session, &handler, "DATA\r\n");
    assert_eq!((String::new(), false), say(&mut session, &handler, "Hel"));
    assert_eq!("Hel", session.state().data);
    assert_eq!("", session.remaining());
    assert_eq!(
        ("250 Ok\r\n".to_string(), false),
        say(&mut session, &handler, "lo\r\n.\r\n")
    );
    assert_eq!("Hello", handler.saved.borrow()[0].2);
}

#[test]
fn commands_behind_the_body() {
    let mut session = connect();
    let handler = Demo::new();
    say(&mut session, &handler, "EHLO nexium.app\r\n");
    say(&mut session, &handler, "MAIL FROM:<a@nexium.app>\r\n");
    say(&mut session, &handler, "RCPT TO:<b@nexium.app>\r\n");
    say(&mut session, &handler, "DATA\r\n");
    assert_eq!(
        ("250 Ok\r\n250 Ok\r\n".to_string(), false),
        say(&mut session, &handler, "Hello\r\n.\r\nRSET\r\nQUIT")
    );
    assert_eq!("QUIT", session.remaining());
    assert_eq!(
        ("221 Goodbye!\r\n".to_string(), true),
        say(&mut session, &handler, "\r\n")
    );
}

#[test]
fn hello_keeps_the_transaction() {
    let mut session = connect();
    let handler = Demo::new();
    say(&mut session, &handler, "EHLO nexium.app\r\n");
    say(&mut session, &handler, "MAIL FROM:<a@nexium.app>\r\n");
    say(&mut session, &handler, "RCPT TO:<b@nexium.app>\r\n");
    say(&mut session, &handler, "HELO other.example\r\n");
    assert_eq!(
        Some(Domain("other.example".to_string())),
        session.state().domain
    );
    assert_eq!(Some(mailbox("a", "nexium.app")), session.state().from);
    assert_eq!(1, session.state().recipients.len());
}

#[test]
fn steps_one_by_one() {
    let mut session = connect();
    assert_eq!(
        Action::Send(Response::Ehlo("Postbus Demo".to_string())),
        session.received("EHLO nexium.app\r\nMAIL FROM:<a@nexium.app>\r\nRCPT TO:<b@nexium.app>\r\nDATA\r\n")
    );
    assert_eq!(Phase::Replying, session.phase());
    assert_eq!(Action::Send(Response::Okay), session.sent(true));
    assert_eq!(
        Action::CheckRecipient(mailbox("b", "nexium.app")),
        session.sent(true)
    );
    assert_eq!(Phase::Checking, session.phase());
    assert_eq!(Action::Send(Response::Okay), session.recipient_checked(true));
    assert_eq!(Action::Send(Response::StartData), session.sent(true));
    assert_eq!(Action::Read, session.sent(true));
    assert_eq!(Phase::Reading, session.phase());
    assert_eq!(Action::Save, session.received("Hi\r\n.\r\nQUIT\r\n"));
    assert_eq!(Phase::Saving, session.phase());
    assert_eq!("Hi", session.state().data);
    assert_eq!(Action::Send(Response::TransactionFailed), session.saved(false));
    assert_eq!(Phase::Refusing, session.phase());
    // What followed the body is one unfinished line.
    assert_eq!(Action::Read, session.sent(true));
    assert_eq!("QUIT", session.remaining());
    assert_eq!(Action::Send(Response::Goodbye), session.received("\r\n"));
    assert_eq!(Phase::Leaving, session.phase());
    assert_eq!(Action::Close, session.sent(true));
    assert_eq!(Phase::Closed, session.phase());
}

#[test]
fn a_failed_write_closes() {
    let mut session = SmtpSession::new("Postbus Demo".to_string());
    session.start();
    assert_eq!(Action::Close, session.sent(false));
    assert_eq!(Phase::Closed, session.phase());

    let mut session = connect();
    session.received("EHLO nexium.app\r\nQUIT\r\n");
    assert_eq!(Action::Close, session.sent(false));
    assert_eq!(Action::Close, session.sent(true));
}

#[test]
fn an_unexpected_step_closes() {
    let mut session = SmtpSession::new("Postbus Demo".to_string());
    assert_eq!(Action::Close, session.received("QUIT\r\n"));

    let mut session = connect();
    assert_eq!(Action::Close, session.saved(true));

    let mut session = connect();
    assert_eq!(Action::Close, session.recipient_checked(true));

    let mut session = connect();
    assert_eq!(Action::Close, session.start());

    let mut session = connect();
    assert_eq!(Action::Close, session.sent(true));
}

#[test]
fn single_transitions() {
    let mut session = SmtpSession::new("mx".to_string());
    assert_eq!(
        Response::OutOfSequence,
        session.process_from(mailbox("a", "b.c"))
    );
    assert_eq!(
        Response::OutOfSequence,
        session.process_rcpt(mailbox("a", "b.c"), true)
    );
    assert_eq!(Response::OutOfSequence, session.process_data());
    assert_eq!(
        Response::Helo("mx".to_string()),
        session.process_helo(Domain("h.i".to_string()))
    );
    assert_eq!(
        Response::Ehlo("mx".to_string()),
        session.process_ehlo(Domain("e.f".to_string()))
    );
    assert_eq!(Some(Domain("e.f".to_string())), session.state().domain);
    assert_eq!(None, session.refuse_rcpt());
    assert_eq!(
        Response::RecipientNotLocal,
        session.process_rcpt(mailbox("a", "b.c"), false)
    );
    assert_eq!(Response::Okay, session.process_rcpt(mailbox("a", "b.c"), true));
    assert_eq!(Response::OutOfSequence, session.process_data());
    assert_eq!(Response::Okay, session.process_from(mailbox("s", "t.u")));
    assert_eq!(Response::StartData, session.process_data());
    assert!(session.state().receiving_data);
    assert_eq!(Response::Okay, session.process_reset());
    assert!(session.state().recipients.is_empty());
    assert_eq!(
        Action::Send(Response::Goodbye),
        session.process_command(Command::QUIT)
    );
}

#[test]
fn fresh_state() {
    let state = SmtpState::default();
    assert!(!state.receiving_data);
    assert!(state.domain.is_none());
    assert!(state.from.is_none());
    assert!(state.recipients.is_empty());
    assert_eq!("", state.data);
}

#[test]
fn bytes_from_the_socket() {
    let mut session = connect();
    assert_eq!(
        Action::Send(Response::Ehlo("Postbus Demo".to_string())),
        session.received_bytes(b"EHLO nexium.app\r\n")
    );
    assert_eq!(Action::Read, session.sent(true));
    // Text beyond ASCII is text all the same.
    assert_eq!(
        Action::Send(Response::SyntaxError),
        session.received_bytes("EHLO nexium.äpp\r\n".as_bytes())
    );
    assert_eq!(Action::Read, session.sent(true));
    // Bytes that are not UTF-8 end the session without a reply.
    assert_eq!(Action::Close, session.received_bytes(&[b'Q', 0xff, b'\n']));
    assert_eq!(Phase::Closed, session.phase());
}

#[test]
fn end_of_input_closes() {
    let mut session = connect();
    assert_eq!(Action::Close, session.received_bytes(&[]));
    assert_eq!(Phase::Closed, session.phase());
}

#[test]
fn commands_in_the_read_of_data() {
    // All lines of one read are commands, also those behind DATA: the body
    // starts with the next read.
    let mut session = connect();
    let handler = Demo::new();
    say(&mut session, &handler, "EHLO nexium.app\r\n");
    say(&mut session, &handler, "MAIL FROM:<a@nexium.app>\r\n");
    say(&mut session, &handler, "RCPT TO:<b@nexium.app>\r\n");
    assert_eq!(
        ("354 Go ahead\r\n250 Ok\r\n".to_string(), false),
        say(&mut session, &handler, "DATA\r\nRSET\r\n")
    );
    assert!(session.state().receiving_data);
    assert!(session.state().from.is_none());
    assert!(session.state().recipients.is_empty());
    assert_eq!(
        ("250 Ok\r\n".to_string(), false),
        say(&mut session, &handler, "Hello\r\n.\r\n")
    );
    assert_eq!(
        vec![(None, Vec::<String>::new(), "Hello".to_string())],
        *handler.saved.borrow()
    );
}

#[test]
fn handoff_step_by_step() {
    let mut session = connect();
    session.process_ehlo(Domain("nexium.app".to_string()));
    session.process_from(mailbox("a", "nexium.app"));
    session.process_rcpt(mailbox("b", "nexium.app"), true);
    session.process_data();
    assert_eq!(Action::Save, session.received("Hi\r\n.\r\n"));
    assert_eq!(Action::Send(Response::Okay), session.saved(true));
    assert_eq!(Phase::Confirming, session.phase());
    // The transaction stands until the reply is out.
    assert_eq!(Some(mailbox("a", "nexium.app")), session.state().from);
    assert_eq!(1, session.state().recipients.len());
    assert_eq!("Hi", session.state().data);
    assert_eq!(Action::Read, session.sent(true));
    assert!(session.state().from.is_none());
    assert!(session.state().recipients.is_empty());
    assert_eq!("", session.state().data);
    assert!(!session.state().receiving_data);
    assert_eq!(Some(Domain("nexium.app".to_string())), session.state().domain);
}

#[test]
fn a_failed_write_after_a_message_closes() {
    for accepted in [true, false] {
        let mut session = connect();
        session.process_ehlo(Domain("nexium.app".to_string()));
        session.process_from(mailbox("a", "nexium.app"));
        session.process_rcpt(mailbox("b", "nexium.app"), true);
        session.process_data();
        assert_eq!(Action::Save, session.received("Hi\r\n.\r\nQUIT\r\n"));
        session.saved(accepted);
        assert_eq!(Action::Close, session.sent(false));
        assert_eq!(Phase::Closed, session.phase());
    }
}
