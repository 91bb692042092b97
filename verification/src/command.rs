//! The values that cross the wire from client to server: domains, mailboxes
//! and the commands that carry them.

use vstd::prelude::*;
use vstd::string::*;
use crate::text::{debug_form, debug_of};

verus! {

/// A domain name, kept exactly as the client wrote it.
#[derive(Debug)]
pub struct Domain(pub String);

impl View for Domain {
    type V = Seq<char>;

    open spec fn view(&self) -> Seq<char> {
        self.0@
    }
}

/// Two domains are equal if they are the same text: the case of letters
/// counts.
impl PartialEq for Domain {
    fn eq(&self, other: &Self) -> (r: bool) {
        self.0 == other.0
    }
}

impl vstd::std_specs::cmp::PartialEqSpecImpl for Domain {
    open spec fn obeys_eq_spec() -> bool {
        true
    }

    open spec fn eq_spec(&self, other: &Self) -> bool {
        self@ == other@
    }
}

impl Clone for Domain {
    fn clone(&self) -> (r: Self)
        ensures
            r@ == self@,
    {
        Domain(self.0.clone())
    }
}

impl<'a> From<&'a str> for Domain {
    fn from(input: &'a str) -> (r: Self)
        ensures
            r@ == input@,
    {
        Domain(input.to_owned())
    }
}

impl<'a> vstd::std_specs::convert::FromSpecImpl<&'a str> for Domain {
    /// The conversion is specified by the `ensures` of `from` over views; no
    /// spec-level constructor of a `String` exists to state it as a function.
    open spec fn obeys_from_spec() -> bool {
        false
    }

    open spec fn from_spec(v: &'a str) -> Self {
        arbitrary()
    }
}

/// The mathematical content of a [`Mailbox`].
pub struct MailboxView {
    pub local: Seq<char>,
    pub domain: Seq<char>,
}

/// A mailbox address: the local part (quotes removed, otherwise verbatim) and
/// the domain.
#[derive(Debug)]
pub struct Mailbox {
    pub local: String,
    pub domain: Domain,
}

impl View for Mailbox {
    type V = MailboxView;

    open spec fn view(&self) -> MailboxView {
        MailboxView { local: self.local@, domain: self.domain@ }
    }
}

/// Two mailboxes are equal if their local parts are the same text and their
/// domains are equal.
impl PartialEq for Mailbox {
    fn eq(&self, other: &Self) -> (r: bool) {
        self.local == other.local && self.domain == other.domain
    }
}

impl vstd::std_specs::cmp::PartialEqSpecImpl for Mailbox {
    open spec fn obeys_eq_spec() -> bool {
        true
    }

    open spec fn eq_spec(&self, other: &Self) -> bool {
        self@ == other@
    }
}

impl Clone for Mailbox {
    fn clone(&self) -> (r: Self)
        ensures
            r@ == self@,
    {
        Mailbox { local: self.local.clone(), domain: self.domain.clone() }
    }
}

/// The view of an optional domain.
pub open spec fn domain_view(d: Option<Domain>) -> Option<Seq<char>> {
    match d {
        Some(d) => Some(d@),
        None => None,
    }
}

/// The view of an optional mailbox.
pub open spec fn mailbox_view(m: Option<Mailbox>) -> Option<MailboxView> {
    match m {
        Some(m) => Some(m@),
        None => None,
    }
}

/// The mathematical content of a [`Command`].
pub enum CommandView {
    HELO(Seq<char>),
    EHLO(Seq<char>),
    RCPT(MailboxView),
    FROM(MailboxView),
    DATA,
    RSET,
    QUIT,
}

/// All command types.
#[non_exhaustive]
#[derive(Debug, PartialEq)]
pub enum Command {
    HELO(Domain),
    EHLO(Domain),
    RCPT(Mailbox),
    FROM(Mailbox),
    DATA,
    RSET,
    QUIT,
}

impl View for Command {
    type V = CommandView;

    open spec fn view(&self) -> CommandView {
        match self {
            Command::HELO(d) => CommandView::HELO(d@),
            Command::EHLO(d) => CommandView::EHLO(d@),
            Command::RCPT(m) => CommandView::RCPT(m@),
            Command::FROM(m) => CommandView::FROM(m@),
            Command::DATA => CommandView::DATA,
            Command::RSET => CommandView::RSET,
            Command::QUIT => CommandView::QUIT,
        }
    }
}

impl Clone for Command {
    fn clone(&self) -> (r: Self)
        ensures
            r@ == self@,
    {
        match self {
            Command::HELO(d) => Command::HELO(d.clone()),
            Command::EHLO(d) => Command::EHLO(d.clone()),
            Command::RCPT(m) => Command::RCPT(m.clone()),
            Command::FROM(m) => Command::FROM(m.clone()),
            Command::DATA => Command::DATA,
            Command::RSET => Command::RSET,
            Command::QUIT => Command::QUIT,
        }
    }
}

/// The text of a mailbox: local part, `@`, domain.
pub open spec fn address_text(mailbox: MailboxView) -> Seq<char> {
    mailbox.local + seq!['@'] + mailbox.domain
}

/// Append `local@domain`.
pub(crate) fn append_address(text: &mut String, local: &str, domain: &str)
    ensures
        final(text)@ == old(text)@ + (local@ + seq!['@'] + domain@),
{
    proof {
        reveal_strlit("@");
        assert("@"@ =~= seq!['@']);
    }
    text.append(local);
    text.append("@");
    text.append(domain);
    assert(text@ =~= old(text)@ + (local@ + seq!['@'] + domain@));
}

/// Append a line feed.
pub(crate) fn append_newline(text: &mut String)
    ensures
        final(text)@ == old(text)@.push('\n'),
{
    proof {
        reveal_strlit("\n");
        assert("\n"@ =~= seq!['\n']);
    }
    text.append("\n");
    assert(text@ =~= old(text)@.push('\n'));
}

/// The printed form of a command.  A greeting shows its domain in the debug
/// form of the type that holds it, whose name is `holder`; a sender or a
/// recipient shows as an address; the line ends in a line feed.
pub open spec fn command_text(command: CommandView, holder: Seq<char>) -> Seq<char> {
    match command {
        CommandView::EHLO(domain) => ("EHLO "@ + holder + seq!['('] + debug_of(domain) + seq![
            ')',
        ]).push('\n'),
        CommandView::HELO(domain) => ("HELO "@ + holder + seq!['('] + debug_of(domain) + seq![
            ')',
        ]).push('\n'),
        CommandView::FROM(mailbox) => ("MAIL FROM: "@ + address_text(mailbox)).push('\n'),
        CommandView::RCPT(mailbox) => ("RCPT TO: "@ + address_text(mailbox)).push('\n'),
        CommandView::DATA => "DATA"@.push('\n'),
        CommandView::RSET => "RSET"@.push('\n'),
        CommandView::QUIT => "QUIT"@.push('\n'),
    }
}

/// Append a domain in the debug form of the type named `holder`.
pub(crate) fn append_held_domain(text: &mut String, holder: &str, domain: &str)
    ensures
        final(text)@ == old(text)@ + holder@ + seq!['('] + debug_of(domain@) + seq![')'],
{
    proof {
        reveal_strlit("(");
        reveal_strlit(")");
        assert("("@ =~= seq!['(']);
        assert(")"@ =~= seq![')']);
    }
    let quoted = debug_form(domain);
    text.append(holder);
    text.append("(");
    text.append(quoted.as_str());
    text.append(")");
}

impl Command {
    /// Print the command.
    pub fn to_string(&self) -> (r: String)
        ensures
            r@ == command_text(self@, "Domain"@),
    {
        let mut r = String::new();
        match self {
            Command::EHLO(d) => {
                r.append("EHLO ");
                append_held_domain(&mut r, "Domain", d.0.as_str());
            },
            Command::HELO(d) => {
                r.append("HELO ");
                append_held_domain(&mut r, "Domain", d.0.as_str());
            },
            Command::FROM(m) => {
                r.append("MAIL FROM: ");
                append_address(&mut r, m.local.as_str(), m.domain.0.as_str());
            },
            Command::RCPT(m) => {
                r.append("RCPT TO: ");
                append_address(&mut r, m.local.as_str(), m.domain.0.as_str());
            },
            Command::DATA => r.append("DATA"),
            Command::RSET => r.append("RSET"),
            Command::QUIT => r.append("QUIT"),
        }
        append_newline(&mut r);
        r
    }
}

/// The view of an optional command.
pub open spec fn command_view(c: Option<Command>) -> Option<CommandView> {
    match c {
        Some(c) => Some(c@),
        None => None,
    }
}

} // verus!
