//! What the parser reads out of a buffer, borrowed from it: the arguments of
//! commands and the commands themselves, before they are copied into values
//! that outlive the buffer.

use vstd::prelude::*;
use vstd::string::*;
use crate::command::{
    Command, CommandView, Domain, Mailbox, MailboxView, address_text, append_address,
    append_held_domain, append_newline, command_text,
};

verus! {

/// A domain, as a slice of the input.
#[derive(Debug, PartialEq)]
pub struct DomainParam<'a>(pub &'a str);

impl<'a> View for DomainParam<'a> {
    type V = Seq<char>;

    open spec fn view(&self) -> Seq<char> {
        self.0@
    }
}

impl<'a> DomainParam<'a> {
    /// The domain as a value of its own.
    pub fn to_domain(&self) -> (r: Domain)
        ensures
            r@ == self@,
    {
        Domain(self.0.to_owned())
    }
}

/// A mailbox, as two slices of the input: the local part and the domain.
#[derive(Debug, PartialEq)]
pub struct MailboxParam<'a>(pub &'a str, pub DomainParam<'a>);

impl<'a> View for MailboxParam<'a> {
    type V = MailboxView;

    open spec fn view(&self) -> MailboxView {
        MailboxView { local: self.0@, domain: self.1@ }
    }
}

impl<'a> MailboxParam<'a> {
    /// The mailbox as a value of its own.
    pub fn to_mailbox(&self) -> (r: Mailbox)
        ensures
            r@ == self@,
    {
        Mailbox { local: self.0.to_owned(), domain: self.1.to_domain() }
    }
}

/// The parameter of a command: a domain or a mailbox.
#[derive(Debug, PartialEq)]
pub enum ParseParam<'a> {
    Domain(DomainParam<'a>),
    Mailbox(MailboxParam<'a>),
}

impl<'a> ParseParam<'a> {
    /// The printed form of the parameter: a line of its own.
    pub open spec fn text(&self) -> Seq<char> {
        match self {
            ParseParam::Domain(domain) => domain@.push('\n'),
            ParseParam::Mailbox(mailbox) => address_text(mailbox@).push('\n'),
        }
    }

    /// Print the parameter.
    pub fn to_string(&self) -> (r: String)
        ensures
            r@ == self.text(),
    {
        let mut r = String::new();
        match self {
            ParseParam::Domain(domain) => {
                r.append(domain.0);
            },
            ParseParam::Mailbox(mailbox) => {
                append_address(&mut r, mailbox.0, mailbox.1.0);
            },
        }
        append_newline(&mut r);
        r
    }
}

/// A command as it is read from a line, borrowed from it.
#[derive(Debug, PartialEq)]
pub enum ParseCommand<'a> {
    EHLO(DomainParam<'a>),
    HELO(DomainParam<'a>),
    FROM(MailboxParam<'a>),
    RCPT(MailboxParam<'a>),
    DATA,
    RSET,
    QUIT,
}

impl<'a> View for ParseCommand<'a> {
    type V = CommandView;

    open spec fn view(&self) -> CommandView {
        match self {
            ParseCommand::EHLO(d) => CommandView::EHLO(d@),
            ParseCommand::HELO(d) => CommandView::HELO(d@),
            ParseCommand::FROM(m) => CommandView::FROM(m@),
            ParseCommand::RCPT(m) => CommandView::RCPT(m@),
            ParseCommand::DATA => CommandView::DATA,
            ParseCommand::RSET => CommandView::RSET,
            ParseCommand::QUIT => CommandView::QUIT,
        }
    }
}

impl<'a> ParseCommand<'a> {
    /// The command as a value of its own.
    pub fn to_command(&self) -> (r: Command)
        ensures
            r@ == self@,
    {
        match self {
            ParseCommand::EHLO(d) => Command::EHLO(d.to_domain()),
            ParseCommand::HELO(d) => Command::HELO(d.to_domain()),
            ParseCommand::FROM(m) => Command::FROM(m.to_mailbox()),
            ParseCommand::RCPT(m) => Command::RCPT(m.to_mailbox()),
            ParseCommand::DATA => Command::DATA,
            ParseCommand::RSET => Command::RSET,
            ParseCommand::QUIT => Command::QUIT,
        }
    }

    /// Print the command.
    pub fn to_string(&self) -> (r: String)
        ensures
            r@ == command_text(self@, "DomainParam"@),
    {
        let mut r = String::new();
        match self {
            ParseCommand::EHLO(d) => {
                r.append("EHLO ");
                append_held_domain(&mut r, "DomainParam", d.0);
            },
            ParseCommand::HELO(d) => {
                r.append("HELO ");
                append_held_domain(&mut r, "DomainParam", d.0);
            },
            ParseCommand::FROM(m) => {
                r.append("MAIL FROM: ");
                append_address(&mut r, m.0, m.1.0);
            },
            ParseCommand::RCPT(m) => {
                r.append("RCPT TO: ");
                append_address(&mut r, m.0, m.1.0);
            },
            ParseCommand::DATA => r.append("DATA"),
            ParseCommand::RSET => r.append("RSET"),
            ParseCommand::QUIT => r.append("QUIT"),
        }
        append_newline(&mut r);
        r
    }
}

/// The view of an optional borrowed command.
pub open spec fn parsed_view(c: Option<ParseCommand>) -> Option<CommandView> {
    match c {
        Some(c) => Some(c@),
        None => None,
    }
}

} // verus!
