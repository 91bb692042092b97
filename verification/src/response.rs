//! The replies the server can send, and their exact wire form.

use vstd::prelude::*;
use vstd::string::*;
use crate::parser::lines::crlf;

verus! {

/// All responses possible from the server.
#[derive(Debug, PartialEq)]
pub enum Response {
    Goodbye,
    Okay,
    StartData,
    TooManyRecipients,
    SyntaxError,
    OutOfSequence,
    NotImplemented,
    RecipientNotLocal,
    InvalidRecipient,
    TransactionFailed,
    Greeting(String),
    Helo(String),
    Ehlo(String),
}

/// The mathematical content of a [`Response`].
pub enum ResponseView {
    Goodbye,
    Okay,
    StartData,
    TooManyRecipients,
    SyntaxError,
    OutOfSequence,
    NotImplemented,
    RecipientNotLocal,
    InvalidRecipient,
    TransactionFailed,
    Greeting(Seq<char>),
    Helo(Seq<char>),
    Ehlo(Seq<char>),
}

impl View for Response {
    type V = ResponseView;

    open spec fn view(&self) -> ResponseView {
        match self {
            Response::Goodbye => ResponseView::Goodbye,
            Response::Okay => ResponseView::Okay,
            Response::StartData => ResponseView::StartData,
            Response::TooManyRecipients => ResponseView::TooManyRecipients,
            Response::SyntaxError => ResponseView::SyntaxError,
            Response::OutOfSequence => ResponseView::OutOfSequence,
            Response::NotImplemented => ResponseView::NotImplemented,
            Response::RecipientNotLocal => ResponseView::RecipientNotLocal,
            Response::InvalidRecipient => ResponseView::InvalidRecipient,
            Response::TransactionFailed => ResponseView::TransactionFailed,
            Response::Greeting(name) => ResponseView::Greeting(name@),
            Response::Helo(name) => ResponseView::Helo(name@),
            Response::Ehlo(name) => ResponseView::Ehlo(name@),
        }
    }
}

/// The view of an optional reply.
pub open spec fn option_response_view(r: Option<Response>) -> Option<ResponseView> {
    match r {
        Some(r) => Some(r@),
        None => None,
    }
}

impl ResponseView {
    /// The reply's text before the line terminator: the reply code, a space and
    /// the message.
    pub open spec fn text(self) -> Seq<char> {
        match self {
            ResponseView::Goodbye => "221 Goodbye!"@,
            ResponseView::Okay => "250 Ok"@,
            ResponseView::StartData => "354 Go ahead"@,
            ResponseView::TooManyRecipients => "452 Too many recipients"@,
            ResponseView::SyntaxError => "500 Syntax error"@,
            ResponseView::OutOfSequence => "503 Command out of sequence"@,
            ResponseView::NotImplemented => "504 Command not implemented"@,
            ResponseView::RecipientNotLocal => "550 User not local"@,
            ResponseView::InvalidRecipient => "554 No valid recipient"@,
            ResponseView::TransactionFailed => "554 Transaction failed"@,
            ResponseView::Greeting(name) => "220 "@ + name + " ESMTP"@,
            ResponseView::Helo(name) => "250 "@ + name + " ESMTP"@,
            ResponseView::Ehlo(name) => "250 "@ + name + " ESMTP"@,
        }
    }

    /// The bytes that go on the wire: the text followed by CR LF.
    pub open spec fn wire(self) -> Seq<char> {
        self.text() + crlf()
    }
}

impl Response {
    /// Serialise the reply to its wire form.
    pub fn to_response(&self) -> (r: String)
        ensures
            r@ == self@.wire(),
    {
        let mut r = String::new();
        match self {
            Response::Goodbye => r.append("221 Goodbye!"),
            Response::Okay => r.append("250 Ok"),
            Response::StartData => r.append("354 Go ahead"),
            Response::TooManyRecipients => r.append("452 Too many recipients"),
            Response::SyntaxError => r.append("500 Syntax error"),
            Response::OutOfSequence => r.append("503 Command out of sequence"),
            Response::NotImplemented => r.append("504 Command not implemented"),
            Response::RecipientNotLocal => r.append("550 User not local"),
            Response::InvalidRecipient => r.append("554 No valid recipient"),
            Response::TransactionFailed => r.append("554 Transaction failed"),
            Response::Greeting(name) => {
                r.append("220 ");
                r.append(name.as_str());
                r.append(" ESMTP");
            },
            Response::Helo(name) => {
                r.append("250 ");
                r.append(name.as_str());
                r.append(" ESMTP");
            },
            Response::Ehlo(name) => {
                r.append("250 ");
                r.append(name.as_str());
                r.append(" ESMTP");
            },
        }
        proof {
            reveal_strlit("\r\n");
            assert("\r\n"@ =~= crlf());
        }
        r.append("\r\n");
        r
    }
}

} // verus!
