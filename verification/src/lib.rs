//! An embeddable SMTP receiving server core.
//!
//! The crate holds the protocol logic of an SMTP receiver: the command
//! grammar, the DATA body decoder and the per-connection session, written as
//! plain functions over strings and values and verified with Verus.  Socket
//! handling and the mail handler's asynchronous calls live with the caller,
//! which drives a [`SmtpSession`] by performing the [`Action`] it asks for and
//! reporting the outcome back.

pub mod command;
pub mod handler;
pub mod parser;
pub mod response;
pub mod session;
pub mod state;
pub mod text;

pub use handler::Handler;
pub use response::Response;
pub use session::{Action, Phase, SmtpSession};
pub use state::SmtpState;
