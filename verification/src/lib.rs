//! The server side of an SMTP conversation, without its input and output.
//!
//! [`protocol::SmtpProtocol`] takes the lines that a client sends and says what to answer; reading
//! from the connection and writing to it is left to the caller. [`command`] defines the states,
//! the commands and the replies, [`address`] finds the mailbox in an envelope command, [`text`]
//! has the string work that both rest on, and [`laws`] states and proves what holds of the
//! protocol as a whole.

pub mod address;
pub mod command;
pub mod laws;
pub mod protocol;
pub mod text;
