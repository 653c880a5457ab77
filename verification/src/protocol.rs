//! The protocol handler: one SMTP session, seen without its connection.
//!
//! The handler decides; whoever owns the connection reads, writes and reports back. A command
//! takes two calls: [`SmtpProtocol::process_command`] says what to send, and, once it has been
//! sent, [`SmtpProtocol::finish_command`] moves the session on.

use crate::address::{address_spec, email_fits, email_in, first_mailbox, parse_addresses};
use crate::command::{
    Command, CommandStep, SmtpCommandResult, SmtpState, command_step, recognize, recognized, respond,
};
use crate::text::{
    CharClass, capitals_fit, text_of, to_uppercase, trim_end, trim_end_matches, uppercase,
};
use vstd::prelude::*;
use vstd::utf8::encode_utf8;

verus! {

/// The state of a single SMTP client session.
#[derive(Debug)]
pub struct SmtpProtocol {
    /// The current state of the conversation.
    pub state: SmtpState,
    /// The size of message announced in the EHLO `SIZE` extension.
    pub max_message_size_bytes: u64,
}

/// The bytes of `line` on the wire: its UTF-8 form with CRLF behind it.
pub open spec fn wire_form(line: Seq<char>) -> Seq<u8> {
    encode_utf8(line + "\r\n"@)
}

/// The line in a text that was read: all of it but the line breaks at its end.
pub open spec fn line_in(buffer: Seq<char>) -> Seq<char> {
    trim_end(buffer, CharClass::LineBreak)
}

impl SmtpProtocol {
    /// Creates a handler for a new session, in state [`SmtpState::Initial`].
    ///
    /// `max_message_size_bytes` is advertised in the EHLO `SIZE` extension.
    pub fn new(max_message_size_bytes: u64) -> (r: Self)
        ensures
            r.state == SmtpState::Initial,
            r.max_message_size_bytes == max_message_size_bytes,
    {
        SmtpProtocol { state: SmtpState::Initial, max_message_size_bytes }
    }

    /// The bytes of the greeting (220) to send as soon as the connection is there.
    ///
    /// The session stays in its state: it is HELO or EHLO that moves it on.
    pub fn send_greeting(&self) -> (r: Vec<u8>)
        ensures
            r@ == wire_form("220 MailLaser SMTP Server Ready"@),
    {
        self.write_line("220 MailLaser SMTP Server Ready")
    }

    /// Works out what a command line from the client (without CRLF) leads to in the current
    /// state: the replies to send, and then the next state and the outcome.
    pub fn process_command(&self, line: &str) -> (step: CommandStep)
        ensures
            step@ == command_step(
                self.state,
                self.max_message_size_bytes,
                line@,
                uppercase(line@),
                email_in(line@),
            ),
            self.state != SmtpState::Data ==> capitals_fit(line@, uppercase(line@)),
            recognized(self.state, line@, uppercase(line@)).has_address() ==> email_fits(
                line@,
                email_in(line@),
            ),
    {
        if self.state == SmtpState::Data {
            return respond(self.state, self.max_message_size_bytes, line, "", None);
        }
        let upper: String = to_uppercase(line);
        let email: Option<String> = match recognize(self.state, line, upper.as_str()) {
            Command::MailFrom => self.extract_email(line),
            Command::RcptTo => self.extract_email(line),
            _ => None,
        };
        respond(self.state, self.max_message_size_bytes, line, upper.as_str(), email)
    }

    /// Ends the command that led to `step`, where `sent` tells how sending its replies went.
    ///
    /// The session moves on only if all of them were sent; otherwise it stays, and the error
    /// is handed back.
    pub fn finish_command<E>(&mut self, step: CommandStep, sent: Result<(), E>) -> (r: Result<
        SmtpCommandResult,
        E,
    >)
        ensures
            final(self).max_message_size_bytes == old(self).max_message_size_bytes,
            match sent {
                Ok(_) => r == Ok::<SmtpCommandResult, E>(step.result) && final(self).state
                    == step.next_state,
                Err(e) => r == Err::<SmtpCommandResult, E>(e) && final(self).state == old(
                    self,
                ).state,
            },
    {
        match sent {
            Ok(_) => {
                self.state = step.next_state;
                Ok(step.result)
            },
            Err(e) => Err(e),
        }
    }

    /// The line in `buffer`, the text that one read of `bytes_read` bytes up to a line feed has
    /// given; empty if the connection is closed.
    pub fn read_line(&self, buffer: &str, bytes_read: usize) -> (r: String)
        ensures
            r@ == if bytes_read == 0 {
                Seq::empty()
            } else {
                line_in(buffer@)
            },
    {
        if bytes_read == 0 {
            String::new()
        } else {
            trim_end_matches(buffer, CharClass::LineBreak).to_owned()
        }
    }

    /// The bytes that send a single line: the line and CRLF.
    pub fn write_line(&self, line: &str) -> (r: Vec<u8>)
        ensures
            r@ == wire_form(line@),
    {
        let text: String = line.to_owned().concat("\r\n");
        text.as_str().as_bytes_vec()
    }

    /// Extracts the email address from a MAIL FROM or RCPT TO command line, such as
    /// `MAIL FROM:<user@example.com>` or `RCPT TO:<Name <user@example.com>>`.
    pub fn extract_email(&self, line: &str) -> (r: Option<String>)
        ensures
            text_of(r) == email_in(line@),
            email_fits(line@, text_of(r)),
    {
        match address_spec(line) {
            Some(spec) => first_mailbox(&parse_addresses(spec)),
            None => None,
        }
    }

    /// Returns the current state of the session.
    pub fn get_state(&self) -> (r: SmtpState)
        ensures
            r == self.state,
    {
        self.state
    }
}

} // verus!
