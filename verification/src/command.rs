//! The states of a conversation, the commands, and what each command leads to.

use crate::text::{decimal, decimal_text, second_word, starts_with, text_of, words};
use vstd::prelude::*;

verus! {

/// The possible states during an SMTP session.
#[derive(Debug, PartialEq, Eq, Structural, Clone, Copy)]
pub enum SmtpState {
    /// Initial state immediately after connection. The client should send HELO or EHLO.
    Initial,
    /// State after HELO or EHLO, and again after a message. The client should send MAIL FROM.
    Greeted,
    /// State after a valid `MAIL FROM` command. The client should send RCPT TO.
    MailFrom,
    /// State after at least one valid `RCPT TO` command. The client can send more RCPT TO or
    /// DATA.
    RcptTo,
    /// State after a `DATA` command has been acknowledged (354). The client sends the message.
    Data,
}

/// The outcome of processing a single SMTP command line.
#[derive(Debug)]
pub enum SmtpCommandResult {
    /// Command processed, continue reading the next command.
    Continue,
    /// QUIT command received, the connection should be closed.
    Quit,
    /// HELO or EHLO command processed, with the domain claimed by the client, or `"client"` when
    /// the domain was omitted.
    Helo(String),
    /// MAIL FROM command processed, with the sender's email address.
    MailFrom(String),
    /// RCPT TO command processed, with the recipient's email address.
    RcptTo(String),
    /// DATA command received, the client will start sending the message.
    DataStart,
    /// A line of the message received during the DATA state.
    DataLine(String),
    /// End-of-data marker (`.`) received, the message is complete.
    DataEnd,
    /// STARTTLS command received, the server should initiate the TLS handshake.
    StartTls,
}

/// [`SmtpCommandResult`] over mathematical texts.
pub enum ResultView {
    Continue,
    Quit,
    Helo(Seq<char>),
    MailFrom(Seq<char>),
    RcptTo(Seq<char>),
    DataStart,
    DataLine(Seq<char>),
    DataEnd,
    StartTls,
}

impl View for SmtpCommandResult {
    type V = ResultView;

    open spec fn view(&self) -> ResultView {
        match *self {
            SmtpCommandResult::Continue => ResultView::Continue,
            SmtpCommandResult::Quit => ResultView::Quit,
            SmtpCommandResult::Helo(domain) => ResultView::Helo(domain@),
            SmtpCommandResult::MailFrom(email) => ResultView::MailFrom(email@),
            SmtpCommandResult::RcptTo(email) => ResultView::RcptTo(email@),
            SmtpCommandResult::DataStart => ResultView::DataStart,
            SmtpCommandResult::DataLine(line) => ResultView::DataLine(line@),
            SmtpCommandResult::DataEnd => ResultView::DataEnd,
            SmtpCommandResult::StartTls => ResultView::StartTls,
        }
    }
}

/// What a command line leads to.
#[derive(Debug)]
pub struct CommandStep {
    /// The lines to send to the client, in order, without their line ends.
    pub replies: Vec<String>,
    /// The state of the session once the replies have been sent.
    pub next_state: SmtpState,
    /// The outcome for the caller once the replies have been sent.
    pub result: SmtpCommandResult,
}

/// [`CommandStep`] over mathematical texts.
pub struct StepView {
    pub replies: Seq<Seq<char>>,
    pub next_state: SmtpState,
    pub result: ResultView,
}

/// The texts of a list of lines.
pub open spec fn texts(lines: Vec<String>) -> Seq<Seq<char>> {
    Seq::new(lines@.len(), |i: int| lines@[i]@)
}

impl View for CommandStep {
    type V = StepView;

    open spec fn view(&self) -> StepView {
        StepView {
            replies: texts(self.replies),
            next_state: self.next_state,
            result: self.result@,
        }
    }
}

/// The commands that a line can stand for.
#[derive(Debug, PartialEq, Eq, Structural, Clone, Copy)]
pub enum Command {
    Helo,
    Ehlo,
    MailFrom,
    StartTls,
    RcptTo,
    Data,
    Quit,
    /// The line that ends a message.
    EndOfData,
    /// A line of a message.
    Content,
    /// A line that the state does not allow, or that is no command at all.
    Unexpected,
}

impl Command {
    /// Tells whether the command carries an address.
    pub open spec fn has_address(self) -> bool {
        self == Command::MailFrom || self == Command::RcptTo
    }
}

/// The command that `line`, with `upper` for its capital form, stands for in `state`.
pub open spec fn recognized(state: SmtpState, line: Seq<char>, upper: Seq<char>) -> Command {
    match state {
        SmtpState::Initial => if "HELO"@.is_prefix_of(upper) {
            Command::Helo
        } else if "EHLO"@.is_prefix_of(upper) {
            Command::Ehlo
        } else if "QUIT"@.is_prefix_of(upper) {
            Command::Quit
        } else {
            Command::Unexpected
        },
        SmtpState::Greeted => if "MAIL FROM:"@.is_prefix_of(upper) {
            Command::MailFrom
        } else if "STARTTLS"@.is_prefix_of(upper) {
            Command::StartTls
        } else if "QUIT"@.is_prefix_of(upper) {
            Command::Quit
        } else {
            Command::Unexpected
        },
        SmtpState::MailFrom => if "RCPT TO:"@.is_prefix_of(upper) {
            Command::RcptTo
        } else if "QUIT"@.is_prefix_of(upper) {
            Command::Quit
        } else {
            Command::Unexpected
        },
        SmtpState::RcptTo => if "DATA"@.is_prefix_of(upper) {
            Command::Data
        } else if "RCPT TO:"@.is_prefix_of(upper) {
            Command::RcptTo
        } else if "QUIT"@.is_prefix_of(upper) {
            Command::Quit
        } else {
            Command::Unexpected
        },
        SmtpState::Data => if line == "."@ {
            Command::EndOfData
        } else {
            Command::Content
        },
    }
}

/// The domain that a HELO or EHLO line claims.
pub open spec fn claimed_domain(line: Seq<char>) -> Seq<char> {
    if words(line).len() > 1 {
        words(line)[1]
    } else {
        "client"@
    }
}

/// The reply to a line that `state` does not allow.
pub open spec fn rejection(state: SmtpState) -> Seq<char> {
    match state {
        SmtpState::Greeted => "503 Bad sequence of commands (expected MAIL FROM or STARTTLS)"@,
        SmtpState::MailFrom => "503 Bad sequence of commands (expected RCPT TO)"@,
        SmtpState::RcptTo => "503 Bad sequence of commands (expected DATA or RCPT TO)"@,
        _ => "500 Command not recognized or out of sequence"@,
    }
}

/// What `line` leads to in `state`, where `upper` is its capital form, `email` the address found
/// in it, and `max_size` the size of message that the server announces.
pub open spec fn command_step(
    state: SmtpState,
    max_size: u64,
    line: Seq<char>,
    upper: Seq<char>,
    email: Option<Seq<char>>,
) -> StepView {
    match recognized(state, line, upper) {
        Command::Helo => StepView {
            replies: seq!["250 MailLaser"@],
            next_state: SmtpState::Greeted,
            result: ResultView::Helo(claimed_domain(line)),
        },
        Command::Ehlo => StepView {
            replies: seq![
                "250-MailLaser greets "@ + claimed_domain(line),
                "250-SIZE "@ + decimal(max_size as nat),
                "250 STARTTLS"@,
            ],
            next_state: SmtpState::Greeted,
            result: ResultView::Helo(claimed_domain(line)),
        },
        Command::MailFrom => match email {
            Some(sender) => StepView {
                replies: Seq::empty(),
                next_state: SmtpState::MailFrom,
                result: ResultView::MailFrom(sender),
            },
            None => StepView {
                replies: seq!["501 Syntax error in MAIL FROM parameters"@],
                next_state: state,
                result: ResultView::Continue,
            },
        },
        Command::StartTls => StepView {
            replies: seq!["220 Go ahead"@],
            next_state: state,
            result: ResultView::StartTls,
        },
        Command::RcptTo => match email {
            Some(recipient) => StepView {
                replies: Seq::empty(),
                next_state: SmtpState::RcptTo,
                result: ResultView::RcptTo(recipient),
            },
            None => StepView {
                replies: seq!["501 Syntax error in RCPT TO parameters"@],
                next_state: state,
                result: ResultView::Continue,
            },
        },
        Command::Data => StepView {
            replies: seq!["354 Start mail input; end with <CRLF>.<CRLF>"@],
            next_state: SmtpState::Data,
            result: ResultView::DataStart,
        },
        Command::Quit => StepView {
            replies: seq!["221 Bye"@],
            next_state: state,
            result: ResultView::Quit,
        },
        Command::EndOfData => StepView {
            replies: Seq::empty(),
            next_state: SmtpState::Greeted,
            result: ResultView::DataEnd,
        },
        Command::Content => StepView {
            replies: Seq::empty(),
            next_state: state,
            result: ResultView::DataLine(line),
        },
        Command::Unexpected => StepView {
            replies: seq![rejection(state)],
            next_state: state,
            result: ResultView::Continue,
        },
    }
}

/// Tells whether `line` is the line that ends a message.
fn is_end_of_data(line: &str) -> (r: bool)
    ensures
        r == (line@ == "."@),
{
    proof {
        reveal_strlit(".");
    }
    let r: bool = line.unicode_len() == 1 && line.get_char(0) == '.';
    assert(r ==> line@ =~= "."@);
    r
}

/// Tells which command `line`, with `upper` for its capital form, stands for in `state`.
pub fn recognize(state: SmtpState, line: &str, upper: &str) -> (r: Command)
    ensures
        r == recognized(state, line@, upper@),
{
    match state {
        SmtpState::Initial => if starts_with(upper, "HELO") {
            Command::Helo
        } else if starts_with(upper, "EHLO") {
            Command::Ehlo
        } else if starts_with(upper, "QUIT") {
            Command::Quit
        } else {
            Command::Unexpected
        },
        SmtpState::Greeted => if starts_with(upper, "MAIL FROM:") {
            Command::MailFrom
        } else if starts_with(upper, "STARTTLS") {
            Command::StartTls
        } else if starts_with(upper, "QUIT") {
            Command::Quit
        } else {
            Command::Unexpected
        },
        SmtpState::MailFrom => if starts_with(upper, "RCPT TO:") {
            Command::RcptTo
        } else if starts_with(upper, "QUIT") {
            Command::Quit
        } else {
            Command::Unexpected
        },
        SmtpState::RcptTo => if starts_with(upper, "DATA") {
            Command::Data
        } else if starts_with(upper, "RCPT TO:") {
            Command::RcptTo
        } else if starts_with(upper, "QUIT") {
            Command::Quit
        } else {
            Command::Unexpected
        },
        SmtpState::Data => if is_end_of_data(line) {
            Command::EndOfData
        } else {
            Command::Content
        },
    }
}

/// The list of one line.
fn one_line(line: &str) -> (r: Vec<String>)
    ensures
        texts(r) == seq![line@],
{
    let mut r: Vec<String> = Vec::new();
    r.push(line.to_owned());
    assert(texts(r) =~= seq![line@]);
    r
}

/// The domain that a HELO or EHLO line claims.
fn domain_of(line: &str) -> (r: String)
    ensures
        r@ == claimed_domain(line@),
{
    match second_word(line) {
        Some(domain) => domain,
        None => "client".to_owned(),
    }
}

/// The reply to EHLO.
fn ehlo_lines(domain: &str, max_size: u64) -> (r: Vec<String>)
    ensures
        texts(r) == seq![
            "250-MailLaser greets "@ + domain@,
            "250-SIZE "@ + decimal(max_size as nat),
            "250 STARTTLS"@,
        ],
{
    let mut r: Vec<String> = Vec::new();
    r.push("250-MailLaser greets ".to_owned().concat(domain));
    r.push("250-SIZE ".to_owned().concat(decimal_text(max_size).as_str()));
    r.push("250 STARTTLS".to_owned());
    assert(texts(r) =~= seq![
        "250-MailLaser greets "@ + domain@,
        "250-SIZE "@ + decimal(max_size as nat),
        "250 STARTTLS"@,
    ]);
    r
}

/// The step to `state` with one reply.
fn reply_once(state: SmtpState, reply: &str, result: SmtpCommandResult) -> (r: CommandStep)
    ensures
        r@ == (StepView { replies: seq![reply@], next_state: state, result: result@ }),
{
    CommandStep { replies: one_line(reply), next_state: state, result }
}

/// The step to `state` that says nothing to the client.
fn silent(state: SmtpState, result: SmtpCommandResult) -> (r: CommandStep)
    ensures
        r@ == (StepView { replies: Seq::empty(), next_state: state, result: result@ }),
{
    let replies: Vec<String> = Vec::new();
    assert(texts(replies) =~= Seq::<Seq<char>>::empty());
    CommandStep { replies, next_state: state, result }
}

/// Works out what `line` leads to in `state`, where `upper` is its capital form, `email` the
/// address found in it, and `max_size` the size of message that the server announces.
pub fn respond(
    state: SmtpState,
    max_size: u64,
    line: &str,
    upper: &str,
    email: Option<String>,
) -> (step: CommandStep)
    ensures
        step@ == command_step(
            state,
            max_size,
            line@,
            upper@,
            text_of(email),
        ),
{
    match recognize(state, line, upper) {
        Command::Helo => reply_once(
            SmtpState::Greeted,
            "250 MailLaser",
            SmtpCommandResult::Helo(domain_of(line)),
        ),
        Command::Ehlo => {
            let domain: String = domain_of(line);
            CommandStep {
                replies: ehlo_lines(domain.as_str(), max_size),
                next_state: SmtpState::Greeted,
                result: SmtpCommandResult::Helo(domain),
            }
        },
        Command::MailFrom => match email {
            Some(sender) => silent(SmtpState::MailFrom, SmtpCommandResult::MailFrom(sender)),
            None => reply_once(
                state,
                "501 Syntax error in MAIL FROM parameters",
                SmtpCommandResult::Continue,
            ),
        },
        Command::StartTls => reply_once(state, "220 Go ahead", SmtpCommandResult::StartTls),
        Command::RcptTo => match email {
            Some(recipient) => silent(SmtpState::RcptTo, SmtpCommandResult::RcptTo(recipient)),
            None => reply_once(
                state,
                "501 Syntax error in RCPT TO parameters",
                SmtpCommandResult::Continue,
            ),
        },
        Command::Data => reply_once(
            SmtpState::Data,
            "354 Start mail input; end with <CRLF>.<CRLF>",
            SmtpCommandResult::DataStart,
        ),
        Command::Quit => reply_once(state, "221 Bye", SmtpCommandResult::Quit),
        Command::EndOfData => silent(SmtpState::Greeted, SmtpCommandResult::DataEnd),
        Command::Content => silent(state, SmtpCommandResult::DataLine(line.to_owned())),
        Command::Unexpected => reply_once(
            state,
            match state {
                SmtpState::Greeted =>
                    "503 Bad sequence of commands (expected MAIL FROM or STARTTLS)",
                SmtpState::MailFrom => "503 Bad sequence of commands (expected RCPT TO)",
                SmtpState::RcptTo => "503 Bad sequence of commands (expected DATA or RCPT TO)",
                _ => "500 Command not recognized or out of sequence",
            },
            SmtpCommandResult::Continue,
        ),
    }
}

} // verus!
