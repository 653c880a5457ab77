//! The conversation, line by line, over a connection held in memory.

use mail_laser::command::{SmtpCommandResult, SmtpState};
use mail_laser::protocol::SmtpProtocol;
use std::io::{BufRead, Cursor};

/// A session whose client speaks from `input` and whose replies land in `output`.
struct Session {
    core: SmtpProtocol,
    input: Cursor<Vec<u8>>,
    output: Vec<u8>,
}

impl Session {
    fn new(input: &[u8], max_message_size_bytes: u64) -> Session {
        Session {
            core: SmtpProtocol::new(max_message_size_bytes),
            input: Cursor::new(input.to_vec()),
            output: Vec::new(),
        }
    }

    fn send_greeting(&mut self) {
        let bytes = self.core.send_greeting();
        self.output.extend_from_slice(&bytes);
    }

    fn process_command(&mut self, line: &str) -> SmtpCommandResult {
        let step = self.core.process_command(line);
        for reply in &step.replies {
            let bytes = self.core.write_line(reply);
            self.output.extend_from_slice(&bytes);
        }
        self.core.finish_command::<()>(step, Ok(())).unwrap()
    }

    fn read_line(&mut self) -> String {
        let mut buffer = String::new();
        let bytes_read = self.input.read_line(&mut buffer).unwrap();
        self.core.read_line(&buffer, bytes_read)
    }

    fn write_line(&mut self, line: &str) {
        let bytes = self.core.write_line(line);
        self.output.extend_from_slice(&bytes);
    }

    fn extract_email(&self, line: &str) -> Option<String> {
        self.core.extract_email(line)
    }

    fn get_state(&self) -> SmtpState {
        self.core.get_state()
    }
}

fn create_test_protocol() -> Session {
    Session::new(b"", 26_214_400)
}

// HELO
#[test]
fn test_initial_helo_sets_greeted() {
    let mut protocol = create_test_protocol();
    assert_eq!(protocol.get_state(), SmtpState::Initial);
    let result = protocol.process_command("HELO example.com");
    assert!(matches!(result, SmtpCommandResult::Helo(ref d) if d == "example.com"));
    assert_eq!(protocol.get_state(), SmtpState::Greeted);
}

// EHLO
#[test]
fn test_initial_ehlo_sets_greeted() {
    let mut protocol = create_test_protocol();
    assert_eq!(protocol.get_state(), SmtpState::Initial);
    let result = protocol.process_command("EHLO example.com");
    assert!(matches!(result, SmtpCommandResult::Helo(ref d) if d == "example.com"));
    assert_eq!(protocol.get_state(), SmtpState::Greeted);
}

// Test STARTTLS command in the correct state (Greeted)
#[test]
fn test_greeted_starttls_accepted() {
    let mut protocol = create_test_protocol();
    // Manually set the state to Greeted for this test scenario
    protocol.core.state = SmtpState::Greeted;
    assert_eq!(protocol.get_state(), SmtpState::Greeted);

    let result = protocol.process_command("STARTTLS");

    // Expect the StartTls command result
    assert!(
        matches!(result, SmtpCommandResult::StartTls),
        "Expected StartTls result, got {:?}",
        result
    );
    // The state should remain Greeted, as the handshake happens *after* this command response.
    // The connection handler will take over for the TLS part.
    assert_eq!(
        protocol.get_state(),
        SmtpState::Greeted,
        "State should remain Greeted after STARTTLS command"
    );
}

// Test STARTTLS command in an incorrect state (e.g., MailFrom)
#[test]
fn test_mailfrom_starttls_rejected() {
    let mut protocol = create_test_protocol();
    protocol.core.state = SmtpState::MailFrom; // Set state manually
    assert_eq!(protocol.get_state(), SmtpState::MailFrom);

    let result = protocol.process_command("STARTTLS");

    // Expect a rejection (Continue means an error response was sent, loop continues)
    assert!(
        matches!(result, SmtpCommandResult::Continue),
        "Expected Continue result for rejected STARTTLS, got {:?}",
        result
    );
    // State should not change due to the invalid command sequence
    assert_eq!(
        protocol.get_state(),
        SmtpState::MailFrom,
        "State should remain MailFrom after rejected STARTTLS"
    );
}

// Test STARTTLS command in another incorrect state (e.g., RcptTo)
#[test]
fn test_rcptto_starttls_rejected() {
    let mut protocol = create_test_protocol();
    protocol.core.state = SmtpState::RcptTo; // Set state manually
    assert_eq!(protocol.get_state(), SmtpState::RcptTo);

    let result = protocol.process_command("STARTTLS");

    assert!(
        matches!(result, SmtpCommandResult::Continue),
        "Expected Continue result for rejected STARTTLS, got {:?}",
        result
    );
    assert_eq!(
        protocol.get_state(),
        SmtpState::RcptTo,
        "State should remain RcptTo after rejected STARTTLS"
    );
}

// Test STARTTLS command during DATA phase (should be treated as data)
#[test]
fn test_data_starttls_is_data() {
    let mut protocol = create_test_protocol();
    protocol.core.state = SmtpState::Data; // Set state manually
    assert_eq!(protocol.get_state(), SmtpState::Data);

    let result = protocol.process_command("STARTTLS");

    // In DATA state, any line not "." is data
    assert!(
        matches!(result, SmtpCommandResult::DataLine(ref line) if line == "STARTTLS"),
        "Expected DataLine result, got {:?}",
        result
    );
    assert_eq!(protocol.get_state(), SmtpState::Data);
}

// Test QUIT command works in Greeted state (important for STARTTLS flow)
#[test]
fn test_greeted_quit() {
    let mut protocol = create_test_protocol();
    protocol.core.state = SmtpState::Greeted;
    let result = protocol.process_command("QUIT");
    assert!(matches!(result, SmtpCommandResult::Quit));
    // State doesn't technically matter after Quit, but it shouldn't change unexpectedly
    assert_eq!(protocol.get_state(), SmtpState::Greeted);
}

// --- extract_email tests ---

#[test]
fn test_extract_email_angle_brackets() {
    let protocol = create_test_protocol();
    let result = protocol.extract_email("MAIL FROM:<user@example.com>");
    assert_eq!(result, Some("user@example.com".to_string()));
}

#[test]
fn test_extract_email_plain_address() {
    let protocol = create_test_protocol();
    let result = protocol.extract_email("MAIL FROM:user@example.com");
    assert_eq!(result, Some("user@example.com".to_string()));
}

#[test]
fn test_extract_email_with_display_name() {
    let protocol = create_test_protocol();
    let result = protocol.extract_email("MAIL FROM:<John Doe <john@example.com>>");
    assert_eq!(result, Some("john@example.com".to_string()));
}

#[test]
fn test_extract_email_malformed() {
    let protocol = create_test_protocol();
    let _result = protocol.extract_email("MAIL FROM:<not-an-email>");
    // mailparse may or may not parse this; the key behavior is it does not panic
    let result2 = protocol.extract_email("MAIL FROM:");
    assert!(result2.is_none(), "Empty address should return None");
}

#[test]
fn test_extract_email_rcpt_to() {
    let protocol = create_test_protocol();
    let result = protocol.extract_email("RCPT TO:<recipient@example.com>");
    assert_eq!(result, Some("recipient@example.com".to_string()));
}

#[test]
fn test_extract_email_rcpt_to_plain() {
    let protocol = create_test_protocol();
    let result = protocol.extract_email("RCPT TO:recipient@example.com");
    assert_eq!(result, Some("recipient@example.com".to_string()));
}

// --- Full state machine walkthrough ---

#[test]
fn test_full_smtp_transaction() {
    let mut protocol = create_test_protocol();
    assert_eq!(protocol.get_state(), SmtpState::Initial);

    let result = protocol.process_command("HELO example.com");
    assert!(matches!(result, SmtpCommandResult::Helo(ref d) if d == "example.com"));
    assert_eq!(protocol.get_state(), SmtpState::Greeted);

    let result = protocol.process_command("MAIL FROM:<sender@example.com>");
    assert!(
        matches!(result, SmtpCommandResult::MailFrom(ref email) if email == "sender@example.com")
    );
    assert_eq!(protocol.get_state(), SmtpState::MailFrom);

    let result = protocol.process_command("RCPT TO:<recipient@example.com>");
    assert!(
        matches!(result, SmtpCommandResult::RcptTo(ref email) if email == "recipient@example.com")
    );
    assert_eq!(protocol.get_state(), SmtpState::RcptTo);

    let result = protocol.process_command("DATA");
    assert!(matches!(result, SmtpCommandResult::DataStart));
    assert_eq!(protocol.get_state(), SmtpState::Data);

    let result = protocol.process_command("Subject: Test");
    assert!(matches!(result, SmtpCommandResult::DataLine(ref line) if line == "Subject: Test"));

    let result = protocol.process_command("");
    assert!(matches!(result, SmtpCommandResult::DataLine(ref line) if line.is_empty()));

    let result = protocol.process_command("Body of the email");
    assert!(
        matches!(result, SmtpCommandResult::DataLine(ref line) if line == "Body of the email")
    );

    let result = protocol.process_command(".");
    assert!(matches!(result, SmtpCommandResult::DataEnd));
    assert_eq!(protocol.get_state(), SmtpState::Greeted);
}

// --- Case insensitivity tests ---

#[test]
fn test_lowercase_helo() {
    let mut protocol = create_test_protocol();
    let result = protocol.process_command("helo example.com");
    assert!(matches!(result, SmtpCommandResult::Helo(ref d) if d == "example.com"));
    assert_eq!(protocol.get_state(), SmtpState::Greeted);
}

#[test]
fn test_lowercase_ehlo() {
    let mut protocol = create_test_protocol();
    let result = protocol.process_command("ehlo example.com");
    assert!(matches!(result, SmtpCommandResult::Helo(ref d) if d == "example.com"));
    assert_eq!(protocol.get_state(), SmtpState::Greeted);
}

#[test]
fn test_lowercase_mail_from() {
    let mut protocol = create_test_protocol();
    protocol.core.state = SmtpState::Greeted;
    let result = protocol.process_command("mail from:<user@example.com>");
    assert!(
        matches!(result, SmtpCommandResult::MailFrom(ref email) if email == "user@example.com")
    );
    assert_eq!(protocol.get_state(), SmtpState::MailFrom);
}

#[test]
fn test_lowercase_rcpt_to() {
    let mut protocol = create_test_protocol();
    protocol.core.state = SmtpState::MailFrom;
    let result = protocol.process_command("rcpt to:<user@example.com>");
    assert!(
        matches!(result, SmtpCommandResult::RcptTo(ref email) if email == "user@example.com")
    );
    assert_eq!(protocol.get_state(), SmtpState::RcptTo);
}

#[test]
fn test_lowercase_data() {
    let mut protocol = create_test_protocol();
    protocol.core.state = SmtpState::RcptTo;
    let result = protocol.process_command("data");
    assert!(matches!(result, SmtpCommandResult::DataStart));
    assert_eq!(protocol.get_state(), SmtpState::Data);
}

#[test]
fn test_lowercase_quit_initial() {
    let mut protocol = create_test_protocol();
    let result = protocol.process_command("quit");
    assert!(matches!(result, SmtpCommandResult::Quit));
}

#[test]
fn test_mixed_case_commands() {
    let mut protocol = create_test_protocol();
    let result = protocol.process_command("Helo example.com");
    assert!(matches!(result, SmtpCommandResult::Helo(ref d) if d == "example.com"));
    assert_eq!(protocol.get_state(), SmtpState::Greeted);

    let result = protocol.process_command("Mail From:<user@example.com>");
    assert!(
        matches!(result, SmtpCommandResult::MailFrom(ref email) if email == "user@example.com")
    );

    let result = protocol.process_command("Rcpt To:<rcpt@example.com>");
    assert!(
        matches!(result, SmtpCommandResult::RcptTo(ref email) if email == "rcpt@example.com")
    );

    let result = protocol.process_command("Data");
    assert!(matches!(result, SmtpCommandResult::DataStart));
    assert_eq!(protocol.get_state(), SmtpState::Data);
}

// --- QUIT in every state ---

#[test]
fn test_quit_in_initial_state() {
    let mut protocol = create_test_protocol();
    let result = protocol.process_command("QUIT");
    assert!(matches!(result, SmtpCommandResult::Quit));
}

#[test]
fn test_quit_in_mailfrom_state() {
    let mut protocol = create_test_protocol();
    protocol.core.state = SmtpState::MailFrom;
    let result = protocol.process_command("QUIT");
    assert!(matches!(result, SmtpCommandResult::Quit));
}

#[test]
fn test_quit_in_rcptto_state() {
    let mut protocol = create_test_protocol();
    protocol.core.state = SmtpState::RcptTo;
    let result = protocol.process_command("QUIT");
    assert!(matches!(result, SmtpCommandResult::Quit));
}

#[test]
fn test_quit_in_data_state_is_data_line() {
    let mut protocol = create_test_protocol();
    protocol.core.state = SmtpState::Data;
    let result = protocol.process_command("QUIT");
    assert!(
        matches!(result, SmtpCommandResult::DataLine(ref line) if line == "QUIT"),
        "QUIT in Data state should be treated as DataLine, got {:?}",
        result
    );
    assert_eq!(protocol.get_state(), SmtpState::Data);
}

// --- DataEnd resets state ---

#[test]
fn test_data_end_resets_to_greeted() {
    let mut protocol = create_test_protocol();
    protocol.core.state = SmtpState::Data;
    let result = protocol.process_command(".");
    assert!(matches!(result, SmtpCommandResult::DataEnd));
    assert_eq!(
        protocol.get_state(),
        SmtpState::Greeted,
        "State should reset to Greeted after DataEnd"
    );
}

// --- Invalid/unrecognized commands in each state ---

#[test]
fn test_invalid_command_initial_state() {
    let mut protocol = create_test_protocol();
    let result = protocol.process_command("INVALID COMMAND");
    assert!(matches!(result, SmtpCommandResult::Continue));
    assert_eq!(protocol.get_state(), SmtpState::Initial);
}

#[test]
fn test_invalid_command_greeted_state() {
    let mut protocol = create_test_protocol();
    protocol.core.state = SmtpState::Greeted;
    let result = protocol.process_command("INVALID COMMAND");
    assert!(matches!(result, SmtpCommandResult::Continue));
    assert_eq!(protocol.get_state(), SmtpState::Greeted);
}

#[test]
fn test_invalid_command_mailfrom_state() {
    let mut protocol = create_test_protocol();
    protocol.core.state = SmtpState::MailFrom;
    let result = protocol.process_command("INVALID COMMAND");
    assert!(matches!(result, SmtpCommandResult::Continue));
    assert_eq!(protocol.get_state(), SmtpState::MailFrom);
}

#[test]
fn test_invalid_command_rcptto_state() {
    let mut protocol = create_test_protocol();
    protocol.core.state = SmtpState::RcptTo;
    let result = protocol.process_command("INVALID COMMAND");
    assert!(matches!(result, SmtpCommandResult::Continue));
    assert_eq!(protocol.get_state(), SmtpState::RcptTo);
}

// --- read_line and write_line with in-memory buffers ---

#[test]
fn test_read_line_with_cursor() {
    let input = b"HELO example.com\r\n";
    let mut protocol = Session::new(input, 26_214_400);

    let line = protocol.read_line();
    assert_eq!(line, "HELO example.com");
}

#[test]
fn test_read_line_lf_only() {
    let input = b"HELO example.com\n";
    let mut protocol = Session::new(input, 26_214_400);

    let line = protocol.read_line();
    assert_eq!(line, "HELO example.com");
}

#[test]
fn test_read_line_eof_returns_empty() {
    let mut protocol = Session::new(b"", 26_214_400);

    let line = protocol.read_line();
    assert_eq!(line, "");
}

#[test]
fn test_read_line_multiple_lines() {
    let input = b"HELO example.com\r\nMAIL FROM:<user@test.com>\r\n";
    let mut protocol = Session::new(input, 26_214_400);

    let line1 = protocol.read_line();
    assert_eq!(line1, "HELO example.com");

    let line2 = protocol.read_line();
    assert_eq!(line2, "MAIL FROM:<user@test.com>");
}

#[test]
fn test_write_line_appends_crlf() {
    let mut protocol = Session::new(b"", 26_214_400);

    protocol.write_line("250 OK");

    let written = protocol.output.clone();
    assert_eq!(String::from_utf8(written).unwrap(), "250 OK\r\n");
}

// --- EHLO domain extraction ---

#[test]
fn test_ehlo_without_domain() {
    let mut protocol = create_test_protocol();
    let result = protocol.process_command("EHLO");
    assert!(matches!(result, SmtpCommandResult::Helo(ref d) if d == "client"));
    assert_eq!(protocol.get_state(), SmtpState::Greeted);
}

#[test]
fn test_ehlo_domain_in_response() {
    let mut protocol = Session::new(b"", 26_214_400);

    let result = protocol.process_command("EHLO mail.example.org");
    assert!(matches!(result, SmtpCommandResult::Helo(ref d) if d == "mail.example.org"));

    let written = String::from_utf8(protocol.output.clone()).unwrap();
    assert!(
        written.contains("mail.example.org"),
        "EHLO response should include the client domain. Got: {}",
        written
    );
}

#[test]
fn test_ehlo_advertises_configured_size() {
    let mut protocol = Session::new(b"", 4242);

    let result = protocol.process_command("EHLO mail.example.org");
    assert!(matches!(result, SmtpCommandResult::Helo(ref d) if d == "mail.example.org"));

    let written = String::from_utf8(protocol.output.clone()).unwrap();
    assert!(
        written.contains("250-SIZE 4242\r\n"),
        "EHLO response should advertise SIZE with the configured max. Got: {}",
        written
    );
}

#[test]
fn test_ehlo_no_domain_uses_client_fallback() {
    let mut protocol = Session::new(b"", 26_214_400);

    let result = protocol.process_command("EHLO");
    assert!(matches!(result, SmtpCommandResult::Helo(ref d) if d == "client"));

    let written = String::from_utf8(protocol.output.clone()).unwrap();
    assert!(
        written.contains("client"),
        "EHLO without domain should use 'client' fallback. Got: {}",
        written
    );
}

// --- Additional edge cases ---

#[test]
fn test_additional_rcpt_to_in_rcptto_state() {
    let mut protocol = create_test_protocol();
    protocol.core.state = SmtpState::RcptTo;
    let result = protocol.process_command("RCPT TO:<another@example.com>");
    assert!(
        matches!(result, SmtpCommandResult::RcptTo(ref email) if email == "another@example.com")
    );
    assert_eq!(protocol.get_state(), SmtpState::RcptTo);
}

#[test]
fn test_mail_from_bad_syntax() {
    let mut protocol = create_test_protocol();
    protocol.core.state = SmtpState::Greeted;
    let result = protocol.process_command("MAIL FROM:");
    assert!(matches!(result, SmtpCommandResult::Continue));
    assert_eq!(protocol.get_state(), SmtpState::Greeted);
}

#[test]
fn test_rcpt_to_bad_syntax_in_mailfrom() {
    let mut protocol = create_test_protocol();
    protocol.core.state = SmtpState::MailFrom;
    let result = protocol.process_command("RCPT TO:");
    assert!(matches!(result, SmtpCommandResult::Continue));
    assert_eq!(protocol.get_state(), SmtpState::MailFrom);
}

#[test]
fn test_send_greeting_output() {
    let mut protocol = Session::new(b"", 26_214_400);

    protocol.send_greeting();

    let written = String::from_utf8(protocol.output.clone()).unwrap();
    assert!(written.starts_with("220"));
    assert!(written.contains("MailLaser"));
    assert!(written.ends_with("\r\n"));
}
