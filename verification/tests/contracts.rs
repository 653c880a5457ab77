//! Exact values for the library's functions, and each law on examples.

use mail_laser::address::{address_spec, first_mailbox, ParsedAddress};
use mail_laser::command::{recognize, respond, Command, CommandStep, SmtpCommandResult, SmtpState};
use mail_laser::protocol::SmtpProtocol;
use mail_laser::text::{
    chars_of, decimal_text, second_word, split_after, starts_with, trim, trim_end_matches,
    CharClass,
};

const ALL_STATES: [SmtpState; 5] = [
    SmtpState::Initial,
    SmtpState::Greeted,
    SmtpState::MailFrom,
    SmtpState::RcptTo,
    SmtpState::Data,
];

fn in_state(state: SmtpState) -> SmtpProtocol {
    SmtpProtocol { state, max_message_size_bytes: 26_214_400 }
}

fn step_in(state: SmtpState, line: &str) -> CommandStep {
    in_state(state).process_command(line)
}

fn email(line: &str) -> Option<String> {
    in_state(SmtpState::Greeted).extract_email(line)
}

fn refusal(state: SmtpState, line: &str) -> String {
    let step = step_in(state, line);
    assert!(matches!(step.result, SmtpCommandResult::Continue));
    assert_eq!(step.next_state, state);
    assert_eq!(step.replies.len(), 1);
    step.replies[0].clone()
}

// --- text ---

#[test]
fn white_space_is_that_of_unicode() {
    for n in 0..=0x10FFFFu32 {
        if let Some(c) = char::from_u32(n) {
            assert_eq!(CharClass::WhiteSpace.has(c), c.is_whitespace(), "at {:x}", n);
            assert_eq!(CharClass::LineBreak.has(c), c == '\r' || c == '\n');
        }
    }
}

#[test]
fn text_functions_agree_with_str() {
    let samples = [
        "",
        " ",
        "a",
        " a ",
        "\t\u{a0}two words\u{3000}\r\n",
        "EHLO  mail.example.org  extra",
        "\u{85}x:y:z\u{2028}",
        ":",
        "a:",
        ":a",
        "\u{e4}\u{f6} \u{fc}: \u{1f600} ",
        "line\r\r\n\n",
        "mid\r\ndle",
    ];
    for s in samples {
        assert_eq!(chars_of(s), s.chars().collect::<Vec<char>>());
        assert_eq!(trim(s), s.trim());
        assert_eq!(trim_end_matches(s, CharClass::WhiteSpace), s.trim_end());
        assert_eq!(trim_end_matches(s, CharClass::LineBreak), s.trim_end_matches(['\r', '\n']));
        assert_eq!(split_after(s, ':'), s.split_once(':').map(|(_, rest)| rest));
        assert_eq!(second_word(s), s.split_whitespace().nth(1).map(|w| w.to_string()));
        for p in samples {
            assert_eq!(starts_with(s, p), s.starts_with(p));
        }
    }
}

#[test]
fn decimal_numbers() {
    for n in [0, 1, 9, 10, 99, 100, 4242, 26_214_400, u64::MAX] {
        assert_eq!(decimal_text(n), n.to_string());
        assert_eq!(decimal_text(n).parse::<u64>(), Ok(n));
    }
}

// --- replies ---

#[test]
fn helo_reply() {
    let step = step_in(SmtpState::Initial, "HELO example.com");
    assert_eq!(step.replies, vec!["250 MailLaser"]);
    assert_eq!(step.next_state, SmtpState::Greeted);
    assert!(matches!(step.result, SmtpCommandResult::Helo(ref d) if d == "example.com"));
    let step = step_in(SmtpState::Initial, "HELO");
    assert!(matches!(step.result, SmtpCommandResult::Helo(ref d) if d == "client"));
}

#[test]
fn ehlo_reply() {
    let step = step_in(SmtpState::Initial, "ehlo  mail.example.org extra");
    assert_eq!(
        step.replies,
        vec!["250-MailLaser greets mail.example.org", "250-SIZE 26214400", "250 STARTTLS"]
    );
    assert_eq!(step.next_state, SmtpState::Greeted);
    assert!(matches!(step.result, SmtpCommandResult::Helo(ref d) if d == "mail.example.org"));
}

#[test]
fn other_replies() {
    assert_eq!(step_in(SmtpState::Greeted, "STARTTLS").replies, vec!["220 Go ahead"]);
    assert_eq!(
        step_in(SmtpState::RcptTo, "DATA").replies,
        vec!["354 Start mail input; end with <CRLF>.<CRLF>"]
    );
    assert!(step_in(SmtpState::Greeted, "MAIL FROM:<a@b.c>").replies.is_empty());
    assert!(step_in(SmtpState::MailFrom, "RCPT TO:<a@b.c>").replies.is_empty());
    assert!(step_in(SmtpState::Data, ".").replies.is_empty());
    assert!(step_in(SmtpState::Data, "..").replies.is_empty());
}

#[test]
fn refusals() {
    assert_eq!(
        refusal(SmtpState::Initial, "NOOP"),
        "500 Command not recognized or out of sequence"
    );
    assert_eq!(
        refusal(SmtpState::Initial, "MAIL FROM:<a@b.c>"),
        "500 Command not recognized or out of sequence"
    );
    assert_eq!(
        refusal(SmtpState::Greeted, "HELO again"),
        "503 Bad sequence of commands (expected MAIL FROM or STARTTLS)"
    );
    assert_eq!(
        refusal(SmtpState::MailFrom, "DATA"),
        "503 Bad sequence of commands (expected RCPT TO)"
    );
    assert_eq!(
        refusal(SmtpState::RcptTo, "MAIL FROM:<a@b.c>"),
        "503 Bad sequence of commands (expected DATA or RCPT TO)"
    );
    assert_eq!(
        refusal(SmtpState::Greeted, "MAIL FROM:"),
        "501 Syntax error in MAIL FROM parameters"
    );
    assert_eq!(
        refusal(SmtpState::Greeted, "MAIL FROM:<not-an-email>"),
        "501 Syntax error in MAIL FROM parameters"
    );
    assert_eq!(
        refusal(SmtpState::MailFrom, "RCPT TO:<>"),
        "501 Syntax error in RCPT TO parameters"
    );
    assert_eq!(
        refusal(SmtpState::RcptTo, "RCPT TO: "),
        "501 Syntax error in RCPT TO parameters"
    );
}

#[test]
fn commands_are_recognized_by_their_start() {
    assert!(matches!(step_in(SmtpState::Greeted, "QUITTER").result, SmtpCommandResult::Quit));
    assert!(matches!(step_in(SmtpState::RcptTo, "DATABASE").result, SmtpCommandResult::DataStart));
    assert_eq!(
        refusal(SmtpState::Greeted, " QUIT"),
        "503 Bad sequence of commands (expected MAIL FROM or STARTTLS)"
    );
    assert_eq!(
        refusal(SmtpState::Greeted, "MAIL FROM <a@b.c>"),
        "503 Bad sequence of commands (expected MAIL FROM or STARTTLS)"
    );
}

#[test]
fn capital_form_is_that_of_unicode() {
    let step = step_in(SmtpState::Greeted, "\u{17f}tarttls");
    assert!(matches!(step.result, SmtpCommandResult::StartTls));
    let step = step_in(SmtpState::Greeted, "ma\u{131}l from:<a@b.c>");
    assert!(matches!(step.result, SmtpCommandResult::MailFrom(ref e) if e == "a@b.c"));
    let step = step_in(SmtpState::Greeted, "\u{fb06}arttls");
    assert!(matches!(step.result, SmtpCommandResult::StartTls));
}

#[test]
fn capital_form_of_ascii_text() {
    let line: String = (0u8..128).map(char::from).filter(|c| !c.is_ascii_control()).collect();
    for word in ["helo ", "EHLO ", "qUiT "] {
        let step = step_in(SmtpState::Initial, &format!("{}{}", word, line));
        assert!(!matches!(step.result, SmtpCommandResult::Continue));
    }
    for c in (0u8..128).map(char::from) {
        assert_eq!(c.to_string().to_uppercase(), c.to_ascii_uppercase().to_string());
    }
}

#[test]
fn capital_form_of_an_ascii_start() {
    for rest in ["b\u{fc}cher.example", "\u{df}", "\u{307}x", "\u{1f600}", "i\u{307}"] {
        let line = format!("eHlO {}", rest);
        assert!(line.to_uppercase().starts_with("EHLO "));
        let step = step_in(SmtpState::Initial, &line);
        assert!(matches!(step.result, SmtpCommandResult::Helo(ref d) if d == rest));
    }
    for n in 0x80..=0x10FFFFu32 {
        if let Some(c) = char::from_u32(n) {
            assert!(format!("xI{}", c).to_uppercase().starts_with("XI"));
        }
    }
}

#[test]
fn case_of_a_command_word_is_free() {
    let words = ["HELO", "EHLO", "MAIL FROM:", "RCPT TO:", "DATA", "STARTTLS", "QUIT"];
    let rests = ["", " Example.com", "<User@Example.com> x", "x y", " \u{fc}:<a@B>", ":<c@d>"];
    for state in [SmtpState::Initial, SmtpState::Greeted, SmtpState::MailFrom, SmtpState::RcptTo] {
        for word in words {
            let mut mixed = String::new();
            for (i, c) in word.chars().enumerate() {
                mixed.push(if i % 2 == 0 { c.to_ascii_lowercase() } else { c });
            }
            for rest in rests {
                let plain = step_in(state, &format!("{}{}", word, rest));
                for other in [word.to_lowercase(), mixed.clone()] {
                    let step = step_in(state, &format!("{}{}", other, rest));
                    assert_eq!(format!("{:?}", step), format!("{:?}", plain));
                }
            }
        }
    }
    let step = step_in(SmtpState::Initial, "helo Example.com");
    assert!(matches!(step.result, SmtpCommandResult::Helo(ref d) if d == "Example.com"));
}

#[test]
fn decisions_on_given_parts() {
    assert_eq!(recognize(SmtpState::Initial, "x", "EHLO X"), Command::Ehlo);
    assert_eq!(recognize(SmtpState::Initial, "HELO", "x"), Command::Unexpected);
    assert_eq!(recognize(SmtpState::MailFrom, "x", "RCPT TO:"), Command::RcptTo);
    assert_eq!(recognize(SmtpState::Data, ".", "x"), Command::EndOfData);
    assert_eq!(recognize(SmtpState::Data, "x", "."), Command::Content);
    let step = respond(SmtpState::Greeted, 1, "x", "MAIL FROM:", Some("a@b".to_string()));
    assert!(matches!(step.result, SmtpCommandResult::MailFrom(ref e) if e == "a@b"));
    assert_eq!(step.next_state, SmtpState::MailFrom);
    let step = respond(SmtpState::Initial, 7, "x y", "EHLO", None);
    assert_eq!(step.replies, vec!["250-MailLaser greets y", "250-SIZE 7", "250 STARTTLS"]);
}

// --- addresses ---

#[test]
fn address_text_of_a_line() {
    assert_eq!(address_spec("MAIL FROM"), None);
    assert_eq!(address_spec("MAIL FROM:"), Some(""));
    assert_eq!(address_spec("MAIL FROM: a@b "), Some("a@b"));
    assert_eq!(address_spec("MAIL FROM: < a@b > SIZE=1000"), Some("a@b"));
    assert_eq!(address_spec("MAIL FROM:<a@b"), Some("a@b"));
    assert_eq!(address_spec("MAIL FROM:<a@b> <c@d>"), Some("a@b"));
    assert_eq!(address_spec("RCPT TO:<Name <a@b>>"), Some("Name <a@b>"));
    assert_eq!(address_spec("RCPT TO:<Name <a@b>> NOTIFY=NEVER"), Some("Name <a@b>"));
    assert_eq!(address_spec("RCPT TO:<Name <a@b>"), Some("Name <a@b"));
    assert_eq!(address_spec("RCPT TO:Name <a@b>"), Some("Name <a@b>"));
    assert_eq!(address_spec("x:<a:b>"), Some("a:b"));
    assert_eq!(address_spec("x:<a@b (c<d)>"), Some("a@b (c<d)"));
    assert_eq!(address_spec("x:<a@b (c<d)> X=>"), Some("a@b (c<d)"));
    assert_eq!(address_spec("x:<a@b, <c@d>>"), Some("a@b, <c@d"));
    assert_eq!(address_spec("x:<A <a@b>, B <c@d>>"), Some("A <a@b"));
    assert_eq!(address_spec("x:<A <a b@c>>"), Some("A <a b@c>"));
    assert_eq!(address_spec("x:<A <B <c@d>>>"), Some("A <B <c@d"));
    assert_eq!(address_spec("x:<A <a@b> > X=1"), Some("A <a@b>"));
    assert_eq!(address_spec("x:<A <a@b> X=1 >"), Some("A <a@b"));
    assert_eq!(address_spec("x:<\"D, J\" <a@b>>"), Some("\"D, J\" <a@b>"));
    assert_eq!(address_spec("x:<\"D > \\\" <J\" \"K\" L <a@b>\t>"), Some("\"D > \\\" <J\" \"K\" L <a@b>"));
    assert_eq!(address_spec("x:<A \"B\" C <a@b>>"), Some("A \"B\" C <a@b>"));
    assert_eq!(address_spec("x:<A \"B>\" C <a@b>>"), Some("A \"B"));
    assert_eq!(address_spec("x:<\"A <a@b>>"), Some("\"A <a@b"));
    assert_eq!(address_spec("x:<\"A\\"), Some("\"A\\"));
}

#[test]
fn named_addresses_cost_no_other_address() {
    let parts = ["a@b", "\"", "<", ">", " ", "(", ")", ",", "N", "\\", ":"];
    let mut texts = vec![String::new()];
    let mut last = texts.clone();
    for _ in 0..5 {
        let mut longer = Vec::new();
        for text in &last {
            for part in parts {
                longer.push(format!("{}{}", text, part));
            }
        }
        texts.extend(longer.iter().cloned());
        last = longer;
    }
    for text in texts {
        let cut = text.trim_end().split('>').next().unwrap_or("").trim();
        if let Ok(list) = mailparse::addrparse(cut) {
            if let Some(mailparse::MailAddr::Single(info)) = list.first() {
                assert_eq!(email(&format!("RCPT TO:<{}", text)), Some(info.addr.clone()), "{}", text);
            }
        }
    }
}

#[test]
fn bracket_closes_at_its_first_partner() {
    assert_eq!(email("MAIL FROM:<a@b (c<d)>"), Some("a@b".to_string()));
    assert_eq!(email("MAIL FROM:<a@b (c<d)> X=>"), Some("a@b".to_string()));
    assert_eq!(email("RCPT TO:<a@b, <c@d>>"), None);
    assert_eq!(email("RCPT TO:<A <a@b>, B <c@d>>"), None);
    for inner in ["a@b", "a@b, c@d", "", "no address", "a@b (x<y)", "<", "A <a@b", "g: a@b;"] {
        let alone = email(&format!("MAIL FROM:<{}>", inner));
        for rest in [" SIZE=1000 BODY=8BITMIME", ",<b@example.com>", " x>", "<", "x>>"] {
            assert_eq!(email(&format!("MAIL FROM:<{}>{}", inner, rest)), alone);
        }
        if !inner.starts_with('<') {
            assert_eq!(email(&format!("MAIL FROM:{}", inner)), alone);
        }
    }
}

#[test]
fn brackets_are_optional() {
    for addr in ["user@example.com", "a+b_c.d-e@sub.example.org", "x@y", "@"] {
        for verb in ["MAIL FROM", "rcpt to"] {
            for gap in ["", " ", "\t "] {
                let found = Some(addr.to_string());
                assert_eq!(email(&format!("{}:{}{}", verb, gap, addr)), found);
                for rest in ["", " ", " SIZE=1000", "<x>"] {
                    assert_eq!(email(&format!("{}:{}<{}>{}", verb, gap, addr, rest)), found);
                }
            }
        }
    }
}

#[test]
fn display_name_is_left_out() {
    let found = Some("john@example.com".to_string());
    assert_eq!(email("RCPT TO:<John Doe <john@example.com>>"), found);
    assert_eq!(email("RCPT TO: <John <john@example.com>> X=1"), found);
    assert_eq!(email("RCPT TO:<<john@example.com>>"), found);
    assert_eq!(email("MAIL FROM:<John Doe <john@example.com> >"), found);
    assert_eq!(email("RCPT TO:<\"Doe, John\" <john@example.com>>"), found);
    assert_eq!(email("RCPT TO:<\"D > J\" <john@example.com> > X=>"), found);
    assert_eq!(email("RCPT TO:<John \"J\" Doe <john@example.com>>"), found);
    assert_eq!(email("RCPT TO:John Doe <john@example.com>"), found);
    assert_eq!(email("RCPT TO:\"Doe, John\" <john@example.com>"), found);
}

#[test]
fn missing_address() {
    assert_eq!(email("MAIL FROM"), None);
    assert_eq!(email(""), None);
    assert_eq!(email("MAIL FROM:"), None);
    assert_eq!(email("MAIL FROM: \t"), None);
    assert_eq!(email("MAIL FROM:<>"), None);
    assert_eq!(email("MAIL FROM:< > SIZE=1"), None);
    assert_eq!(email("MAIL FROM:<user>"), None);
    assert_eq!(email("MAIL FROM:user"), None);
}

#[test]
fn first_entry_decides() {
    assert_eq!(email("RCPT TO:a@b.c, d@e.f"), Some("a@b.c".to_string()));
    assert_eq!(email("RCPT TO:group: a@b.c;"), None);
    assert_eq!(email("RCPT TO:a@b.c, broken"), None);
    assert_eq!(email("RCPT TO:<John <john@example.com>"), None);
}

#[test]
fn taken_addresses_have_an_at_sign() {
    for text in ["a@b", "a", "<a>", "<N <a>>", "\"q\" <a>", "N <a@b>", "(c) a", "(c) a@b", "g: a@b;"] {
        for state in [SmtpState::Greeted, SmtpState::MailFrom, SmtpState::RcptTo] {
            for verb in ["MAIL FROM", "RCPT TO"] {
                match step_in(state, &format!("{}:{}", verb, text)).result {
                    SmtpCommandResult::MailFrom(addr) => assert!(addr.contains('@')),
                    SmtpCommandResult::RcptTo(addr) => assert!(addr.contains('@')),
                    _ => {}
                }
            }
        }
    }
    assert_eq!(email("RCPT TO:(c) a@b"), Some("a@b".to_string()));
}

#[test]
fn first_mailbox_of_a_list() {
    let single = |a: &str| ParsedAddress::Single(a.to_string());
    assert_eq!(first_mailbox::<()>(&Ok(vec![])), None);
    assert_eq!(first_mailbox::<()>(&Ok(vec![single("a@b")])), Some("a@b".to_string()));
    assert_eq!(
        first_mailbox::<()>(&Ok(vec![single("a@b"), single("c@d")])),
        Some("a@b".to_string())
    );
    assert_eq!(first_mailbox::<()>(&Ok(vec![ParsedAddress::Group, single("a@b")])), None);
    assert_eq!(first_mailbox(&Err("no")), None);
}

// --- sessions ---

#[test]
fn failed_reply_leaves_the_session() {
    for (state, line) in [
        (SmtpState::Initial, "EHLO example.com"),
        (SmtpState::Greeted, "MAIL FROM:<a@b.c>"),
        (SmtpState::RcptTo, "DATA"),
        (SmtpState::Data, "."),
    ] {
        let mut protocol = in_state(state);
        let step = protocol.process_command(line);
        assert_ne!(step.next_state, state);
        let result = protocol.finish_command(step, Err("connection reset"));
        assert!(matches!(result, Err("connection reset")));
        assert_eq!(protocol.get_state(), state);
        assert_eq!(protocol.max_message_size_bytes, 26_214_400);
    }
}

#[test]
fn lost_reply_does_not_leave_the_first_state() {
    let mut protocol = SmtpProtocol::new(1);
    let step = protocol.process_command("EHLO x");
    assert!(protocol.finish_command(step, Err(())).is_err());
    assert_eq!(protocol.get_state(), SmtpState::Initial);
    let step = protocol.process_command("MAIL FROM:<a@b.c>");
    assert!(matches!(step.result, SmtpCommandResult::Continue));
    assert!(protocol.finish_command::<()>(step, Ok(())).is_ok());
    let step = protocol.process_command("EHLO x");
    assert!(protocol.finish_command::<()>(step, Ok(())).is_ok());
    assert_eq!(protocol.get_state(), SmtpState::Greeted);
}

#[test]
fn quit_outside_messages() {
    for state in ALL_STATES {
        let step = step_in(state, "quit");
        assert_eq!(step.next_state, state);
        if state == SmtpState::Data {
            assert!(matches!(step.result, SmtpCommandResult::DataLine(ref l) if l == "quit"));
            assert!(step.replies.is_empty());
        } else {
            assert!(matches!(step.result, SmtpCommandResult::Quit));
            assert_eq!(step.replies, vec!["221 Bye"]);
        }
    }
}

#[test]
fn starttls_only_when_greeted() {
    for state in ALL_STATES {
        let step = step_in(state, "StartTLS");
        assert_eq!(step.next_state, state);
        assert_eq!(
            matches!(step.result, SmtpCommandResult::StartTls),
            state == SmtpState::Greeted
        );
    }
}

#[test]
fn message_needs_an_envelope() {
    for state in ALL_STATES {
        let step = step_in(state, "DATA");
        assert_eq!(
            matches!(step.result, SmtpCommandResult::DataStart),
            state == SmtpState::RcptTo
        );
        let step = step_in(state, "RCPT TO:<a@b.c>");
        assert_eq!(
            matches!(step.result, SmtpCommandResult::RcptTo(_)),
            state == SmtpState::MailFrom || state == SmtpState::RcptTo
        );
        let step = step_in(state, "MAIL FROM:<a@b.c>");
        assert_eq!(
            matches!(step.result, SmtpCommandResult::MailFrom(_)),
            state == SmtpState::Greeted
        );
    }
}

#[test]
fn first_state_lasts_until_helo() {
    for line in ["", "QUIT", "STARTTLS", "MAIL FROM:<a@b.c>", "RCPT TO:<a@b.c>", "DATA", "."] {
        assert_eq!(step_in(SmtpState::Initial, line).next_state, SmtpState::Initial);
    }
    for line in ["HELO", "EHLO x"] {
        assert_eq!(step_in(SmtpState::Initial, line).next_state, SmtpState::Greeted);
    }
    for state in [SmtpState::Greeted, SmtpState::MailFrom, SmtpState::RcptTo, SmtpState::Data] {
        for line in ["HELO", "QUIT", ".", "DATA", "RCPT TO:<a@b.c>"] {
            assert_ne!(step_in(state, line).next_state, SmtpState::Initial);
        }
    }
}

#[test]
fn second_message_needs_a_sender_again() {
    let mut protocol = SmtpProtocol::new(1);
    let mut run = |line: &str| {
        let step = protocol.process_command(line);
        protocol.finish_command::<()>(step, Ok(())).unwrap()
    };
    run("HELO x");
    run("MAIL FROM:<a@b.c>");
    run("RCPT TO:<d@e.f>");
    run("DATA");
    assert!(matches!(run("."), SmtpCommandResult::DataEnd));
    assert!(matches!(run("RCPT TO:<d@e.f>"), SmtpCommandResult::Continue));
    assert!(matches!(run("DATA"), SmtpCommandResult::Continue));
    assert!(matches!(run("MAIL FROM:<a@b.c>"), SmtpCommandResult::MailFrom(_)));
}

#[test]
fn replies_are_single_lines_with_a_code() {
    let lines = [
        "EHLO a\r\n250 b",
        "HELO",
        "quit",
        "MAIL FROM:",
        "RCPT TO:",
        "STARTTLS",
        "DATA",
        "\r\n",
        "",
    ];
    for state in ALL_STATES {
        for line in lines {
            let step = step_in(state, line);
            for (i, reply) in step.replies.iter().enumerate() {
                assert!(!reply.contains(['\r', '\n']));
                assert!(reply.chars().take(3).all(|c| c.is_ascii_digit()));
                assert_eq!(reply[..3], step.replies[0][..3]);
                let last = i + 1 == step.replies.len();
                assert_eq!(reply.chars().nth(3), Some(if last { ' ' } else { '-' }));
                assert_eq!(
                    reply.starts_with('5'),
                    matches!(step.result, SmtpCommandResult::Continue)
                );
            }
        }
    }
}

#[test]
fn lines_survive_the_wire() {
    let protocol = SmtpProtocol::new(1);
    for line in ["", "250 OK", "\u{e4}\u{1f600}", "a\r\nb", " "] {
        let bytes = protocol.write_line(line);
        let text = String::from_utf8(bytes).unwrap();
        assert_eq!(text, format!("{}\r\n", line));
        assert_eq!(protocol.read_line(&text, text.len()), line);
    }
}

#[test]
fn line_ends() {
    let protocol = SmtpProtocol::new(1);
    assert_eq!(protocol.read_line("abc\r\n", 5), "abc");
    assert_eq!(protocol.read_line("abc\n", 4), "abc");
    assert_eq!(protocol.read_line("abc", 3), "abc");
    assert_eq!(protocol.read_line("abc\r\r\n", 6), "abc");
    assert_eq!(protocol.read_line("a\rbc \r\n", 7), "a\rbc ");
    assert_eq!(protocol.read_line("\r\n", 2), "");
    assert_eq!(protocol.read_line("", 0), "");
}

#[test]
fn greeting() {
    let protocol = SmtpProtocol::new(1);
    assert_eq!(protocol.send_greeting(), b"220 MailLaser SMTP Server Ready\r\n".to_vec());
    assert_eq!(protocol.get_state(), SmtpState::Initial);
    assert_eq!(protocol.max_message_size_bytes, 1);
}
