//! What each state makes of a line, told by the words that the line starts with.

use crate::command::{
    CommandStep, ResultView, SmtpCommandResult, SmtpState, StepView, claimed_domain, command_step,
    recognized,
};
use crate::laws::addresses::is_blank;
use crate::laws::commands::lemma_prefix;
use crate::laws::letters::lemma_word_starts_line;
use crate::laws::replies::{is_digit, law_size_reads_back, lemma_decimal_digits, number};
use crate::laws::texts::{is_set_off, is_solid, law_first_word};
use crate::text::{ascii_uppercase, capitals_fit, decimal, words};
use vstd::prelude::*;

verus! {

/// No text starts with two of the command words.
proof fn lemma_words_differ(upper: Seq<char>)
    ensures
        "HELO"@.is_prefix_of(upper) ==> upper.len() > 0 && upper[0] == 'H',
        "EHLO"@.is_prefix_of(upper) ==> upper.len() > 0 && upper[0] == 'E',
        "MAIL FROM:"@.is_prefix_of(upper) ==> upper.len() > 0 && upper[0] == 'M',
        "STARTTLS"@.is_prefix_of(upper) ==> upper.len() > 0 && upper[0] == 'S',
        "RCPT TO:"@.is_prefix_of(upper) ==> upper.len() > 0 && upper[0] == 'R',
        "DATA"@.is_prefix_of(upper) ==> upper.len() > 0 && upper[0] == 'D',
        "QUIT"@.is_prefix_of(upper) ==> upper.len() > 0 && upper[0] == 'Q',
{
    reveal_strlit("HELO");
    reveal_strlit("EHLO");
    reveal_strlit("MAIL FROM:");
    reveal_strlit("STARTTLS");
    reveal_strlit("RCPT TO:");
    reveal_strlit("DATA");
    reveal_strlit("QUIT");
    lemma_prefix("HELO"@, upper);
    lemma_prefix("EHLO"@, upper);
    lemma_prefix("MAIL FROM:"@, upper);
    lemma_prefix("STARTTLS"@, upper);
    lemma_prefix("RCPT TO:"@, upper);
    lemma_prefix("DATA"@, upper);
    lemma_prefix("QUIT"@, upper);
}

/// Every outcome has its word: a line that does not start with the word, in capitals, never has
/// that outcome. A sender or recipient is the address found in the line.
pub proof fn law_every_outcome_has_its_word(
    state: SmtpState,
    max_size: u64,
    line: Seq<char>,
    upper: Seq<char>,
    email: Option<Seq<char>>,
)
    ensures
        match command_step(state, max_size, line, upper, email).result {
            ResultView::Helo(_) => "HELO"@.is_prefix_of(upper) || "EHLO"@.is_prefix_of(upper),
            ResultView::MailFrom(addr) => "MAIL FROM:"@.is_prefix_of(upper) && email == Some(addr),
            ResultView::RcptTo(addr) => "RCPT TO:"@.is_prefix_of(upper) && email == Some(addr),
            ResultView::DataStart => "DATA"@.is_prefix_of(upper),
            ResultView::StartTls => "STARTTLS"@.is_prefix_of(upper),
            ResultView::Quit => "QUIT"@.is_prefix_of(upper),
            ResultView::DataLine(text) => text == line,
            ResultView::DataEnd => line == "."@,
            ResultView::Continue => true,
        },
{
}

/// A line that starts with none of the words that its state allows is refused: the one reply is
/// that of the state, and nothing else happens. What other states allow does not matter.
pub proof fn law_other_lines_are_refused(
    state: SmtpState,
    max_size: u64,
    line: Seq<char>,
    upper: Seq<char>,
    email: Option<Seq<char>>,
)
    requires
        !"QUIT"@.is_prefix_of(upper),
    ensures
        ({
            let step = command_step(state, max_size, line, upper, email);
            match state {
                SmtpState::Initial => !"HELO"@.is_prefix_of(upper) && !"EHLO"@.is_prefix_of(upper)
                    ==> step == (StepView {
                    replies: seq!["500 Command not recognized or out of sequence"@],
                    next_state: SmtpState::Initial,
                    result: ResultView::Continue,
                }),
                SmtpState::Greeted => !"MAIL FROM:"@.is_prefix_of(upper)
                    && !"STARTTLS"@.is_prefix_of(upper) ==> step == (StepView {
                    replies: seq![
                        "503 Bad sequence of commands (expected MAIL FROM or STARTTLS)"@,
                    ],
                    next_state: SmtpState::Greeted,
                    result: ResultView::Continue,
                }),
                SmtpState::MailFrom => !"RCPT TO:"@.is_prefix_of(upper) ==> step == (StepView {
                    replies: seq!["503 Bad sequence of commands (expected RCPT TO)"@],
                    next_state: SmtpState::MailFrom,
                    result: ResultView::Continue,
                }),
                SmtpState::RcptTo => !"DATA"@.is_prefix_of(upper) && !"RCPT TO:"@.is_prefix_of(
                    upper,
                ) ==> step == (StepView {
                    replies: seq!["503 Bad sequence of commands (expected DATA or RCPT TO)"@],
                    next_state: SmtpState::RcptTo,
                    result: ResultView::Continue,
                }),
                SmtpState::Data => true,
            }
        }),
{
}

/// The step that starts a message.
pub open spec fn message_started() -> StepView {
    StepView {
        replies: seq!["354 Start mail input; end with <CRLF>.<CRLF>"@],
        next_state: SmtpState::Data,
        result: ResultView::DataStart,
    }
}

/// DATA is taken once there is a recipient, whatever the announced size and whatever follows the
/// word: the one reply is 354, and the message begins.
pub proof fn law_data(max_size: u64, line: Seq<char>, upper: Seq<char>, email: Option<Seq<char>>)
    requires
        "DATA"@.is_prefix_of(upper),
    ensures
        command_step(SmtpState::RcptTo, max_size, line, upper, email) == message_started(),
{
}

/// DATA is taken in letters of any case.
pub proof fn law_data_in_any_case(
    max_size: u64,
    word: Seq<char>,
    rest: Seq<char>,
    upper: Seq<char>,
    email: Option<Seq<char>>,
)
    requires
        ascii_uppercase(word) == "DATA"@,
        capitals_fit(word + rest, upper),
    ensures
        command_step(SmtpState::RcptTo, max_size, word + rest, upper, email) == message_started(),
{
    reveal_strlit("DATA");
    lemma_word_starts_line("DATA"@, word, rest, upper);
}

/// A MAIL FROM line after the greeting, whatever the announced size: the address found in it is
/// the sender, without a reply; a line without one is refused with 501.
pub proof fn law_mail_from_line(
    max_size: u64,
    line: Seq<char>,
    upper: Seq<char>,
    email: Option<Seq<char>>,
)
    requires
        "MAIL FROM:"@.is_prefix_of(upper),
    ensures
        command_step(SmtpState::Greeted, max_size, line, upper, email) == match email {
            Some(sender) => StepView {
                replies: Seq::empty(),
                next_state: SmtpState::MailFrom,
                result: ResultView::MailFrom(sender),
            },
            None => StepView {
                replies: seq!["501 Syntax error in MAIL FROM parameters"@],
                next_state: SmtpState::Greeted,
                result: ResultView::Continue,
            },
        },
{
}

/// A RCPT TO line once there is a sender, whatever the announced size: the address found in it is
/// a recipient, without a reply; a line without one is refused with 501, and the session stays.
pub proof fn law_rcpt_to_line(
    state: SmtpState,
    max_size: u64,
    line: Seq<char>,
    upper: Seq<char>,
    email: Option<Seq<char>>,
)
    requires
        "RCPT TO:"@.is_prefix_of(upper),
        state == SmtpState::MailFrom || state == SmtpState::RcptTo,
    ensures
        command_step(state, max_size, line, upper, email) == match email {
            Some(recipient) => StepView {
                replies: Seq::empty(),
                next_state: SmtpState::RcptTo,
                result: ResultView::RcptTo(recipient),
            },
            None => StepView {
                replies: seq!["501 Syntax error in RCPT TO parameters"@],
                next_state: state,
                result: ResultView::Continue,
            },
        },
{
    lemma_words_differ(upper);
}

/// The step that opens a session for `domain`.
pub open spec fn opened(domain: Seq<char>, replies: Seq<Seq<char>>) -> StepView {
    StepView { replies, next_state: SmtpState::Greeted, result: ResultView::Helo(domain) }
}

/// The domain of a HELO or EHLO line is the whole run of characters behind the first word and its
/// white space, up to the next white space or the end, as it stands and however long it is. EHLO
/// greets it by that name.
pub proof fn law_domain_is_the_second_word(
    max_size: u64,
    before: Seq<char>,
    word: Seq<char>,
    gap: Seq<char>,
    domain: Seq<char>,
    rest: Seq<char>,
    upper: Seq<char>,
    email: Option<Seq<char>>,
)
    requires
        is_blank(before),
        is_solid(word),
        word.len() > 0,
        is_blank(gap),
        gap.len() > 0,
        is_solid(domain),
        domain.len() > 0,
        is_set_off(rest),
    ensures
        ({
            let line = before + word + (gap + domain + rest);
            let step = command_step(SmtpState::Initial, max_size, line, upper, email);
            &&& claimed_domain(line) == domain
            &&& "HELO"@.is_prefix_of(upper) ==> step == opened(domain, seq!["250 MailLaser"@])
            &&& "EHLO"@.is_prefix_of(upper) ==> step == opened(
                domain,
                seq![
                    "250-MailLaser greets "@ + domain,
                    "250-SIZE "@ + decimal(max_size as nat),
                    "250 STARTTLS"@,
                ],
            )
        }),
{
    let tail = gap + domain + rest;
    assert(tail[0] == gap[0]);
    law_first_word(before, word, tail);
    law_first_word(gap, domain, rest);
    let line = before + word + tail;
    assert(words(line)[1] == words(tail)[0]);
    lemma_words_differ(upper);
}

/// Where a HELO or EHLO line has no second word, the domain is `client`.
pub proof fn law_domain_may_be_missing(
    max_size: u64,
    before: Seq<char>,
    word: Seq<char>,
    gap: Seq<char>,
    upper: Seq<char>,
    email: Option<Seq<char>>,
)
    requires
        is_blank(before),
        is_solid(word),
        word.len() > 0,
        is_blank(gap),
    ensures
        ({
            let line = before + word + gap;
            let step = command_step(SmtpState::Initial, max_size, line, upper, email);
            &&& claimed_domain(line) == "client"@
            &&& claimed_domain(before) == "client"@
            &&& "HELO"@.is_prefix_of(upper) ==> step == opened("client"@, seq!["250 MailLaser"@])
            &&& "EHLO"@.is_prefix_of(upper) ==> step == opened(
                "client"@,
                seq![
                    "250-MailLaser greets "@ + "client"@,
                    "250-SIZE "@ + decimal(max_size as nat),
                    "250 STARTTLS"@,
                ],
            )
        }),
{
    law_first_word(before, word, gap);
    law_first_word(gap, word, Seq::empty());
    lemma_words_differ(upper);
}

/// The size that EHLO announces is the configured one, in decimal digits and nothing else.
pub proof fn law_size_is_announced(
    max_size: u64,
    line: Seq<char>,
    upper: Seq<char>,
    email: Option<Seq<char>>,
)
    requires
        "EHLO"@.is_prefix_of(upper),
    ensures
        ({
            let replies = command_step(SmtpState::Initial, max_size, line, upper, email).replies;
            let size = replies[1].skip("250-SIZE "@.len() as int);
            &&& replies.len() == 3
            &&& "250-SIZE "@.is_prefix_of(replies[1])
            &&& number(size) == max_size
            &&& size.len() > 0
            &&& forall|i: int| 0 <= i < size.len() ==> is_digit(#[trigger] size[i])
            &&& size[0] == '0' ==> max_size == 0
        }),
{
    lemma_words_differ(upper);
    let replies = command_step(SmtpState::Initial, max_size, line, upper, email).replies;
    let digits = decimal(max_size as nat);
    assert(replies[1] == "250-SIZE "@ + digits);
    assert(replies[1].skip("250-SIZE "@.len() as int) =~= digits);
    assert(replies[1].subrange(0, "250-SIZE "@.len() as int) =~= "250-SIZE "@);
    lemma_decimal_digits(max_size as nat);
    law_size_reads_back(max_size as nat);
}

/// The announced size changes nothing but the second line of the reply to EHLO.
pub proof fn law_size_matters_to_ehlo_alone(
    state: SmtpState,
    size1: u64,
    size2: u64,
    line: Seq<char>,
    upper: Seq<char>,
    email: Option<Seq<char>>,
)
    ensures
        ({
            let step1 = command_step(state, size1, line, upper, email);
            let step2 = command_step(state, size2, line, upper, email);
            &&& !(state == SmtpState::Initial && "EHLO"@.is_prefix_of(upper)) ==> step1 == step2
            &&& step1.next_state == step2.next_state
            &&& step1.result == step2.result
            &&& step1.replies.len() == step2.replies.len()
            &&& forall|i: int|
                0 <= i < step1.replies.len() && i != 1 ==> #[trigger] step1.replies[i]
                    == step2.replies[i]
        }),
{
}

/// The address in a line matters to MAIL FROM and RCPT TO in their states and to nothing else;
/// those are the commands that an address is looked for in.
pub proof fn law_address_matters_to_its_commands_alone(
    state: SmtpState,
    max_size: u64,
    line: Seq<char>,
    upper: Seq<char>,
    email1: Option<Seq<char>>,
    email2: Option<Seq<char>>,
)
    ensures
        recognized(state, line, upper).has_address() <==> (state == SmtpState::Greeted
            && "MAIL FROM:"@.is_prefix_of(upper)) || ((state == SmtpState::MailFrom || state
            == SmtpState::RcptTo) && "RCPT TO:"@.is_prefix_of(upper)),
        !recognized(state, line, upper).has_address() ==> command_step(
            state,
            max_size,
            line,
            upper,
            email1,
        ) == command_step(state, max_size, line, upper, email2),
{
    lemma_words_differ(upper);
}

/// Outside a message, lines with one capital form and one address lead to the same step, but for
/// the domain of HELO and EHLO.
pub proof fn law_capital_form_decides(
    state: SmtpState,
    max_size: u64,
    line1: Seq<char>,
    line2: Seq<char>,
    upper: Seq<char>,
    email: Option<Seq<char>>,
)
    requires
        state != SmtpState::Data,
    ensures
        state != SmtpState::Initial || claimed_domain(line1) == claimed_domain(line2)
            ==> command_step(state, max_size, line1, upper, email) == command_step(
            state,
            max_size,
            line2,
            upper,
            email,
        ),
{
}

/// A step shows all that it holds: every reply in full, in order, the next state, and the outcome
/// with its text.
pub proof fn law_step_shows_all(step: CommandStep)
    ensures
        step@.replies.len() == step.replies@.len(),
        forall|i: int|
            0 <= i < step.replies@.len() ==> #[trigger] step@.replies[i] == step.replies@[i]@,
        step@.next_state == step.next_state,
        step@.result == match step.result {
            SmtpCommandResult::Continue => ResultView::Continue,
            SmtpCommandResult::Quit => ResultView::Quit,
            SmtpCommandResult::Helo(domain) => ResultView::Helo(domain@),
            SmtpCommandResult::MailFrom(email) => ResultView::MailFrom(email@),
            SmtpCommandResult::RcptTo(email) => ResultView::RcptTo(email@),
            SmtpCommandResult::DataStart => ResultView::DataStart,
            SmtpCommandResult::DataLine(line) => ResultView::DataLine(line@),
            SmtpCommandResult::DataEnd => ResultView::DataEnd,
            SmtpCommandResult::StartTls => ResultView::StartTls,
        },
{
}

} // verus!
