//! What holds of every command, in every state.

use crate::command::{ResultView, SmtpState, StepView, command_step};
use crate::laws::replies::lemma_fixed_replies;
use crate::text::{decimal, words};
use vstd::prelude::*;

verus! {

/// A prefix gives the first characters, and first characters make a prefix.
pub(crate) proof fn lemma_prefix(prefix: Seq<char>, s: Seq<char>)
    ensures
        prefix.is_prefix_of(s) <==> prefix.len() <= s.len() && (forall|i: int|
            0 <= i < prefix.len() ==> prefix[i] == #[trigger] s[i]),
{
    if prefix.is_prefix_of(s) {
        assert forall|i: int| 0 <= i < prefix.len() implies prefix[i] == #[trigger] s[i] by {
            assert(s.subrange(0, prefix.len() as int)[i] == s[i]);
        }
    }
}

/// No line starts with `QUIT` and with another command word.
proof fn lemma_quit_alone(s: Seq<char>)
    requires
        "QUIT"@.is_prefix_of(s),
    ensures
        !"HELO"@.is_prefix_of(s),
        !"EHLO"@.is_prefix_of(s),
        !"MAIL FROM:"@.is_prefix_of(s),
        !"STARTTLS"@.is_prefix_of(s),
        !"RCPT TO:"@.is_prefix_of(s),
        !"DATA"@.is_prefix_of(s),
{
    reveal_strlit("QUIT");
    reveal_strlit("HELO");
    reveal_strlit("EHLO");
    reveal_strlit("MAIL FROM:");
    reveal_strlit("STARTTLS");
    reveal_strlit("RCPT TO:");
    reveal_strlit("DATA");
    lemma_prefix("QUIT"@, s);
    lemma_prefix("HELO"@, s);
    lemma_prefix("EHLO"@, s);
    lemma_prefix("MAIL FROM:"@, s);
    lemma_prefix("STARTTLS"@, s);
    lemma_prefix("RCPT TO:"@, s);
    lemma_prefix("DATA"@, s);
    assert(s[0] == 'Q');
}

/// While a message is being received every line but `.` belongs to it, whatever command it looks
/// like, and nothing is answered; `.` ends the message and makes room for the next one.
pub proof fn law_message_lines_are_kept(
    max_size: u64,
    line: Seq<char>,
    upper: Seq<char>,
    email: Option<Seq<char>>,
)
    ensures
        command_step(SmtpState::Data, max_size, line, upper, email) == if line == "."@ {
            StepView {
                replies: Seq::empty(),
                next_state: SmtpState::Greeted,
                result: ResultView::DataEnd,
            }
        } else {
            StepView {
                replies: Seq::empty(),
                next_state: SmtpState::Data,
                result: ResultView::DataLine(line),
            }
        },
{
}

/// Outside a message, QUIT is understood in every state; it is answered with 221 and leaves the
/// state alone. Nothing else makes the session quit.
pub proof fn law_quit(
    state: SmtpState,
    max_size: u64,
    line: Seq<char>,
    upper: Seq<char>,
    email: Option<Seq<char>>,
)
    ensures
        command_step(state, max_size, line, upper, email).result == ResultView::Quit <==> state
            != SmtpState::Data && "QUIT"@.is_prefix_of(upper),
        state != SmtpState::Data && "QUIT"@.is_prefix_of(upper) ==> command_step(
            state,
            max_size,
            line,
            upper,
            email,
        ) == (StepView {
            replies: seq!["221 Bye"@],
            next_state: state,
            result: ResultView::Quit,
        }),
{
    if "QUIT"@.is_prefix_of(upper) {
        lemma_quit_alone(upper);
    }
}

/// HELO and EHLO open a new session with the claimed domain, or `client` if there is none. EHLO
/// is answered with that domain, the configured size, and STARTTLS.
pub proof fn law_helo_and_ehlo(
    max_size: u64,
    line: Seq<char>,
    upper: Seq<char>,
    email: Option<Seq<char>>,
)
    requires
        "HELO"@.is_prefix_of(upper) || "EHLO"@.is_prefix_of(upper),
    ensures
        ({
            let step = command_step(SmtpState::Initial, max_size, line, upper, email);
            let domain = if words(line).len() > 1 {
                words(line)[1]
            } else {
                "client"@
            };
            &&& step.next_state == SmtpState::Greeted
            &&& step.result == ResultView::Helo(domain)
            &&& step.replies == if "EHLO"@.is_prefix_of(upper) {
                seq![
                    "250-MailLaser greets "@ + domain,
                    "250-SIZE "@ + decimal(max_size as nat),
                    "250 STARTTLS"@,
                ]
            } else {
                seq!["250 MailLaser"@]
            }
        }),
{
    reveal_strlit("HELO");
    reveal_strlit("EHLO");
    lemma_prefix("HELO"@, upper);
    lemma_prefix("EHLO"@, upper);
    assert("HELO"@.is_prefix_of(upper) ==> upper[0] == 'H');
    assert("EHLO"@.is_prefix_of(upper) ==> upper[0] == 'E');
}

/// STARTTLS is accepted after the greeting and in no other state, and it leaves the session
/// greeted.
pub proof fn law_starttls(
    state: SmtpState,
    max_size: u64,
    line: Seq<char>,
    upper: Seq<char>,
    email: Option<Seq<char>>,
)
    ensures
        command_step(state, max_size, line, upper, email).result == ResultView::StartTls <==> state
            == SmtpState::Greeted && "STARTTLS"@.is_prefix_of(upper),
        state == SmtpState::Greeted && "STARTTLS"@.is_prefix_of(upper) ==> command_step(
            state,
            max_size,
            line,
            upper,
            email,
        ) == (StepView {
            replies: seq!["220 Go ahead"@],
            next_state: SmtpState::Greeted,
            result: ResultView::StartTls,
        }),
{
    if "STARTTLS"@.is_prefix_of(upper) {
        reveal_strlit("STARTTLS");
        reveal_strlit("MAIL FROM:");
        lemma_prefix("STARTTLS"@, upper);
        lemma_prefix("MAIL FROM:"@, upper);
        assert(upper[0] == 'S');
    }
}

/// A refused command, and no other, is answered with a single line whose code starts with 5, and
/// leaves the session where it was.
pub proof fn law_refusal_changes_nothing(
    state: SmtpState,
    max_size: u64,
    line: Seq<char>,
    upper: Seq<char>,
    email: Option<Seq<char>>,
)
    ensures
        ({
            let step = command_step(state, max_size, line, upper, email);
            &&& step.result == ResultView::Continue ==> step.next_state == state
                && step.replies.len() == 1 && step.replies[0].len() > 0 && step.replies[0][0] == '5'
            &&& step.result != ResultView::Continue ==> forall|i: int|
                0 <= i < step.replies.len() ==> #[trigger] step.replies[i].len() > 0
                    && step.replies[i][0] != '5'
        }),
{
    lemma_fixed_replies();
}

/// Each outcome comes from the states that allow it and leads where it should; an outcome that
/// moves nothing leaves the state alone.
pub proof fn law_order_of_commands(
    state: SmtpState,
    max_size: u64,
    line: Seq<char>,
    upper: Seq<char>,
    email: Option<Seq<char>>,
)
    ensures
        ({
            let step = command_step(state, max_size, line, upper, email);
            match step.result {
                ResultView::Helo(_) => state == SmtpState::Initial && step.next_state
                    == SmtpState::Greeted,
                ResultView::MailFrom(_) => state == SmtpState::Greeted && step.next_state
                    == SmtpState::MailFrom,
                ResultView::RcptTo(_) => (state == SmtpState::MailFrom || state
                    == SmtpState::RcptTo) && step.next_state == SmtpState::RcptTo,
                ResultView::DataStart => state == SmtpState::RcptTo && step.next_state
                    == SmtpState::Data,
                ResultView::DataLine(_) => state == SmtpState::Data && step.next_state
                    == SmtpState::Data,
                ResultView::DataEnd => state == SmtpState::Data && step.next_state
                    == SmtpState::Greeted,
                ResultView::StartTls => state == SmtpState::Greeted && step.next_state
                    == SmtpState::Greeted,
                ResultView::Quit => state != SmtpState::Data && step.next_state == state,
                ResultView::Continue => state != SmtpState::Data && step.next_state == state,
            }
        }),
{
}

} // verus!
