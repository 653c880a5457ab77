//! What holds of a session from its start.

use crate::command::{ResultView, SmtpState, StepView, command_step};
use vstd::prelude::*;

verus! {

/// A line that the client has sent, with its capital form and the address found in it, and
/// whether all the replies to it could be sent.
pub struct Received {
    pub line: Seq<char>,
    pub upper: Seq<char>,
    pub email: Option<Seq<char>>,
    pub sent: bool,
}

/// What a received line leads to in `state`.
pub open spec fn step_of(state: SmtpState, max_size: u64, r: Received) -> StepView {
    command_step(state, max_size, r.line, r.upper, r.email)
}

/// The state of a new session after the given lines. A line whose replies could not all be sent
/// leaves it where it was.
pub open spec fn state_after(max_size: u64, received: Seq<Received>) -> SmtpState
    decreases received.len(),
{
    if received.len() == 0 {
        SmtpState::Initial
    } else {
        let before = state_after(max_size, received.drop_last());
        if received.last().sent {
            step_of(before, max_size, received.last()).next_state
        } else {
            before
        }
    }
}

/// The outcome of the line at place `i` in a new session; none if its replies could not all be
/// sent.
pub open spec fn outcome(max_size: u64, received: Seq<Received>, i: int) -> Option<ResultView> {
    if received[i].sent {
        Some(step_of(state_after(max_size, received.take(i)), max_size, received[i]).result)
    } else {
        None
    }
}

/// The outcome of the line at place `i` is the greeting of the client.
pub open spec fn is_helo(max_size: u64, received: Seq<Received>, i: int) -> bool {
    outcome(max_size, received, i) matches Some(ResultView::Helo(_))
}

/// The outcome of the line at place `i` is a sender.
pub open spec fn is_sender(max_size: u64, received: Seq<Received>, i: int) -> bool {
    outcome(max_size, received, i) matches Some(ResultView::MailFrom(_))
}

/// The outcome of the line at place `i` is a recipient.
pub open spec fn is_recipient(max_size: u64, received: Seq<Received>, i: int) -> bool {
    outcome(max_size, received, i) matches Some(ResultView::RcptTo(_))
}

/// The outcome of the line at place `i` is the start of a message.
pub open spec fn is_start(max_size: u64, received: Seq<Received>, i: int) -> bool {
    outcome(max_size, received, i) == Some(ResultView::DataStart)
}

/// No message has ended at or after place `from`.
pub open spec fn no_end_since(max_size: u64, received: Seq<Received>, from: int) -> bool {
    forall|i: int|
        from <= i < received.len() ==> #[trigger] outcome(max_size, received, i) != Some(
            ResultView::DataEnd,
        )
}

/// The outcomes that led to the current state: a HELO; then, from the point where the current
/// message was begun, its sender, a recipient, and DATA, as far as the state implies them.
pub open spec fn is_history(
    max_size: u64,
    received: Seq<Received>,
    helo: int,
    sender: int,
    recipient: int,
    data: int,
) -> bool {
    let state = state_after(max_size, received);
    let n = received.len();
    &&& state != SmtpState::Initial ==> 0 <= helo < n && is_helo(max_size, received, helo)
    &&& state == SmtpState::MailFrom || state == SmtpState::RcptTo || state == SmtpState::Data
        ==> helo < sender < n && is_sender(max_size, received, sender) && no_end_since(
        max_size,
        received,
        sender,
    )
    &&& state == SmtpState::RcptTo || state == SmtpState::Data ==> sender < recipient < n
        && is_recipient(max_size, received, recipient)
    &&& state == SmtpState::Data ==> recipient < data < n && is_start(max_size, received, data)
}

/// Earlier outcomes do not depend on later lines.
proof fn lemma_outcome_of_prefix(max_size: u64, received: Seq<Received>, n: int, i: int)
    requires
        0 <= i < n <= received.len(),
    ensures
        outcome(max_size, received.take(n), i) == outcome(max_size, received, i),
{
    assert(received.take(n).take(i) =~= received.take(i));
}

/// Every session has a history for its state.
proof fn lemma_history(max_size: u64, received: Seq<Received>) -> (h: (int, int, int, int))
    ensures
        is_history(max_size, received, h.0, h.1, h.2, h.3),
    decreases received.len(),
{
    if received.len() == 0 {
        (0, 0, 0, 0)
    } else {
        let before = received.drop_last();
        let n = before.len() as int;
        assert(before =~= received.take(n));
        let h = lemma_history(max_size, before);
        assert forall|i: int| 0 <= i < n implies #[trigger] outcome(max_size, received, i)
            == outcome(max_size, before, i) by {
            lemma_outcome_of_prefix(max_size, received, n, i);
        }
        if is_helo(max_size, received, n) {
            (n, h.1, h.2, h.3)
        } else if is_sender(max_size, received, n) {
            (h.0, n, h.2, h.3)
        } else if is_recipient(max_size, received, n) {
            (h.0, h.1, n, h.3)
        } else if is_start(max_size, received, n) {
            (h.0, h.1, h.2, n)
        } else {
            h
        }
    }
}

/// A message is received only for a complete envelope, also where replies could not be sent: when
/// a session has got to the message, the client has introduced itself, and then, since the last
/// message ended, has named a sender, then a recipient, and then asked to send.
pub proof fn law_message_has_envelope(max_size: u64, received: Seq<Received>)
    requires
        state_after(max_size, received) == SmtpState::Data,
    ensures
        exists|helo: int, sender: int, recipient: int, data: int|
            {
                &&& 0 <= helo < sender < recipient < data < received.len()
                &&& #[trigger] is_helo(max_size, received, helo)
                &&& #[trigger] is_sender(max_size, received, sender)
                &&& #[trigger] is_recipient(max_size, received, recipient)
                &&& #[trigger] is_start(max_size, received, data)
                &&& no_end_since(max_size, received, sender)
            },
{
    let h = lemma_history(max_size, received);
    assert(is_helo(max_size, received, h.0));
    assert(is_sender(max_size, received, h.1));
    assert(is_recipient(max_size, received, h.2));
    assert(is_start(max_size, received, h.3));
}

/// A session is in its first state exactly as long as no HELO or EHLO has been answered; one whose
/// replies could not be sent does not count.
pub proof fn law_initial_until_helo(max_size: u64, received: Seq<Received>)
    ensures
        state_after(max_size, received) == SmtpState::Initial <==> forall|i: int|
            0 <= i < received.len() ==> !#[trigger] is_helo(max_size, received, i),
    decreases received.len(),
{
    if received.len() > 0 {
        let before = received.drop_last();
        let n = before.len() as int;
        assert(before =~= received.take(n));
        law_initial_until_helo(max_size, before);
        assert forall|i: int| 0 <= i < n implies #[trigger] outcome(max_size, received, i)
            == outcome(max_size, before, i) by {
            lemma_outcome_of_prefix(max_size, received, n, i);
        }
        if state_after(max_size, before) == SmtpState::Initial {
            assert(is_helo(max_size, received, n) <==> state_after(max_size, received)
                != SmtpState::Initial);
            assert forall|i: int| 0 <= i < n implies !#[trigger] is_helo(max_size, received, i) by {
                assert(!is_helo(max_size, before, i));
            }
        } else {
            let i = choose|i: int| 0 <= i < n && #[trigger] is_helo(max_size, before, i);
            assert(is_helo(max_size, received, i));
        }
    }
}

} // verus!
