//! What holds of every reply, and of lines on the wire.

use crate::command::{SmtpState, claimed_domain, command_step};
use crate::protocol::{line_in, wire_form};
use crate::text::{
    CharClass, decimal, leading_word, lemma_leading_word_shape, lemma_trim_end_shape,
    lemma_trim_start_shape, trim_end, trim_start, words,
};
use vstd::prelude::*;
use vstd::utf8::{
    decode_utf8, encode_utf8, encode_utf8_decode_utf8, is_ascii_chars_encode_utf8,
};

verus! {

/// `s` has no line break in it.
pub open spec fn is_one_line(s: Seq<char>) -> bool {
    forall|i: int| 0 <= i < s.len() ==> !CharClass::LineBreak.contains(#[trigger] s[i])
}

/// A decimal digit.
pub open spec fn is_digit(c: char) -> bool {
    '0' <= c <= '9'
}

/// `line` starts with the three digits of `code` and then `mark`.
pub open spec fn has_code(line: Seq<char>, code: Seq<char>, mark: char) -> bool {
    &&& code.len() == 3
    &&& is_digit(code[0]) && is_digit(code[1]) && is_digit(code[2])
    &&& line.len() >= 4
    &&& line.take(3) == code
    &&& line[3] == mark
}

/// `line` is a single line that starts with a code of the class of `class` and then `mark`.
pub open spec fn is_reply(line: Seq<char>, class: char, mark: char) -> bool {
    has_code(line, line.take(3), mark) && line[0] == class && is_one_line(line)
}

/// The shape of the fixed texts in the replies.
pub(crate) proof fn lemma_fixed_replies()
    ensures
        is_reply("250 MailLaser"@, '2', ' '),
        is_reply("250-MailLaser greets "@, '2', '-'),
        is_reply("250-SIZE "@, '2', '-'),
        is_reply("250 STARTTLS"@, '2', ' '),
        is_reply("220 Go ahead"@, '2', ' '),
        is_reply("221 Bye"@, '2', ' '),
        is_reply("354 Start mail input; end with <CRLF>.<CRLF>"@, '3', ' '),
        is_reply("501 Syntax error in MAIL FROM parameters"@, '5', ' '),
        is_reply("501 Syntax error in RCPT TO parameters"@, '5', ' '),
        is_reply("503 Bad sequence of commands (expected MAIL FROM or STARTTLS)"@, '5', ' '),
        is_reply("503 Bad sequence of commands (expected RCPT TO)"@, '5', ' '),
        is_reply("503 Bad sequence of commands (expected DATA or RCPT TO)"@, '5', ' '),
        is_reply("500 Command not recognized or out of sequence"@, '5', ' '),
        "250-MailLaser greets "@.take(3) == "250 STARTTLS"@.take(3),
        "250-SIZE "@.take(3) == "250 STARTTLS"@.take(3),
{
    reveal_strlit("250 MailLaser");
    reveal_strlit("250-MailLaser greets ");
    reveal_strlit("250-SIZE ");
    reveal_strlit("250 STARTTLS");
    reveal_strlit("220 Go ahead");
    reveal_strlit("221 Bye");
    reveal_strlit("354 Start mail input; end with <CRLF>.<CRLF>");
    reveal_strlit("501 Syntax error in MAIL FROM parameters");
    reveal_strlit("501 Syntax error in RCPT TO parameters");
    reveal_strlit("503 Bad sequence of commands (expected MAIL FROM or STARTTLS)");
    reveal_strlit("503 Bad sequence of commands (expected RCPT TO)");
    reveal_strlit("503 Bad sequence of commands (expected DATA or RCPT TO)");
    reveal_strlit("500 Command not recognized or out of sequence");
    assert("250-MailLaser greets "@.take(3) =~= "250 STARTTLS"@.take(3));
    assert("250-SIZE "@.take(3) =~= "250 STARTTLS"@.take(3));
}

/// The words of a text are not empty and have no white space in them.
pub proof fn lemma_words_shape(s: Seq<char>, k: int)
    requires
        0 <= k < words(s).len(),
    ensures
        words(s)[k].len() > 0,
        forall|i: int|
            0 <= i < words(s)[k].len() ==> !CharClass::WhiteSpace.contains(
                #[trigger] words(s)[k][i],
            ),
    decreases s.len(),
{
    let t = trim_start(s, CharClass::WhiteSpace);
    lemma_trim_start_shape(s, CharClass::WhiteSpace);
    lemma_leading_word_shape(t);
    if k > 0 {
        let rest = t.skip(leading_word(t).len() as int);
        assert(words(s)[k] == words(rest)[k - 1]);
        lemma_words_shape(rest, k - 1);
    }
}

/// A decimal number consists of digits.
pub proof fn lemma_decimal_digits(n: nat)
    ensures
        decimal(n).len() > 0,
        forall|i: int| 0 <= i < decimal(n).len() ==> is_digit(#[trigger] decimal(n)[i]),
    decreases n,
{
    if n >= 10 {
        lemma_decimal_digits(n / 10);
    }
}

/// The number that a text of decimal digits stands for.
pub open spec fn number(s: Seq<char>) -> nat
    decreases s.len(),
{
    if s.len() == 0 {
        0
    } else {
        number(s.drop_last()) * 10 + (s.last() as int - '0' as int) as nat
    }
}

/// The announced size can be read back, and it has no leading zero unless it is zero.
pub proof fn law_size_reads_back(n: nat)
    ensures
        number(decimal(n)) == n,
        decimal(n)[0] == '0' ==> n == 0,
    decreases n,
{
    lemma_decimal_digits(n);
    if n < 10 {
        let s = decimal(n);
        assert(s.drop_last() =~= Seq::<char>::empty());
        assert(number(s.drop_last()) == 0);
    } else {
        let s = decimal(n);
        law_size_reads_back(n / 10);
        lemma_decimal_digits(n / 10);
        assert(s.drop_last() =~= decimal(n / 10));
    }
}

/// A claimed domain stays on one line.
proof fn lemma_domain_is_one_line(line: Seq<char>)
    ensures
        is_one_line(claimed_domain(line)),
{
    reveal_strlit("client");
    if words(line).len() > 1 {
        lemma_words_shape(line, 1);
        let w = words(line)[1];
        assert forall|i: int| 0 <= i < w.len() implies !CharClass::LineBreak.contains(
            #[trigger] w[i],
        ) by {
            assert(!CharClass::WhiteSpace.contains(w[i]));
        }
    }
}

/// Every reply stays on one line, whatever the client has sent.
pub proof fn law_replies_are_single_lines(
    state: SmtpState,
    max_size: u64,
    line: Seq<char>,
    upper: Seq<char>,
    email: Option<Seq<char>>,
    i: int,
)
    requires
        0 <= i < command_step(state, max_size, line, upper, email).replies.len(),
    ensures
        is_one_line(command_step(state, max_size, line, upper, email).replies[i]),
{
    lemma_fixed_replies();
    lemma_domain_is_one_line(line);
    lemma_decimal_digits(max_size as nat);
    let r = command_step(state, max_size, line, upper, email).replies[i];
    let size = "250-SIZE "@ + decimal(max_size as nat);
    assert forall|j: int| 0 <= j < size.len() implies !CharClass::LineBreak.contains(
        #[trigger] size[j],
    ) by {
        if j >= "250-SIZE "@.len() {
            assert(is_digit(decimal(max_size as nat)[j - "250-SIZE "@.len()]));
        }
    }
    let greets = "250-MailLaser greets "@ + claimed_domain(line);
    assert forall|j: int| 0 <= j < greets.len() implies !CharClass::LineBreak.contains(
        #[trigger] greets[j],
    ) by {
        if j >= "250-MailLaser greets "@.len() {
            assert(!CharClass::LineBreak.contains(
                claimed_domain(line)[j - "250-MailLaser greets "@.len()],
            ));
        }
    }
}

/// The lines of a reply carry one three-digit code; a dash follows it on every line but the
/// last, and a blank on the last.
pub proof fn law_reply_format(
    state: SmtpState,
    max_size: u64,
    line: Seq<char>,
    upper: Seq<char>,
    email: Option<Seq<char>>,
    i: int,
)
    requires
        0 <= i < command_step(state, max_size, line, upper, email).replies.len(),
    ensures
        ({
            let replies = command_step(state, max_size, line, upper, email).replies;
            has_code(
                replies[i],
                replies[0].take(3),
                if i < replies.len() - 1 {
                    '-'
                } else {
                    ' '
                },
            )
        }),
{
    lemma_fixed_replies();
    let replies = command_step(state, max_size, line, upper, email).replies;
    assert(replies[i].take(3) =~= replies[0].take(3));
}

/// The bytes of two texts, one behind the other, are those of the whole.
proof fn lemma_encoded_joined(a: Seq<char>, b: Seq<char>)
    ensures
        encode_utf8(a + b) == encode_utf8(a) + encode_utf8(b),
    decreases a.len(),
{
    if a.len() > 0 {
        assert((a + b)[0] == a[0]);
        assert((a + b).drop_first() =~= a.drop_first() + b);
        lemma_encoded_joined(a.drop_first(), b);
        assert(encode_utf8(a + b) =~= encode_utf8(a) + encode_utf8(b));
    } else {
        assert(a + b =~= b);
        assert(encode_utf8(a) + encode_utf8(b) =~= encode_utf8(b));
    }
}

/// Every line goes on the wire whole: its bytes in UTF-8, then the bytes of carriage return and
/// line feed, and nothing else. No two lines go on the wire alike.
pub proof fn law_lines_are_ended(line: Seq<char>, other: Seq<char>)
    ensures
        wire_form(line) == encode_utf8(line) + seq![13u8, 10u8],
        decode_utf8(wire_form(line)) == line + seq!['\r', '\n'],
        wire_form(line) == wire_form(other) ==> line == other,
{
    reveal_strlit("\r\n");
    let end = "\r\n"@;
    assert(end =~= seq!['\r', '\n']);
    lemma_encoded_joined(line, end);
    is_ascii_chars_encode_utf8(end);
    assert(encode_utf8(end) =~= seq![13u8, 10u8]);
    encode_utf8_decode_utf8(line + end);
    encode_utf8_decode_utf8(other + end);
    if wire_form(line) == wire_form(other) {
        let n = line.len() as int;
        assert((line + end).len() == (other + end).len());
        assert((line + end).take(n) =~= line);
        assert((other + end).take(n) =~= other);
    }
}

/// A line that does not end in a line break comes back from the wire as it was: what is written
/// for it decodes to the line and CRLF, and reading that gives the line.
pub proof fn law_line_survives_the_wire(line: Seq<char>)
    requires
        line.len() > 0 ==> !CharClass::LineBreak.contains(line.last()),
    ensures
        decode_utf8(wire_form(line)) == line + "\r\n"@,
        line_in(decode_utf8(wire_form(line))) == line,
{
    reveal_strlit("\r\n");
    let text = line + "\r\n"@;
    encode_utf8_decode_utf8(text);
    assert(text.drop_last().drop_last() =~= line);
    assert(trim_end(text, CharClass::LineBreak) == trim_end(text.drop_last(), CharClass::LineBreak));
    assert(trim_end(text.drop_last(), CharClass::LineBreak) == trim_end(line, CharClass::LineBreak));
}

/// CRLF and a bare LF end a line alike, and a line that was read has no line break at its end.
pub proof fn law_line_ends(text: Seq<char>)
    ensures
        line_in(text + seq!['\r', '\n']) == line_in(text),
        line_in(text + seq!['\n']) == line_in(text),
        line_in(text).len() > 0 ==> !CharClass::LineBreak.contains(line_in(text).last()),
        line_in(line_in(text)) == line_in(text),
{
    let crlf = text + seq!['\r', '\n'];
    let lf = text + seq!['\n'];
    assert(crlf.drop_last().drop_last() =~= text);
    assert(trim_end(crlf, CharClass::LineBreak) == trim_end(crlf.drop_last(), CharClass::LineBreak));
    assert(trim_end(crlf.drop_last(), CharClass::LineBreak) == trim_end(text, CharClass::LineBreak));
    assert(lf.drop_last() =~= text);
    lemma_trim_end_shape(text, CharClass::LineBreak);
}

/// Every reply comes back from the wire as it was sent.
pub proof fn law_replies_survive_the_wire(
    state: SmtpState,
    max_size: u64,
    line: Seq<char>,
    upper: Seq<char>,
    email: Option<Seq<char>>,
    i: int,
)
    requires
        0 <= i < command_step(state, max_size, line, upper, email).replies.len(),
    ensures
        ({
            let reply = command_step(state, max_size, line, upper, email).replies[i];
            line_in(decode_utf8(wire_form(reply))) == reply
        }),
{
    let reply = command_step(state, max_size, line, upper, email).replies[i];
    law_replies_are_single_lines(state, max_size, line, upper, email, i);
    law_line_survives_the_wire(reply);
}

} // verus!
