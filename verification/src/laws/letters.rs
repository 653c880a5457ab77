//! What holds whatever the case of the letters.

use crate::address::{address_part, email_in};
use crate::command::{Command, SmtpState, claimed_domain, command_step, recognized};
use crate::laws::addresses::{lacks, lemma_after_verb};
use crate::laws::commands::lemma_prefix;
use crate::text::{
    CharClass, ascii_upper, ascii_uppercase, capitals_fit, leading_word, lemma_leading_word_shape,
    trim_start, words,
};
use vstd::prelude::*;
use vstd::utf8::is_ascii_chars;

verus! {

/// The words that commands start with.
pub open spec fn is_command_word(word: Seq<char>) -> bool {
    ||| word == "HELO"@
    ||| word == "EHLO"@
    ||| word == "MAIL FROM:"@
    ||| word == "RCPT TO:"@
    ||| word == "DATA"@
    ||| word == "STARTTLS"@
    ||| word == "QUIT"@
}

/// Text with ASCII capitals is ASCII text.
proof fn lemma_ascii_by_capitals(s: Seq<char>)
    requires
        is_ascii_chars(ascii_uppercase(s)),
    ensures
        is_ascii_chars(s),
{
    assert forall|i: int| 0 <= i < s.len() implies '\0' <= #[trigger] s[i] <= '\u{7f}' by {
        assert(ascii_uppercase(s)[i] == ascii_upper(s[i]));
        assert('\0' <= ascii_uppercase(s)[i] <= '\u{7f}');
    }
}

/// An ASCII word in any case, at the start of a line, makes the start of the capital form.
pub(crate) proof fn lemma_word_starts_line(
    word: Seq<char>,
    v: Seq<char>,
    rest: Seq<char>,
    upper: Seq<char>,
)
    requires
        is_ascii_chars(word),
        ascii_uppercase(v) == word,
        capitals_fit(v + rest, upper),
    ensures
        word.is_prefix_of(upper),
{
    lemma_ascii_by_capitals(v);
    assert((v + rest).take(v.len() as int) =~= v);
}

/// A line stands for the command whose word it starts with, whatever the case of the letters, and
/// for no other; no more than the characters in the place of the word need to be ASCII.
pub proof fn law_command_word_in_any_case(word: Seq<char>, line: Seq<char>, upper: Seq<char>)
    requires
        is_ascii_chars(
            line.take(
                if word.len() <= line.len() {
                    word.len() as int
                } else {
                    line.len() as int
                },
            ),
        ),
        capitals_fit(line, upper),
    ensures
        word.is_prefix_of(upper) <==> word.len() <= line.len() && (forall|i: int|
            0 <= i < word.len() ==> word[i] == ascii_upper(#[trigger] line[i])),
{
    lemma_prefix(word, upper);
    if word.len() <= line.len() {
        let head = line.take(word.len() as int);
        let capitals = ascii_uppercase(head);
        lemma_prefix(capitals, upper);
        assert forall|i: int| 0 <= i < word.len() implies #[trigger] upper[i] == ascii_upper(
            line[i],
        ) by {
            assert(capitals[i] == upper[i]);
            assert(head[i] == line[i]);
        }
        if forall|i: int| 0 <= i < word.len() ==> word[i] == ascii_upper(#[trigger] line[i]) {
            assert forall|i: int| 0 <= i < word.len() implies word[i] == #[trigger] upper[i] by {
                assert(word[i] == ascii_upper(line[i]));
            }
        }
        if word.is_prefix_of(upper) {
            assert forall|i: int| 0 <= i < word.len() implies word[i] == ascii_upper(
                #[trigger] line[i],
            ) by {
                assert(upper[i] == ascii_upper(line[i]));
            }
        }
    } else {
        assert(line.take(line.len() as int) =~= line);
    }
}

/// The word at the start of the capital form decides the command.
proof fn lemma_recognized_by_word(
    state: SmtpState,
    line: Seq<char>,
    upper: Seq<char>,
    word: Seq<char>,
)
    requires
        state != SmtpState::Data,
        is_command_word(word),
        word.is_prefix_of(upper),
    ensures
        recognized(state, line, upper) == recognized(state, line, word),
        recognized(state, line, upper) == Command::Helo ==> word == "HELO"@,
        recognized(state, line, upper) == Command::Ehlo ==> word == "EHLO"@,
        recognized(state, line, upper).has_address() ==> word == "MAIL FROM:"@ || word
            == "RCPT TO:"@,
{
    reveal_strlit("HELO");
    reveal_strlit("EHLO");
    reveal_strlit("MAIL FROM:");
    reveal_strlit("RCPT TO:");
    reveal_strlit("DATA");
    reveal_strlit("STARTTLS");
    reveal_strlit("QUIT");
    lemma_prefix(word, upper);
    assert(word[0] == upper[0]);
    lemma_same_start("HELO"@, upper, word);
    lemma_same_start("EHLO"@, upper, word);
    lemma_same_start("MAIL FROM:"@, upper, word);
    lemma_same_start("RCPT TO:"@, upper, word);
    lemma_same_start("DATA"@, upper, word);
    lemma_same_start("STARTTLS"@, upper, word);
    lemma_same_start("QUIT"@, upper, word);
}

/// A text that starts like `word` in its first character only if it is `word` starts `upper` if
/// and only if it starts `word`.
proof fn lemma_same_start(other: Seq<char>, upper: Seq<char>, word: Seq<char>)
    requires
        other.len() > 0,
        word.len() > 0,
        word.is_prefix_of(upper),
        other[0] == word[0] ==> other == word,
    ensures
        other.is_prefix_of(upper) == other.is_prefix_of(word),
        other.is_prefix_of(word) ==> other == word,
{
    lemma_prefix(word, upper);
    lemma_prefix(other, upper);
    lemma_prefix(other, word);
    assert(word[0] == upper[0]);
}

/// Text without white space joins the word that follows it.
pub(crate) proof fn lemma_leading_word_joined(v: Seq<char>, rest: Seq<char>)
    requires
        forall|i: int| 0 <= i < v.len() ==> !CharClass::WhiteSpace.contains(#[trigger] v[i]),
    ensures
        leading_word(v + rest) == v + leading_word(rest),
    decreases v.len(),
{
    if v.len() > 0 {
        let tail = v.skip(1);
        assert forall|i: int| 0 <= i < tail.len() implies !CharClass::WhiteSpace.contains(
            #[trigger] tail[i],
        ) by {
            assert(tail[i] == v[i + 1]);
        }
        lemma_leading_word_joined(tail, rest);
        assert((v + rest)[0] == v[0]);
        assert((v + rest).skip(1) =~= tail + rest);
        assert(seq![v[0]] + (tail + leading_word(rest)) =~= v + leading_word(rest));
    } else {
        assert(v + rest =~= rest);
        assert(v + leading_word(rest) =~= leading_word(rest));
    }
}

/// The domain claimed behind a command word does not depend on that word.
proof fn lemma_domain_behind_word(v: Seq<char>, rest: Seq<char>)
    requires
        v.len() > 0,
        forall|i: int| 0 <= i < v.len() ==> !CharClass::WhiteSpace.contains(#[trigger] v[i]),
    ensures
        claimed_domain(v + rest) == {
            let later = words(rest.skip(leading_word(rest).len() as int));
            if later.len() > 0 {
                later[0]
            } else {
                "client"@
            }
        },
{
    let line = v + rest;
    assert(line[0] == v[0]);
    assert(trim_start(line, CharClass::WhiteSpace) == line);
    lemma_leading_word_joined(v, rest);
    lemma_leading_word_shape(rest);
    assert(line.skip(leading_word(line).len() as int) =~= rest.skip(
        leading_word(rest).len() as int,
    ));
}

/// The address behind a command word that ends in a colon does not depend on that word.
proof fn lemma_address_behind_word(word: Seq<char>, v: Seq<char>, w: Seq<char>, rest: Seq<char>)
    requires
        ascii_uppercase(v) == word,
        ascii_uppercase(w) == word,
        word.len() > 0,
        word.last() == ':',
        lacks(word.drop_last(), ':'),
    ensures
        address_part(v + rest) == address_part(w + rest),
{
    lemma_colon_in_place(word, v);
    lemma_colon_in_place(word, w);
    lemma_after_verb(v.drop_last(), rest);
    lemma_after_verb(w.drop_last(), rest);
    assert(v.drop_last() + seq![':'] + rest =~= v + rest);
    assert(w.drop_last() + seq![':'] + rest =~= w + rest);
}

/// Capitals leave a colon where it is.
proof fn lemma_colon_in_place(word: Seq<char>, v: Seq<char>)
    requires
        ascii_uppercase(v) == word,
        word.len() > 0,
        word.last() == ':',
        lacks(word.drop_last(), ':'),
    ensures
        v.len() > 0,
        v.last() == ':',
        lacks(v.drop_last(), ':'),
{
    assert(word.last() == ascii_upper(v.last()));
    assert forall|i: int| 0 <= i < v.len() - 1 implies #[trigger] v.drop_last()[i] != ':' by {
        assert(word.drop_last()[i] == ascii_upper(v[i]));
    }
}

/// Outside a message, the case of a command word changes nothing: the replies, the next state and
/// the outcome are the same, and the rest of the line is taken as it stands.
pub proof fn law_case_of_command_word_is_free(
    state: SmtpState,
    max_size: u64,
    word: Seq<char>,
    v: Seq<char>,
    w: Seq<char>,
    rest: Seq<char>,
    upper1: Seq<char>,
    upper2: Seq<char>,
)
    requires
        state != SmtpState::Data,
        is_command_word(word),
        ascii_uppercase(v) == word,
        ascii_uppercase(w) == word,
        capitals_fit(v + rest, upper1),
        capitals_fit(w + rest, upper2),
    ensures
        command_step(state, max_size, v + rest, upper1, email_in(v + rest)) == command_step(
            state,
            max_size,
            w + rest,
            upper2,
            email_in(w + rest),
        ),
{
    reveal_strlit("HELO");
    reveal_strlit("EHLO");
    reveal_strlit("MAIL FROM:");
    reveal_strlit("RCPT TO:");
    reveal_strlit("DATA");
    reveal_strlit("STARTTLS");
    reveal_strlit("QUIT");
    assert(is_ascii_chars(word));
    lemma_word_starts_line(word, v, rest, upper1);
    lemma_word_starts_line(word, w, rest, upper2);
    lemma_recognized_by_word(state, v + rest, upper1, word);
    lemma_recognized_by_word(state, w + rest, upper2, word);
    if word == "HELO"@ || word == "EHLO"@ {
        assert forall|i: int| 0 <= i < v.len() implies !CharClass::WhiteSpace.contains(
            #[trigger] v[i],
        ) by {
            assert(word[i] == ascii_upper(v[i]));
        }
        assert forall|i: int| 0 <= i < w.len() implies !CharClass::WhiteSpace.contains(
            #[trigger] w[i],
        ) by {
            assert(word[i] == ascii_upper(w[i]));
        }
        lemma_domain_behind_word(v, rest);
        lemma_domain_behind_word(w, rest);
    } else if word == "MAIL FROM:"@ || word == "RCPT TO:"@ {
        lemma_address_behind_word(word, v, w, rest);
    }
}

} // verus!
