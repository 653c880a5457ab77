//! What trimming, splitting and spelling come to, told by the parts that a text is made of.

use crate::laws::addresses::{
    is_blank, lacks, lemma_first_after, lemma_first_of_none, lemma_trim_start_blank,
};
use crate::laws::letters::lemma_leading_word_joined;
use crate::protocol::line_in;
use crate::text::{
    CharClass, after_first, ascii_upper, ascii_uppercase, leading_word, lemma_leading_word_shape,
    lemma_trim_start_shape, text_of, trim_end, trim_start, trimmed, words,
};
use vstd::prelude::*;

verus! {

/// `s` has no white space in it.
pub open spec fn is_solid(s: Seq<char>) -> bool {
    forall|i: int| 0 <= i < s.len() ==> !CharClass::WhiteSpace.contains(#[trigger] s[i])
}

/// Nothing, or text that starts with white space.
pub open spec fn is_set_off(s: Seq<char>) -> bool {
    s.len() > 0 ==> CharClass::WhiteSpace.contains(s[0])
}

/// `s` has no white space at its ends.
pub open spec fn is_tight(s: Seq<char>) -> bool {
    s.len() > 0 ==> !CharClass::WhiteSpace.contains(s[0]) && !CharClass::WhiteSpace.contains(
        s.last(),
    )
}

/// White space is, among the ASCII characters, the blank and those from tab to carriage return;
/// beyond them, the other blanks and separators of Unicode. Line breaks are carriage return and
/// line feed.
pub proof fn law_white_space(c: char)
    ensures
        c as int <= 0x7f ==> (CharClass::WhiteSpace.contains(c) <==> c as int == 32 || 9 <= c as int
            <= 13),
        c as int > 0x7f ==> (CharClass::WhiteSpace.contains(c) <==> c as int == 0x85 || c as int
            == 0xa0 || c as int == 0x1680 || 0x2000 <= c as int <= 0x200a || c as int == 0x2028
            || c as int == 0x2029 || c as int == 0x202f || c as int == 0x205f || c as int == 0x3000),
        CharClass::LineBreak.contains(c) <==> c as int == 13 || c as int == 10,
        CharClass::LineBreak.contains(c) ==> CharClass::WhiteSpace.contains(c),
{
}

/// Characters of a class at the end of a text are trimmed away.
pub(crate) proof fn lemma_trim_end_run(s: Seq<char>, run: Seq<char>, class: CharClass)
    requires
        forall|i: int| 0 <= i < run.len() ==> class.contains(#[trigger] run[i]),
    ensures
        trim_end(s + run, class) == trim_end(s, class),
    decreases run.len(),
{
    if run.len() > 0 {
        assert((s + run).last() == run[run.len() - 1]);
        assert((s + run).drop_last() =~= s + run.drop_last());
        lemma_trim_end_run(s, run.drop_last(), class);
    } else {
        assert(s + run =~= s);
    }
}

/// Trimming gives back exactly what stands between the white space at both ends.
pub proof fn law_trimming(before: Seq<char>, text: Seq<char>, after: Seq<char>)
    requires
        is_blank(before),
        is_tight(text),
        is_blank(after),
    ensures
        trimmed(before + text + after) == text,
{
    assert(before + text + after =~= before + (text + after));
    lemma_trim_start_blank(before, text + after);
    if text.len() > 0 {
        assert((text + after)[0] == text[0]);
        lemma_trim_end_run(text, after, CharClass::WhiteSpace);
    } else {
        assert(text + after =~= after + Seq::<char>::empty());
        lemma_trim_start_blank(after, Seq::empty());
    }
}

/// A line that was read is exactly what stands before the carriage returns and line feeds at its
/// end, however many there are and in whatever order.
pub proof fn law_line_is_what_precedes_its_end(line: Seq<char>, end: Seq<char>)
    requires
        line.len() > 0 ==> line.last() != '\r' && line.last() != '\n',
        forall|i: int| 0 <= i < end.len() ==> #[trigger] end[i] == '\r' || end[i] == '\n',
    ensures
        line_in(line + end) == line,
{
    lemma_trim_end_run(line, end, CharClass::LineBreak);
}

/// The text behind a character is all that follows its first occurrence, and there is none where
/// the character does not occur.
pub proof fn law_text_behind_a_character(head: Seq<char>, c: char, rest: Seq<char>)
    requires
        lacks(head, c),
    ensures
        after_first(head + seq![c] + rest, c) == Some(rest),
        after_first(head, c) is None,
{
    lemma_first_after(head, c, rest);
    lemma_first_of_none(head, c);
    assert((head + seq![c] + rest).skip(head.len() as int + 1) =~= rest);
}

/// The first word of a text is the whole run up to the next white space, and the other words are
/// those of what follows; white space has no words.
pub proof fn law_first_word(before: Seq<char>, word: Seq<char>, rest: Seq<char>)
    requires
        is_blank(before),
        is_solid(word),
        word.len() > 0,
        is_set_off(rest),
    ensures
        words(before + word + rest) == seq![word] + words(rest),
        words(before) == Seq::<Seq<char>>::empty(),
{
    let t = word + rest;
    assert(before + word + rest =~= before + t);
    lemma_trim_start_blank(before, t);
    assert(t[0] == word[0]);
    lemma_leading_word_joined(word, rest);
    assert(leading_word(t) =~= word);
    assert(t.skip(word.len() as int) =~= rest);
    assert(before + Seq::<char>::empty() =~= before);
    lemma_trim_start_blank(before, Seq::empty());
}

/// Texts one behind the other.
pub open spec fn joined(parts: Seq<Seq<char>>) -> Seq<char>
    decreases parts.len(),
{
    if parts.len() == 0 {
        Seq::empty()
    } else {
        parts[0] + joined(parts.skip(1))
    }
}

/// `s` with every white space character taken out.
pub open spec fn without_white_space(s: Seq<char>) -> Seq<char>
    decreases s.len(),
{
    if s.len() == 0 {
        Seq::empty()
    } else if CharClass::WhiteSpace.contains(s[0]) {
        without_white_space(s.skip(1))
    } else {
        seq![s[0]] + without_white_space(s.skip(1))
    }
}

/// White space at the start adds nothing once white space is taken out.
proof fn lemma_white_space_adds_nothing(s: Seq<char>)
    ensures
        without_white_space(s) == without_white_space(trim_start(s, CharClass::WhiteSpace)),
    decreases s.len(),
{
    if s.len() > 0 && CharClass::WhiteSpace.contains(s[0]) {
        lemma_white_space_adds_nothing(s.skip(1));
    }
}

/// A word at the start stays once white space is taken out.
proof fn lemma_word_stays(word: Seq<char>, rest: Seq<char>)
    requires
        is_solid(word),
    ensures
        without_white_space(word + rest) == word + without_white_space(rest),
    decreases word.len(),
{
    if word.len() > 0 {
        let tail = word.skip(1);
        assert((word + rest)[0] == word[0]);
        assert forall|i: int| 0 <= i < tail.len() implies !CharClass::WhiteSpace.contains(
            #[trigger] tail[i],
        ) by {
            assert(tail[i] == word[i + 1]);
        }
        lemma_word_stays(tail, rest);
        assert((word + rest).skip(1) =~= tail + rest);
        assert(seq![word[0]] + (tail + without_white_space(rest)) =~= word + without_white_space(
            rest,
        ));
    } else {
        assert(word + rest =~= rest);
        assert(word + without_white_space(rest) =~= without_white_space(rest));
    }
}

/// The words of a text hold all its characters but white space, in order: none is shortened, and
/// none is left out.
pub proof fn law_words_keep_every_character(s: Seq<char>)
    ensures
        joined(words(s)) == without_white_space(s),
        forall|k: int|
            0 <= k < words(s).len() ==> (#[trigger] words(s)[k]).len() > 0 && is_solid(words(s)[k]),
    decreases s.len(),
{
    let t = trim_start(s, CharClass::WhiteSpace);
    lemma_trim_start_shape(s, CharClass::WhiteSpace);
    lemma_white_space_adds_nothing(s);
    if t.len() > 0 {
        let word = leading_word(t);
        lemma_leading_word_shape(t);
        let rest = t.skip(word.len() as int);
        assert(t =~= word + rest);
        lemma_word_stays(word, rest);
        law_words_keep_every_character(rest);
        assert(words(s).skip(1) =~= words(rest));
        assert forall|k: int| 0 <= k < words(s).len() implies (#[trigger] words(s)[k]).len() > 0
            && is_solid(words(s)[k]) by {
            if k > 0 {
                assert(words(s)[k] == words(rest)[k - 1]);
            }
        }
    }
}

/// Capitals: a small ASCII letter becomes the letter in the same place of the alphabet, any other
/// character stays, and no character is added or lost.
pub proof fn law_capital_letters(s: Seq<char>)
    ensures
        ascii_uppercase(s).len() == s.len(),
        forall|i: int|
            0 <= i < s.len() ==> #[trigger] ascii_uppercase(s)[i] as int == if 'a' <= s[i] <= 'z' {
                'A' as int + (s[i] as int - 'a' as int)
            } else {
                s[i] as int
            },
        ascii_uppercase(ascii_uppercase(s)) == ascii_uppercase(s),
{
    assert forall|i: int| 0 <= i < s.len() implies ascii_upper(#[trigger] ascii_uppercase(s)[i])
        == ascii_uppercase(s)[i] by {
        assert(ascii_uppercase(s)[i] == ascii_upper(s[i]));
    }
    assert(ascii_uppercase(ascii_uppercase(s)) =~= ascii_uppercase(s));
}

/// A text that is there shows all its characters, and one that is missing shows none.
pub proof fn law_text_shows_all(text: String)
    ensures
        text_of(Some(text)) == Some(text@),
        text_of(None) is None,
{
}

} // verus!
