//! The forms that an address can take behind the colon, and what is found in each.

use crate::address::{
    ParsedAddress, address_part, addresses_in, bracketed, email_in, first_of, is_bare,
    is_display_name, is_mailbox, is_quoted_text, is_special, mailboxes, name_end, named_close,
    named_mailbox, quoted_name, starts_quoted,
};
use crate::laws::addresses::{
    in_brackets, is_blank, lacks, law_rest_of_line_is_ignored, lemma_address_part_bracketed,
    lemma_after_verb, lemma_first_after, lemma_first_index_bounds, lemma_first_index_extends,
    lemma_first_of_none, lemma_mailbox_is_plain, lemma_name_end_extends, lemma_trim_start_blank,
    names_only,
};
use crate::laws::texts::{is_solid, is_tight, law_trimming};
use crate::text::{CharClass, first_index, lemma_trim_start_shape, trim_start};
use vstd::prelude::*;

verus! {

/// The mailbox that the parser's reading of an address text gives: its first entry, if it can be
/// read at all and has entries.
pub open spec fn mailbox_read_from(text: Seq<char>) -> Option<Seq<char>> {
    match addresses_in(text) {
        None => None,
        Some(entries) => if entries.len() == 0 {
            None
        } else {
            entries[0]
        },
    }
}

/// The first entry of a list decides, whatever comes behind it: a mailbox is found with its whole
/// address, and nothing is found in a group, in an empty list, or where parsing failed.
pub proof fn law_first_entry_decides<E>(parsed: Result<Vec<ParsedAddress>, E>)
    ensures
        first_of(mailboxes(parsed)) == match parsed {
            Err(_) => None,
            Ok(list) => if list@.len() == 0 {
                None
            } else {
                match list@[0] {
                    ParsedAddress::Single(addr) => Some(addr@),
                    ParsedAddress::Group => None,
                }
            },
        },
{
}

/// The characters that mean something to an address list are the quote, the angle brackets, the
/// comma, the semicolon, the colon and the parentheses; a display name without quotes has none of
/// them, and bare text has no white space either.
pub proof fn law_characters_with_a_meaning(s: Seq<char>)
    ensures
        forall|c: char| #[trigger] is_special(c) <==> "\"<>,;:()"@.contains(c),
        is_display_name(s) <==> forall|i: int|
            0 <= i < s.len() ==> !"\"<>,;:()"@.contains(#[trigger] s[i]),
        is_bare(s) <==> s.len() > 0 && is_display_name(s) && is_solid(s),
        is_mailbox(s) <==> is_bare(s) && exists|i: int| 0 <= i < s.len() && #[trigger] s[i] == '@',
{
    reveal_strlit("\"<>,;:()");
    let special = "\"<>,;:()"@;
    assert forall|c: char| #[trigger] is_special(c) <==> special.contains(c) by {
        assert(special[0] == '"' && special[1] == '<' && special[2] == '>' && special[3] == ',');
        assert(special[4] == ';' && special[5] == ':' && special[6] == '(' && special[7] == ')');
        assert(special.len() == 8);
    }
}

/// The address text of a line without angle brackets round it is all that stands behind the first
/// colon, without the white space at its ends, and the mailbox found is what the parser reads from
/// just that text.
pub proof fn law_text_without_brackets(
    verb: Seq<char>,
    before: Seq<char>,
    text: Seq<char>,
    after: Seq<char>,
)
    requires
        lacks(verb, ':'),
        is_blank(before),
        is_tight(text),
        text.len() > 0 ==> text[0] != '<',
        is_blank(after),
    ensures
        ({
            let line = verb + seq![':'] + (before + text + after);
            &&& address_part(line) == Some(text)
            &&& email_in(line) == mailbox_read_from(text)
        }),
{
    lemma_after_verb(verb, before + text + after);
    law_trimming(before, text, after);
}

/// A line without a colon has no address text, and no mailbox is found in it.
pub proof fn law_line_without_colon(line: Seq<char>)
    requires
        lacks(line, ':'),
    ensures
        address_part(line) is None,
        email_in(line) is None,
{
    lemma_first_of_none(line, ':');
}

/// At `open` an address in angle brackets starts, at `end` it is closed, and at `again`, with no
/// more than white space between, comes another closing bracket.
pub open spec fn closes_twice(s: Seq<char>, open: int, end: int, again: int) -> bool {
    &&& 0 <= open < end < again < s.len()
    &&& s[open] == '<'
    &&& s[end] == '>'
    &&& s[again] == '>'
    &&& is_blank(s.subrange(end + 1, again))
}

/// A named address is kept with its own brackets only where it is closed twice.
proof fn lemma_named_closes_twice(s: Seq<char>)
    requires
        named_close(s) is Some,
    ensures
        exists|open: int, end: int, again: int| closes_twice(s, open, end, again),
{
    let quoted = starts_quoted(s);
    lemma_name_end_extends(s, Seq::empty(), 0, quoted, false);
    let open = name_end(s, 0, quoted, false)->0;
    let rest = s.skip(open + 1);
    let len = first_index(rest, '>');
    lemma_first_index_extends(rest, Seq::empty(), '>');
    lemma_first_index_bounds(rest, '<');
    let last = rest.skip(len + 1);
    lemma_trim_start_shape(last, CharClass::WhiteSpace);
    let t = trim_start(last, CharClass::WhiteSpace);
    let end = open + 1 + len;
    let again = end + 1 + (last.len() - t.len());
    assert(rest[len] == s[end]);
    assert(t[0] == last[last.len() - t.len()]);
    assert(last[last.len() - t.len()] == s[again]);
    let between = s.subrange(end + 1, again);
    assert forall|i: int| 0 <= i < between.len() implies CharClass::WhiteSpace.contains(
        #[trigger] between[i],
    ) by {
        assert(between[i] == last[i]);
    }
    assert(closes_twice(s, open, end, again));
}

/// The address text in angle brackets ends at the first `>`, and the mailbox found is what the
/// parser reads from the text up to there without the white space at its ends, unless what stands
/// behind the opening bracket is an address in brackets that is closed twice.
pub proof fn law_text_in_brackets(
    verb: Seq<char>,
    gap: Seq<char>,
    before: Seq<char>,
    text: Seq<char>,
    after: Seq<char>,
    rest: Seq<char>,
)
    requires
        lacks(verb, ':'),
        is_blank(gap),
        is_blank(before),
        is_tight(text),
        is_blank(after),
        lacks(text, '>'),
        ({
            let s = before + text + after + seq!['>'] + rest;
            forall|open: int, end: int, again: int| !closes_twice(s, open, end, again)
        }),
    ensures
        ({
            let line = in_brackets(verb, gap, before + text + after, rest);
            &&& address_part(line) == Some(text)
            &&& email_in(line) == mailbox_read_from(text)
        }),
{
    let inner = before + text + after;
    if named_close(inner + seq!['>'] + rest) is Some {
        lemma_named_closes_twice(inner + seq!['>'] + rest);
    }
    lemma_text_up_to_bracket(verb, gap, before, text, after, rest);
}

/// The address text in angle brackets that are not those of a named address.
proof fn lemma_text_up_to_bracket(
    verb: Seq<char>,
    gap: Seq<char>,
    before: Seq<char>,
    text: Seq<char>,
    after: Seq<char>,
    rest: Seq<char>,
)
    requires
        lacks(verb, ':'),
        is_blank(gap),
        is_blank(before),
        is_tight(text),
        is_blank(after),
        lacks(text, '>'),
        named_close(before + text + after + seq!['>'] + rest) is None,
    ensures
        ({
            let line = in_brackets(verb, gap, before + text + after, rest);
            &&& address_part(line) == Some(text)
            &&& email_in(line) == mailbox_read_from(text)
        }),
{
    let inner = before + text + after;
    lemma_lacks_bracket(before, text, after);
    law_rest_of_line_is_ignored(verb, gap, inner, rest);
    law_trimming(before, text, after);
}

/// White space round a text adds no closing bracket to it.
proof fn lemma_lacks_bracket(before: Seq<char>, text: Seq<char>, after: Seq<char>)
    requires
        is_blank(before),
        is_blank(after),
        lacks(text, '>'),
    ensures
        lacks(before + text + after, '>'),
{
    let inner = before + text + after;
    assert forall|i: int| 0 <= i < inner.len() implies #[trigger] inner[i] != '>' by {
        if i < before.len() {
            assert(CharClass::WhiteSpace.contains(before[i]));
        } else if i < before.len() + text.len() {
            assert(inner[i] == text[i - before.len()]);
        } else {
            assert(CharClass::WhiteSpace.contains(after[i - before.len() - text.len()]));
        }
    }
}

/// A bracket that nothing closes encloses the rest of the line, without the white space at its
/// ends.
pub proof fn law_bracket_may_stay_open(
    verb: Seq<char>,
    gap: Seq<char>,
    before: Seq<char>,
    text: Seq<char>,
    after: Seq<char>,
)
    requires
        lacks(verb, ':'),
        is_blank(gap),
        is_blank(before),
        is_tight(text),
        is_blank(after),
        lacks(text, '>'),
    ensures
        ({
            let line = verb + seq![':'] + (gap + seq!['<'] + before + text + after);
            &&& address_part(line) == Some(text)
            &&& email_in(line) == mailbox_read_from(text)
        }),
{
    let none = Seq::<char>::empty();
    let body = gap + seq!['<'] + before + text + after;
    lemma_after_verb(verb, body);
    let s = if text.len() > 0 {
        before + text
    } else {
        none
    };
    let spec = seq!['<'] + s;
    if text.len() > 0 {
        assert(spec.last() == text.last());
        assert(body =~= gap + spec + after);
        law_trimming(gap, spec, after);
        assert(before + text + none =~= s);
        lemma_lacks_bracket(before, text, none);
        law_trimming(before, text, none);
    } else {
        assert(text =~= none);
        assert(spec =~= seq!['<']);
        assert(body =~= gap + spec + (before + after));
        lemma_blank_joined(before, after);
        law_trimming(gap, spec, before + after);
        law_trimming(none, none, none);
        assert(none + none + none =~= none);
    }
    assert(spec[0] == '<');
    assert(spec.skip(1) =~= s);
    if named_close(s) is Some {
        lemma_named_closes_twice(s);
        let (open, end, again) = choose|open: int, end: int, again: int|
            closes_twice(s, open, end, again);
        assert(s[end] == '>');
    }
    lemma_first_of_none(s, '>');
    assert(s.take(s.len() as int) =~= s);
}

/// White space behind white space is white space.
proof fn lemma_blank_joined(a: Seq<char>, b: Seq<char>)
    requires
        is_blank(a),
        is_blank(b),
    ensures
        is_blank(a + b),
{
}

/// One quoted part of a display name: what stands between the quotes, and what follows them.
pub struct QuotedPart {
    pub text: Seq<char>,
    pub more: Seq<char>,
}

/// A part is well formed: between its quotes anything may stand, with a backslash before a quote or
/// another backslash; behind them, text without structure.
pub open spec fn is_part(part: QuotedPart) -> bool {
    is_quoted_text(part.text) && is_display_name(part.more)
}

/// A name that is made of quoted parts.
pub open spec fn name_of(parts: Seq<QuotedPart>) -> Seq<char>
    decreases parts.len(),
{
    if parts.len() == 0 {
        Seq::empty()
    } else {
        seq!['"'] + parts[0].text + seq!['"'] + parts[0].more + name_of(parts.skip(1))
    }
}

/// `name` is a display name: made of `parts` if it starts with a quote; otherwise text in which
/// a quote has no meaning, and which has no other structure.
pub open spec fn is_full_name(name: Seq<char>, parts: Seq<QuotedPart>) -> bool {
    if parts.len() > 0 {
        &&& name == name_of(parts)
        &&& forall|i: int| 0 <= i < parts.len() ==> is_part(#[trigger] parts[i])
    } else {
        &&& name.len() > 0 ==> name[0] != '"' && !CharClass::WhiteSpace.contains(name[0])
        &&& forall|i: int| 0 <= i < name.len() ==> #[trigger] name[i] == '"' || !is_special(name[i])
    }
}

/// Text without structure is passed over in a name, and so are quotes in a name that does not
/// start with one.
proof fn lemma_plain_is_passed(s: Seq<char>, from: int, to: int, quoted: bool)
    requires
        0 <= from <= to <= s.len(),
        forall|i: int|
            from <= i < to ==> !is_special(#[trigger] s[i]) || (!quoted && s[i] == '"'),
    ensures
        name_end(s, from, quoted, false) == name_end(s, to, quoted, false),
    decreases to - from,
{
    if from < to {
        assert(!is_special(s[from]) || s[from] == '"');
        lemma_plain_is_passed(s, from + 1, to, quoted);
    }
}

/// Text between quotes is passed over in a name.
proof fn lemma_quoted_is_passed(s: Seq<char>, from: int, text: Seq<char>)
    requires
        0 <= from,
        from + text.len() < s.len(),
        is_quoted_text(text),
        forall|i: int| 0 <= i < text.len() ==> #[trigger] text[i] == s[from + i],
    ensures
        name_end(s, from, true, true) == name_end(s, from + text.len(), true, true),
    decreases text.len(),
{
    if text.len() > 0 {
        assert(text[0] == s[from]);
        let n: int = if text[0] == '\\' {
            2
        } else {
            1
        };
        let tail = text.skip(n);
        assert forall|i: int| 0 <= i < tail.len() implies #[trigger] tail[i] == s[from + n + i] by {
            assert(tail[i] == text[i + n]);
        }
        lemma_quoted_is_passed(s, from + n, tail);
    }
}

/// Quoted parts are passed over in a name.
proof fn lemma_parts_are_passed(s: Seq<char>, from: int, parts: Seq<QuotedPart>)
    requires
        0 <= from,
        from + name_of(parts).len() <= s.len(),
        forall|i: int| 0 <= i < parts.len() ==> is_part(#[trigger] parts[i]),
        forall|i: int| 0 <= i < name_of(parts).len() ==> #[trigger] name_of(parts)[i] == s[from + i],
    ensures
        name_end(s, from, true, false) == name_end(s, from + name_of(parts).len(), true, false),
    decreases parts.len(),
{
    if parts.len() > 0 {
        let name = name_of(parts);
        let text = parts[0].text;
        let more = parts[0].more;
        let later = parts.skip(1);
        let n = text.len() as int;
        let m = n + 2 + more.len() as int;
        assert(is_part(parts[0]));
        assert(name[0] == '"');
        assert(s[from] == '"');
        assert forall|i: int| 0 <= i < text.len() implies #[trigger] text[i] == s[from + 1 + i] by {
            assert(name[1 + i] == text[i]);
        }
        lemma_quoted_is_passed(s, from + 1, text);
        assert(name[1 + n] == '"');
        assert(s[from + 1 + n] == '"');
        assert forall|i: int| from + n + 2 <= i < from + m implies !is_special(#[trigger] s[i]) by {
            assert(name[i - from] == more[i - from - n - 2]);
        }
        lemma_plain_is_passed(s, from + n + 2, from + m, true);
        assert forall|i: int| 0 <= i < later.len() implies is_part(#[trigger] later[i]) by {
            assert(later[i] == parts[i + 1]);
        }
        assert forall|i: int| 0 <= i < name_of(later).len() implies #[trigger] name_of(later)[i]
            == s[from + m + i] by {
            assert(name[m + i] == name_of(later)[i]);
        }
        lemma_parts_are_passed(s, from + m, later);
    }
}

/// The reading of a display name comes to what stands behind it.
proof fn lemma_name_is_read(
    before: Seq<char>,
    name: Seq<char>,
    parts: Seq<QuotedPart>,
    tail: Seq<char>,
)
    requires
        is_blank(before),
        is_full_name(name, parts),
        parts.len() == 0 && name.len() == 0 ==> tail.len() > 0 && tail[0] != '"'
            && !CharClass::WhiteSpace.contains(tail[0]),
    ensures
        ({
            let s = before + name + tail;
            &&& starts_quoted(s) == (parts.len() > 0)
            &&& name_end(s, 0, parts.len() > 0, false) == name_end(
                s,
                before.len() + name.len() as int,
                parts.len() > 0,
                false,
            )
        }),
{
    let s = before + name + tail;
    let k = before.len() as int;
    assert(s =~= before + (name + tail));
    lemma_trim_start_blank(before, name + tail);
    assert forall|i: int| 0 <= i < k implies !is_special(#[trigger] s[i]) by {
        assert(CharClass::WhiteSpace.contains(before[i]));
    }
    lemma_plain_is_passed(s, 0, k, parts.len() > 0);
    if parts.len() > 0 {
        assert(name[0] == '"');
        assert((name + tail)[0] == '"');
        lemma_parts_are_passed(s, k, parts);
    } else {
        assert((name + tail)[0] == if name.len() > 0 {
            name[0]
        } else {
            tail[0]
        });
        assert forall|i: int| k <= i < k + name.len() implies !is_special(#[trigger] s[i]) || s[i]
            == '"' by {
            assert(s[i] == name[i - k]);
        }
        lemma_plain_is_passed(s, k, k + name.len(), false);
    }
}

/// What stands in angle brackets round an address with a display name and brackets of its own.
proof fn lemma_named_is_enclosed(
    before: Seq<char>,
    name: Seq<char>,
    parts: Seq<QuotedPart>,
    addr: Seq<char>,
    space: Seq<char>,
    rest: Seq<char>,
)
    requires
        is_blank(before),
        is_full_name(name, parts),
        lacks(addr, '<'),
        lacks(addr, '>'),
        is_blank(space),
    ensures
        ({
            let inner = before + name + seq!['<'] + addr + seq!['>'];
            bracketed(inner + space + seq!['>'] + rest) == inner
        }),
{
    let inner = before + name + seq!['<'] + addr + seq!['>'];
    let s = inner + space + seq!['>'] + rest;
    let last = space + seq!['>'] + rest;
    let tail = addr + seq!['>'] + last;
    let n = before.len() + name.len() as int;
    assert(s =~= before + name + (seq!['<'] + tail));
    assert((seq!['<'] + tail)[0] == '<');
    lemma_name_is_read(before, name, parts, seq!['<'] + tail);
    assert(s[n] == '<');
    assert(s.skip(n + 1) =~= tail);
    lemma_first_after(addr, '>', last);
    lemma_first_of_none(addr + seq!['>'], '<');
    lemma_first_index_extends(addr + seq!['>'], last, '<');
    assert(tail.skip(addr.len() as int + 1) =~= last);
    assert(last =~= space + (seq!['>'] + rest));
    lemma_trim_start_blank(space, seq!['>'] + rest);
    assert((seq!['>'] + rest)[0] == '>');
    assert(s.take(n + 1 + addr.len() as int + 1) =~= inner);
}

/// An address in brackets behind a display name, quoted or not, is kept whole, with the name, as
/// the text for the parser: in outer brackets, with white space before the closing one or not and
/// whatever behind it, and without them.
pub proof fn law_named_address(
    verb: Seq<char>,
    gap: Seq<char>,
    before: Seq<char>,
    name: Seq<char>,
    parts: Seq<QuotedPart>,
    addr: Seq<char>,
    space: Seq<char>,
    rest: Seq<char>,
)
    requires
        lacks(verb, ':'),
        is_blank(gap),
        is_blank(before),
        is_full_name(name, parts),
        lacks(addr, '<'),
        lacks(addr, '>'),
        is_blank(space),
    ensures
        ({
            let named = name + seq!['<'] + addr + seq!['>'];
            let outer = in_brackets(verb, gap, before + named + space, rest);
            let bare = verb + seq![':'] + (before + named + space);
            &&& address_part(outer) == Some(named)
            &&& email_in(outer) == mailbox_read_from(named)
            &&& name.len() > 0 ==> address_part(bare) == Some(named)
            &&& name.len() > 0 ==> email_in(bare) == mailbox_read_from(named)
        }),
{
    let none = Seq::<char>::empty();
    let named = name + seq!['<'] + addr + seq!['>'];
    let inner = before + name + seq!['<'] + addr + seq!['>'];
    assert(inner =~= before + named);
    if name.len() > 0 {
        assert(named[0] == name[0]);
        assert(parts.len() > 0 ==> name[0] == '"');
        assert(name[0] != '<');
        law_text_without_brackets(verb, before, named, space);
    } else {
        assert(named[0] == '<');
    }
    assert(named.last() == '>');
    assert forall|n: int| 0 <= n <= rest.len() implies bracketed(
        before + named + space + seq!['>'] + #[trigger] rest.take(n),
    ) == inner by {
        lemma_named_is_enclosed(before, name, parts, addr, space, rest.take(n));
    }
    lemma_address_part_bracketed(verb, gap, before + named + space, rest, inner);
    assert(inner =~= before + named + none);
    law_trimming(before, named, none);
}

/// Where brackets enclose no display name with an address in brackets of its own, because a
/// comma, semicolon, colon, parenthesis or closing bracket comes where the name should end, the
/// text ends at the first `>`, whatever follows.
pub proof fn law_structure_ends_a_name(
    verb: Seq<char>,
    gap: Seq<char>,
    before: Seq<char>,
    text: Seq<char>,
    after: Seq<char>,
    rest: Seq<char>,
    name: Seq<char>,
    parts: Seq<QuotedPart>,
    c: char,
    more: Seq<char>,
)
    requires
        lacks(verb, ':'),
        is_blank(gap),
        is_blank(before),
        is_tight(text),
        is_blank(after),
        lacks(text, '>'),
        is_full_name(name, parts),
        c == ',' || c == ';' || c == ':' || c == '(' || c == ')' || c == '>',
        text + after + seq!['>'] + rest == name + seq![c] + more,
    ensures
        ({
            let line = in_brackets(verb, gap, before + text + after, rest);
            &&& address_part(line) == Some(text)
            &&& email_in(line) == mailbox_read_from(text)
        }),
{
    let s = before + text + after + seq!['>'] + rest;
    let tail = seq![c] + more;
    assert(s =~= before + (text + after + seq!['>'] + rest));
    assert(s =~= before + name + tail);
    assert(tail[0] == c);
    lemma_name_is_read(before, name, parts, tail);
    assert(s[before.len() + name.len() as int] == c);
    lemma_text_up_to_bracket(verb, gap, before, text, after, rest);
}

/// Text in angle brackets ends at the first `>` also where it holds a display name with an address
/// in brackets that is closed only once: what follows its `>`, after white space, is not another.
pub proof fn law_address_is_closed_once(
    verb: Seq<char>,
    gap: Seq<char>,
    before: Seq<char>,
    text: Seq<char>,
    after: Seq<char>,
    rest: Seq<char>,
    name: Seq<char>,
    parts: Seq<QuotedPart>,
    addr: Seq<char>,
    white: Seq<char>,
    more: Seq<char>,
)
    requires
        lacks(verb, ':'),
        is_blank(gap),
        is_blank(before),
        is_tight(text),
        is_blank(after),
        lacks(text, '>'),
        is_full_name(name, parts),
        lacks(addr, '>'),
        is_blank(white),
        more.len() > 0 ==> more[0] != '>' && !CharClass::WhiteSpace.contains(more[0]),
        text + after + seq!['>'] + rest == name + seq!['<'] + addr + seq!['>'] + white + more,
    ensures
        ({
            let line = in_brackets(verb, gap, before + text + after, rest);
            &&& address_part(line) == Some(text)
            &&& email_in(line) == mailbox_read_from(text)
        }),
{
    let s = before + text + after + seq!['>'] + rest;
    let last = white + more;
    let tail = addr + seq!['>'] + last;
    let n = before.len() + name.len() as int;
    assert(s =~= before + (text + after + seq!['>'] + rest));
    assert(s =~= before + name + (seq!['<'] + tail));
    assert((seq!['<'] + tail)[0] == '<');
    lemma_name_is_read(before, name, parts, seq!['<'] + tail);
    assert(s[n] == '<');
    assert(s.skip(n + 1) =~= tail);
    lemma_first_after(addr, '>', last);
    assert(tail.skip(addr.len() as int + 1) =~= last);
    lemma_trim_start_blank(white, more);
    lemma_text_up_to_bracket(verb, gap, before, text, after, rest);
}

/// Text in angle brackets ends at the first `>` also where another `<` comes before the address
/// behind the display name is closed.
pub proof fn law_address_is_opened_once(
    verb: Seq<char>,
    gap: Seq<char>,
    before: Seq<char>,
    text: Seq<char>,
    after: Seq<char>,
    rest: Seq<char>,
    name: Seq<char>,
    parts: Seq<QuotedPart>,
    addr: Seq<char>,
    more: Seq<char>,
)
    requires
        lacks(verb, ':'),
        is_blank(gap),
        is_blank(before),
        is_tight(text),
        is_blank(after),
        lacks(text, '>'),
        is_full_name(name, parts),
        lacks(addr, '<'),
        lacks(addr, '>'),
        text + after + seq!['>'] + rest == name + seq!['<'] + addr + seq!['<'] + more,
    ensures
        ({
            let line = in_brackets(verb, gap, before + text + after, rest);
            &&& address_part(line) == Some(text)
            &&& email_in(line) == mailbox_read_from(text)
        }),
{
    let s = before + text + after + seq!['>'] + rest;
    let head = addr + seq!['<'];
    let tail = head + more;
    let n = before.len() + name.len() as int;
    assert(s =~= before + (text + after + seq!['>'] + rest));
    assert(s =~= before + name + (seq!['<'] + tail));
    assert((seq!['<'] + tail)[0] == '<');
    lemma_name_is_read(before, name, parts, seq!['<'] + tail);
    assert(s[n] == '<');
    assert(s.skip(n + 1) =~= tail);
    lemma_first_of_none(head, '>');
    lemma_first_index_extends(head, more, '>');
    lemma_first_after(addr, '<', more);
    lemma_text_up_to_bracket(verb, gap, before, text, after, rest);
}

/// A name does not end in quotes that nothing closes.
proof fn lemma_no_name_in_open_quotes(s: Seq<char>, from: int)
    requires
        0 <= from,
        forall|i: int| from <= i < s.len() ==> #[trigger] s[i] != '"',
    ensures
        name_end(s, from, true, true) is None,
    decreases s.len() - from,
{
    if from < s.len() {
        assert(s[from] != '"');
        if s[from] == '\\' && from + 1 < s.len() {
            lemma_no_name_in_open_quotes(s, from + 2);
        } else {
            lemma_no_name_in_open_quotes(s, from + 1);
        }
    }
}

/// Text in angle brackets ends at the first `>` also where a quote of the display name is never
/// closed.
pub proof fn law_quote_may_stay_open(
    verb: Seq<char>,
    gap: Seq<char>,
    before: Seq<char>,
    text: Seq<char>,
    after: Seq<char>,
    rest: Seq<char>,
    parts: Seq<QuotedPart>,
    more: Seq<char>,
)
    requires
        lacks(verb, ':'),
        is_blank(gap),
        is_blank(before),
        is_tight(text),
        is_blank(after),
        lacks(text, '>'),
        forall|i: int| 0 <= i < parts.len() ==> is_part(#[trigger] parts[i]),
        lacks(more, '"'),
        text + after + seq!['>'] + rest == name_of(parts) + seq!['"'] + more,
    ensures
        ({
            let line = in_brackets(verb, gap, before + text + after, rest);
            &&& address_part(line) == Some(text)
            &&& email_in(line) == mailbox_read_from(text)
        }),
{
    let s = before + text + after + seq!['>'] + rest;
    let name = name_of(parts);
    let tail = seq!['"'] + more;
    let n = before.len() + name.len() as int;
    assert(s =~= before + (text + after + seq!['>'] + rest));
    assert(s =~= before + name + tail);
    assert(tail[0] == '"');
    assert(s[n] == '"');
    if parts.len() > 0 {
        lemma_name_is_read(before, name, parts, tail);
    } else {
        assert(s =~= before + tail);
        lemma_trim_start_blank(before, tail);
        assert forall|i: int| 0 <= i < n implies !is_special(#[trigger] s[i]) by {
            assert(CharClass::WhiteSpace.contains(before[i]));
        }
        lemma_plain_is_passed(s, 0, n, true);
    }
    assert forall|i: int| n + 1 <= i < s.len() implies #[trigger] s[i] != '"' by {
        assert(s[i] == more[i - n - 1]);
    }
    lemma_no_name_in_open_quotes(s, n + 1);
    lemma_text_up_to_bracket(verb, gap, before, text, after, rest);
}

/// A display name without quotes and a plain mailbox in angle brackets: the mailbox is what is
/// found, in outer brackets and without them.
pub proof fn law_unquoted_name_is_left_out(
    verb: Seq<char>,
    gap: Seq<char>,
    before: Seq<char>,
    name: Seq<char>,
    addr: Seq<char>,
    space: Seq<char>,
    rest: Seq<char>,
)
    requires
        lacks(verb, ':'),
        is_blank(gap),
        is_blank(before),
        is_display_name(name),
        name.len() > 0,
        !CharClass::WhiteSpace.contains(name[0]),
        is_mailbox(addr),
        is_blank(space),
    ensures
        ({
            let named = name + seq!['<'] + addr + seq!['>'];
            &&& names_only(in_brackets(verb, gap, before + named + space, rest), addr)
            &&& names_only(verb + seq![':'] + (before + named + space), addr)
        }),
{
    assert(!is_special(name[0]));
    lemma_mailbox_is_plain(addr);
    law_named_address(verb, gap, before, name, Seq::empty(), addr, space, rest);
    assert(name + seq!['<'] + addr + seq!['>'] == named_mailbox(name, addr));
}

/// Text without quotes and backslashes can stand between quotes.
proof fn lemma_text_can_be_quoted(text: Seq<char>)
    requires
        lacks(text, '"'),
        lacks(text, '\\'),
    ensures
        is_quoted_text(text),
    decreases text.len(),
{
    if text.len() > 0 {
        let tail = text.skip(1);
        assert(text[0] != '"' && text[0] != '\\');
        assert forall|i: int| 0 <= i < tail.len() implies #[trigger] tail[i] != '"' && tail[i]
            != '\\' by {
            assert(tail[i] == text[i + 1]);
        }
        lemma_text_can_be_quoted(tail);
    }
}

/// A display name in quotes, with `more` behind them, and a plain mailbox in angle brackets: the
/// mailbox is what is found, in outer brackets and without them.
pub proof fn law_quoted_name_is_left_out(
    verb: Seq<char>,
    gap: Seq<char>,
    before: Seq<char>,
    part: QuotedPart,
    addr: Seq<char>,
    space: Seq<char>,
    rest: Seq<char>,
)
    requires
        lacks(verb, ':'),
        is_blank(gap),
        is_blank(before),
        is_part(part),
        is_mailbox(addr),
        is_blank(space),
    ensures
        ({
            let named = seq!['"'] + part.text + seq!['"'] + part.more + seq!['<'] + addr
                + seq!['>'];
            &&& names_only(in_brackets(verb, gap, before + named + space, rest), addr)
            &&& names_only(verb + seq![':'] + (before + named + space), addr)
        }),
{
    let parts = seq![part];
    let name = quoted_name(part.text, part.more);
    assert(parts.skip(1) =~= Seq::<QuotedPart>::empty());
    assert(name_of(parts.skip(1)) =~= Seq::<char>::empty());
    assert(name_of(parts) =~= name);
    lemma_mailbox_is_plain(addr);
    law_named_address(verb, gap, before, name, parts, addr, space, rest);
    assert(seq!['"'] + part.text + seq!['"'] + part.more + seq!['<'] + addr + seq!['>']
        == named_mailbox(quoted_name(part.text, part.more), addr));
}

/// A display name in quotes, whatever it holds but quotes and backslashes and however long it is,
/// then white space and a plain mailbox in angle brackets: the mailbox is what is found, in outer
/// brackets and without them.
pub proof fn law_name_in_plain_quotes_is_left_out(
    verb: Seq<char>,
    gap: Seq<char>,
    before: Seq<char>,
    text: Seq<char>,
    white: Seq<char>,
    addr: Seq<char>,
    space: Seq<char>,
    rest: Seq<char>,
)
    requires
        lacks(verb, ':'),
        is_blank(gap),
        is_blank(before),
        lacks(text, '"'),
        lacks(text, '\\'),
        is_blank(white),
        is_mailbox(addr),
        is_blank(space),
    ensures
        ({
            let named = seq!['"'] + text + seq!['"'] + white + seq!['<'] + addr + seq!['>'];
            &&& names_only(in_brackets(verb, gap, before + named + space, rest), addr)
            &&& names_only(verb + seq![':'] + (before + named + space), addr)
        }),
{
    lemma_text_can_be_quoted(text);
    assert forall|i: int| 0 <= i < white.len() implies !is_special(#[trigger] white[i]) by {
        assert(CharClass::WhiteSpace.contains(white[i]));
    }
    let part = QuotedPart { text, more: white };
    law_quoted_name_is_left_out(verb, gap, before, part, addr, space, rest);
}

} // verus!
