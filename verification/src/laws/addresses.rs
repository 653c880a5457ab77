//! What holds of the addresses in command lines.

use crate::address::{
    address_part, bracketed, email_fits, email_in, is_display_name, is_mailbox, is_special,
    name_end, named_close, named_mailbox, starts_quoted,
};
use crate::command::{ResultView, SmtpState, StepView, command_step};
use crate::laws::commands::lemma_prefix;
use crate::laws::letters::lemma_word_starts_line;
use crate::text::{
    CharClass, after_first, ascii_upper, ascii_uppercase, capitals_fit, first_index,
    lemma_trim_end_shape, lemma_trim_start_shape, trim_end, trim_start, trimmed,
};
use vstd::prelude::*;

verus! {

/// `s` is white space only.
pub open spec fn is_blank(s: Seq<char>) -> bool {
    forall|i: int| 0 <= i < s.len() ==> CharClass::WhiteSpace.contains(#[trigger] s[i])
}

/// `s` has no `c` in it.
pub open spec fn lacks(s: Seq<char>, c: char) -> bool {
    forall|i: int| 0 <= i < s.len() ==> #[trigger] s[i] != c
}

/// A command line with an address text in angle brackets: `verb:<inner>rest`, with `gap` behind
/// the colon.
pub open spec fn in_brackets(
    verb: Seq<char>,
    gap: Seq<char>,
    inner: Seq<char>,
    rest: Seq<char>,
) -> Seq<char> {
    verb + seq![':'] + (gap + seq!['<'] + inner + seq!['>'] + rest)
}

/// The address found in `line` can only be `addr`.
pub open spec fn names_only(line: Seq<char>, addr: Seq<char>) -> bool {
    forall|email: Option<Seq<char>>| #[trigger] email_fits(line, email) ==> email == Some(addr)
}

/// No address can be found in `line`.
pub open spec fn names_none(line: Seq<char>) -> bool {
    forall|email: Option<Seq<char>>| #[trigger] email_fits(line, email) ==> email is None
}

/// The first colon of a line is the one behind a verb without colons.
pub(crate) proof fn lemma_after_verb(verb: Seq<char>, rest: Seq<char>)
    requires
        lacks(verb, ':'),
    ensures
        after_first(verb + seq![':'] + rest, ':') == Some(rest),
{
    let line = verb + seq![':'] + rest;
    lemma_first_after(verb, ':', rest);
    assert(line.skip(verb.len() as int + 1) =~= rest);
}

/// Behind text without `c`, the next `c` is the first.
pub(crate) proof fn lemma_first_after(head: Seq<char>, c: char, rest: Seq<char>)
    requires
        lacks(head, c),
    ensures
        first_index(head + seq![c] + rest, c) == head.len(),
    decreases head.len(),
{
    let s = head + seq![c] + rest;
    if head.len() > 0 {
        let tail = head.skip(1);
        assert(s[0] == head[0]);
        assert forall|i: int| 0 <= i < tail.len() implies #[trigger] tail[i] != c by {
            assert(tail[i] == head[i + 1]);
        }
        lemma_first_after(tail, c, rest);
        assert(s.skip(1) =~= tail + seq![c] + rest);
    }
}

/// In text without `c` the first `c` is past the end.
pub(crate) proof fn lemma_first_of_none(s: Seq<char>, c: char)
    requires
        lacks(s, c),
    ensures
        first_index(s, c) == s.len(),
    decreases s.len(),
{
    if s.len() > 0 {
        let tail = s.skip(1);
        assert forall|i: int| 0 <= i < tail.len() implies #[trigger] tail[i] != c by {
            assert(tail[i] == s[i + 1]);
        }
        lemma_first_of_none(tail, c);
    }
}

/// White space at the start of a text is trimmed away.
pub(crate) proof fn lemma_trim_start_blank(gap: Seq<char>, s: Seq<char>)
    requires
        is_blank(gap),
    ensures
        trim_start(gap + s, CharClass::WhiteSpace) == trim_start(s, CharClass::WhiteSpace),
    decreases gap.len(),
{
    if gap.len() > 0 {
        let tail = gap.skip(1);
        assert((gap + s)[0] == gap[0]);
        assert forall|i: int|
            0 <= i < tail.len() implies CharClass::WhiteSpace.contains(#[trigger] tail[i]) by {
            assert(tail[i] == gap[i + 1]);
        }
        lemma_trim_start_blank(tail, s);
        assert((gap + s).skip(1) =~= tail + s);
    } else {
        assert(gap + s =~= s);
    }
}

/// A text that neither starts nor ends in white space is not changed by trimming.
proof fn lemma_trimmed_same(s: Seq<char>)
    requires
        s.len() > 0 ==> !CharClass::WhiteSpace.contains(s[0]) && !CharClass::WhiteSpace.contains(
            s.last(),
        ),
    ensures
        trimmed(s) == s,
{
}

/// Trimming at the end keeps everything up to a character that is not white space.
proof fn lemma_trim_end_keeps(head: Seq<char>, tail: Seq<char>) -> (n: int)
    requires
        head.len() > 0,
        !CharClass::WhiteSpace.contains(head.last()),
    ensures
        0 <= n <= tail.len(),
        trim_end(head + tail, CharClass::WhiteSpace) == head + tail.take(n),
{
    let s = head + tail;
    let t = trim_end(s, CharClass::WhiteSpace);
    lemma_trim_end_shape(s, CharClass::WhiteSpace);
    assert(s[head.len() - 1] == head.last());
    let n = t.len() - head.len();
    assert(head + tail.take(n) =~= t);
    n
}

/// What trimming leaves at the start is not changed by what follows.
proof fn lemma_trim_start_extends(s: Seq<char>, more: Seq<char>)
    requires
        trim_start(s, CharClass::WhiteSpace).len() > 0,
    ensures
        trim_start(s + more, CharClass::WhiteSpace) == trim_start(s, CharClass::WhiteSpace) + more,
    decreases s.len(),
{
    if s.len() > 0 && CharClass::WhiteSpace.contains(s[0]) {
        lemma_trim_start_extends(s.skip(1), more);
        assert((s + more)[0] == s[0]);
        assert((s + more).skip(1) =~= s.skip(1) + more);
    } else {
        assert((s + more)[0] == s[0]);
    }
}

/// The place of a first character is not changed by what follows.
pub(crate) proof fn lemma_first_index_extends(s: Seq<char>, more: Seq<char>, c: char)
    ensures
        0 <= first_index(s, c) <= s.len(),
        first_index(s, c) < s.len() ==> first_index(s + more, c) == first_index(s, c)
            && s[first_index(s, c)] == c,
        first_index(s, c) == s.len() ==> first_index(s + more, c) >= s.len(),
    decreases s.len(),
{
    if s.len() == 0 {
        lemma_first_index_bounds(s + more, c);
    } else if s[0] != c {
        lemma_first_index_extends(s.skip(1), more, c);
        assert((s + more)[0] == s[0]);
        assert((s + more).skip(1) =~= s.skip(1) + more);
    } else {
        assert((s + more)[0] == s[0]);
    }
}

/// The place of a first character is not negative.
pub(crate) proof fn lemma_first_index_bounds(s: Seq<char>, c: char)
    ensures
        0 <= first_index(s, c) <= s.len(),
    decreases s.len(),
{
    if s.len() > 0 && s[0] != c {
        lemma_first_index_bounds(s.skip(1), c);
    }
}

/// The end of a display name is a `<`, and is not changed by what follows.
pub(crate) proof fn lemma_name_end_extends(
    s: Seq<char>,
    more: Seq<char>,
    from: int,
    quoted: bool,
    inside: bool,
)
    requires
        0 <= from,
        name_end(s, from, quoted, inside) is Some,
    ensures
        name_end(s + more, from, quoted, inside) == name_end(s, from, quoted, inside),
        ({
            let end = name_end(s, from, quoted, inside)->0;
            from <= end < s.len() && s[end] == '<'
        }),
    decreases s.len() - from,
{
    let c = (s + more)[from];
    assert(c == s[from]);
    if inside {
        if s[from] == '\\' && from + 1 < s.len() {
            lemma_name_end_extends(s, more, from + 2, quoted, true);
        } else {
            lemma_name_end_extends(s, more, from + 1, quoted, s[from] != '"');
        }
    } else if s[from] == '"' {
        lemma_name_end_extends(s, more, from + 1, quoted, quoted);
    } else if s[from] != '<' {
        lemma_name_end_extends(s, more, from + 1, quoted, false);
    }
}

/// Where a named address is closed twice, what follows does not matter.
proof fn lemma_named_close_extends(s: Seq<char>, more: Seq<char>)
    requires
        named_close(s) is Some,
    ensures
        named_close(s + more) == named_close(s),
{
    let quoted = starts_quoted(s);
    lemma_name_end_extends(s, more, 0, quoted, false);
    let open = name_end(s, 0, quoted, false)->0;
    lemma_not_blank(s, open);
    lemma_trim_start_extends(s, more);
    let rest = s.skip(open + 1);
    let end = first_index(rest, '>');
    assert((s + more).skip(open + 1) =~= rest + more);
    lemma_first_index_extends(rest, more, '>');
    lemma_first_index_extends(rest, more, '<');
    assert((rest + more).skip(end + 1) =~= rest.skip(end + 1) + more);
    lemma_trim_start_extends(rest.skip(end + 1), more);
}

/// Text with a character that is not white space does not trim to nothing.
proof fn lemma_not_blank(s: Seq<char>, i: int)
    requires
        0 <= i < s.len(),
        !CharClass::WhiteSpace.contains(s[i]),
    ensures
        trim_start(s, CharClass::WhiteSpace).len() > 0,
{
    lemma_trim_start_shape(s, CharClass::WhiteSpace);
}

/// A bracket that `>` closes encloses the text before it, unless the text is a named address that
/// is closed twice.
proof fn lemma_bracketed_plain(inner: Seq<char>, rest: Seq<char>, n: int)
    requires
        lacks(inner, '>'),
        0 <= n <= rest.len(),
        named_close(inner + seq!['>'] + rest) is None,
    ensures
        bracketed(inner + seq!['>'] + rest.take(n)) == inner,
{
    let s = inner + seq!['>'] + rest.take(n);
    if named_close(s) is Some {
        lemma_named_close_extends(s, rest.skip(n));
        assert(s + rest.skip(n) =~= inner + seq!['>'] + rest);
    }
    lemma_first_after(inner, '>', rest.take(n));
    assert(s.take(inner.len() as int) =~= inner);
}

/// A display name: what `<` ends.
pub open spec fn is_name(name: Seq<char>) -> bool {
    name_end(name + seq!['<'], 0, starts_quoted(name), false) == Some(name.len() as int)
}

/// Text without structure is a display name.
proof fn lemma_unquoted_name(name: Seq<char>, from: int)
    requires
        is_display_name(name),
        0 <= from <= name.len(),
    ensures
        name_end(name + seq!['<'], from, false, false) == Some(name.len() as int),
    decreases name.len() - from,
{
    if from < name.len() {
        assert((name + seq!['<'])[from] == name[from]);
        assert(!is_special(name[from]));
        lemma_unquoted_name(name, from + 1);
    }
}

/// Text without structure does not start with a quote.
proof fn lemma_not_quoted(name: Seq<char>)
    requires
        is_display_name(name),
    ensures
        !starts_quoted(name),
{
    lemma_trim_start_shape(name, CharClass::WhiteSpace);
    let t = trim_start(name, CharClass::WhiteSpace);
    if t.len() > 0 {
        assert(t[0] == name[name.len() - t.len()]);
    }
}

/// Whether a text starts with a quote does not depend on what another character begins.
proof fn lemma_quoted_by_name(name: Seq<char>, c: char, rest: Seq<char>)
    requires
        c != '"',
        !CharClass::WhiteSpace.contains(c),
    ensures
        starts_quoted(name + seq![c] + rest) == starts_quoted(name),
{
    let tail = seq![c] + rest;
    assert(name + seq![c] + rest =~= name + tail);
    if trim_start(name, CharClass::WhiteSpace).len() > 0 {
        lemma_trim_start_extends(name, tail);
    } else {
        lemma_trim_start_shape(name, CharClass::WhiteSpace);
        lemma_trim_start_blank(name, tail);
        assert(tail[0] == c);
    }
}

/// Brackets around a named address enclose it, with white space before the closing one or not.
proof fn lemma_bracketed_named(
    name: Seq<char>,
    addr: Seq<char>,
    space: Seq<char>,
    rest: Seq<char>,
)
    requires
        is_name(name),
        lacks(addr, '<'),
        lacks(addr, '>'),
        is_blank(space),
    ensures
        bracketed(named_mailbox(name, addr) + space + seq!['>'] + rest) == named_mailbox(
            name,
            addr,
        ),
{
    let inner = named_mailbox(name, addr);
    let s = inner + space + seq!['>'] + rest;
    let last = space + seq!['>'] + rest;
    let tail = addr + seq!['>'] + last;
    let n = name.len() as int;
    assert(s =~= name + seq!['<'] + tail);
    lemma_quoted_by_name(name, '<', tail);
    lemma_name_end_extends(name + seq!['<'], tail, 0, starts_quoted(name), false);
    assert(s.skip(n + 1) =~= tail);
    lemma_first_after(addr, '>', last);
    lemma_first_of_none(addr + seq!['>'], '<');
    lemma_first_index_extends(addr + seq!['>'], last, '<');
    assert(tail.skip(addr.len() as int + 1) =~= last);
    assert(last =~= space + (seq!['>'] + rest));
    lemma_trim_start_blank(space, seq!['>'] + rest);
    assert((seq!['>'] + rest)[0] == '>');
    assert(s.take(n + 1 + addr.len() as int + 1) =~= inner);
}

/// The address part of a line with an angle bracket behind the colon.
pub(crate) proof fn lemma_address_part_bracketed(
    verb: Seq<char>,
    gap: Seq<char>,
    inner: Seq<char>,
    rest: Seq<char>,
    text: Seq<char>,
)
    requires
        lacks(verb, ':'),
        is_blank(gap),
        forall|n: int|
            0 <= n <= rest.len() ==> bracketed(inner + seq!['>'] + #[trigger] rest.take(n))
                == text,
    ensures
        address_part(in_brackets(verb, gap, inner, rest)) == Some(trimmed(text)),
{
    let body = gap + seq!['<'] + inner + seq!['>'] + rest;
    let head = seq!['<'] + inner + seq!['>'];
    lemma_after_verb(verb, body);
    assert(body =~= gap + (head + rest));
    lemma_trim_start_blank(gap, head + rest);
    assert((head + rest)[0] == '<');
    assert(trim_start(head + rest, CharClass::WhiteSpace) == head + rest);
    assert(head.last() == '>');
    let n = lemma_trim_end_keeps(head, rest);
    let spec = trimmed(body);
    assert(spec == head + rest.take(n));
    assert(spec[0] == '<');
    assert(spec.skip(1) =~= inner + seq!['>'] + rest.take(n));
}

/// The address text in angle brackets ends at the first `>`, and what follows that is ignored. The
/// one exception is an address with a display name and brackets of its own, which end before the
/// outer ones.
pub proof fn law_rest_of_line_is_ignored(
    verb: Seq<char>,
    gap: Seq<char>,
    inner: Seq<char>,
    rest: Seq<char>,
)
    requires
        lacks(verb, ':'),
        is_blank(gap),
        lacks(inner, '>'),
        named_close(inner + seq!['>'] + rest) is None,
    ensures
        address_part(in_brackets(verb, gap, inner, rest)) == Some(trimmed(inner)),
        email_in(in_brackets(verb, gap, inner, rest)) == email_in(
            in_brackets(verb, gap, inner, Seq::empty()),
        ),
{
    assert forall|n: int| 0 <= n <= rest.len() implies bracketed(
        inner + seq!['>'] + #[trigger] rest.take(n),
    ) == inner by {
        lemma_bracketed_plain(inner, rest, n);
    }
    lemma_address_part_bracketed(verb, gap, inner, rest, inner);
    let none = Seq::<char>::empty();
    assert forall|n: int| 0 <= n <= none.len() implies bracketed(
        inner + seq!['>'] + #[trigger] none.take(n),
    ) == inner by {
        lemma_bracketed_plain(inner, rest, 0);
        assert(none.take(n) =~= rest.take(0));
    }
    lemma_address_part_bracketed(verb, gap, inner, none, inner);
}

/// A name without quotes does not reach past a `>`.
proof fn lemma_no_name_past_bracket(s: Seq<char>, from: int, to: int)
    requires
        0 <= from <= to < s.len(),
        s[to] == '>',
        forall|i: int| from <= i < to ==> #[trigger] s[i] != '<',
    ensures
        name_end(s, from, false, false) is None,
    decreases to - from,
{
    if from < to {
        assert(s[from] != '<');
        lemma_no_name_past_bracket(s, from + 1, to);
    }
}

/// Text without angle brackets that does not start with a quote ends at the bracket that closes
/// it, whatever follows.
pub proof fn law_rest_of_line_never_matters_to_plain_text(
    verb: Seq<char>,
    gap: Seq<char>,
    inner: Seq<char>,
    rest: Seq<char>,
)
    requires
        lacks(verb, ':'),
        is_blank(gap),
        lacks(inner, '<'),
        lacks(inner, '>'),
        !starts_quoted(inner),
    ensures
        address_part(in_brackets(verb, gap, inner, rest)) == Some(trimmed(inner)),
        email_in(in_brackets(verb, gap, inner, rest)) == email_in(
            in_brackets(verb, gap, inner, Seq::empty()),
        ),
{
    let s = inner + seq!['>'] + rest;
    lemma_quoted_by_name(inner, '>', rest);
    assert forall|i: int| 0 <= i < inner.len() implies #[trigger] s[i] != '<' by {
        assert(s[i] == inner[i]);
    }
    lemma_no_name_past_bracket(s, 0, inner.len() as int);
    law_rest_of_line_is_ignored(verb, gap, inner, rest);
}

/// A single `>` does not close twice.
proof fn lemma_not_closed_twice(text: Seq<char>)
    requires
        lacks(text, '>'),
    ensures
        named_close(text + seq!['>'] + Seq::empty()) is None,
{
    let s = text + seq!['>'] + Seq::empty();
    if named_close(s) is Some {
        let quoted = starts_quoted(s);
        lemma_name_end_extends(s, Seq::empty(), 0, quoted, false);
        let open = name_end(s, 0, quoted, false)->0;
        let rest = s.skip(open + 1);
        let end = first_index(rest, '>');
        lemma_first_index_extends(rest, Seq::empty(), '>');
        lemma_first_index_bounds(rest, '<');
        let after = rest.skip(end + 1);
        lemma_trim_start_shape(after, CharClass::WhiteSpace);
        let t = trim_start(after, CharClass::WhiteSpace);
        assert(t[0] == after[after.len() - t.len()]);
        assert(s[open + 1 + end] == '>');
        assert(s[open + 1 + end + 1 + (after.len() - t.len())] == '>');
        assert(open + 1 + end < text.len());
        assert(s[open + 1 + end] == text[open + 1 + end]);
    }
}

/// Angle brackets round an address are optional: text without `>` that does not start with `<`
/// names the same mailbox in brackets and without them.
pub proof fn law_brackets_are_optional(verb: Seq<char>, gap: Seq<char>, text: Seq<char>)
    requires
        lacks(verb, ':'),
        is_blank(gap),
        lacks(text, '>'),
        trimmed(text).len() > 0 ==> trimmed(text)[0] != '<',
    ensures
        address_part(verb + seq![':'] + (gap + text)) == Some(trimmed(text)),
        email_in(in_brackets(verb, gap, text, Seq::empty())) == email_in(
            verb + seq![':'] + (gap + text),
        ),
{
    lemma_not_closed_twice(text);
    law_rest_of_line_is_ignored(verb, gap, text, Seq::empty());
    lemma_after_verb(verb, gap + text);
    lemma_trim_start_blank(gap, text);
}

/// Outer angle brackets round an address with a display name, quoted or not, are optional too: it
/// names the same mailbox in them and without them, with white space before the closing one or
/// not, and whatever follows.
pub proof fn law_outer_brackets_are_optional(
    verb: Seq<char>,
    gap: Seq<char>,
    name: Seq<char>,
    addr: Seq<char>,
    space: Seq<char>,
    rest: Seq<char>,
)
    requires
        lacks(verb, ':'),
        is_blank(gap),
        is_name(name),
        trim_start(name, CharClass::WhiteSpace).len() > 0,
        lacks(addr, '<'),
        lacks(addr, '>'),
        is_blank(space),
    ensures
        ({
            let named = named_mailbox(name, addr);
            let line = in_brackets(verb, gap, named + space, rest);
            &&& address_part(line) == Some(trimmed(named))
            &&& email_in(line) == email_in(verb + seq![':'] + (gap + named))
        }),
{
    let named = named_mailbox(name, addr);
    lemma_named_part(verb, gap, name, addr, space, rest);
    lemma_after_verb(verb, gap + named);
    lemma_trim_start_blank(gap, named);
    let tail = seq!['<'] + addr + seq!['>'];
    assert(named =~= name + tail);
    lemma_trim_start_extends(name, tail);
    let t = trim_start(name, CharClass::WhiteSpace);
    let u = t + tail;
    assert(u.last() == '>');
    assert(trimmed(named) == u);
    lemma_trim_start_shape(name, CharClass::WhiteSpace);
    assert(t[0] == name[name.len() - t.len()]);
    lemma_name_has_no_bracket(name);
}

/// The first character of a display name, after white space, is not `<`.
proof fn lemma_name_has_no_bracket(name: Seq<char>)
    requires
        is_name(name),
    ensures
        ({
            let t = trim_start(name, CharClass::WhiteSpace);
            t.len() > 0 ==> t[0] != '<'
        }),
{
    let t = trim_start(name, CharClass::WhiteSpace);
    lemma_trim_start_shape(name, CharClass::WhiteSpace);
    if t.len() > 0 && t[0] == '<' {
        let k = name.len() - t.len();
        assert(t[0] == name[k]);
        lemma_blank_is_passed(name + seq!['<'], 0, k, starts_quoted(name));
        assert((name + seq!['<'])[k] == '<');
    }
}

/// White space before a display name is passed over.
proof fn lemma_blank_is_passed(s: Seq<char>, from: int, to: int, quoted: bool)
    requires
        0 <= from <= to < s.len(),
        forall|i: int| from <= i < to ==> CharClass::WhiteSpace.contains(#[trigger] s[i]),
    ensures
        name_end(s, from, quoted, false) == name_end(s, to, quoted, false),
    decreases to - from,
{
    if from < to {
        assert(CharClass::WhiteSpace.contains(s[from]));
        lemma_blank_is_passed(s, from + 1, to, quoted);
    }
}

/// The address part of a line with a named address in outer brackets.
proof fn lemma_named_part(
    verb: Seq<char>,
    gap: Seq<char>,
    name: Seq<char>,
    addr: Seq<char>,
    space: Seq<char>,
    rest: Seq<char>,
)
    requires
        lacks(verb, ':'),
        is_blank(gap),
        is_name(name),
        lacks(addr, '<'),
        lacks(addr, '>'),
        is_blank(space),
    ensures
        address_part(in_brackets(verb, gap, named_mailbox(name, addr) + space, rest)) == Some(
            trimmed(named_mailbox(name, addr)),
        ),
{
    let named = named_mailbox(name, addr);
    assert forall|n: int| 0 <= n <= rest.len() implies bracketed(
        named + space + seq!['>'] + #[trigger] rest.take(n),
    ) == named by {
        lemma_bracketed_named(name, addr, space, rest.take(n));
    }
    lemma_address_part_bracketed(verb, gap, named + space, rest, named);
}

/// A plain mailbox holds no angle brackets and does not start with a quote.
pub(crate) proof fn lemma_mailbox_is_plain(addr: Seq<char>)
    requires
        is_mailbox(addr),
    ensures
        lacks(addr, '<'),
        lacks(addr, '>'),
        !starts_quoted(addr),
        trimmed(addr) == addr,
        addr[0] != '<',
{
    assert forall|i: int| 0 <= i < addr.len() implies #[trigger] addr[i] != '<' && addr[i]
        != '>' by {
        assert(!is_special(addr[i]));
    }
    lemma_not_quoted(addr);
    lemma_trimmed_same(addr);
}

/// A plain mailbox behind the colon of a command is the address found, in angle brackets or not,
/// with any white space before it and, in brackets, any parameters behind it.
pub proof fn law_plain_mailbox_is_found(
    verb: Seq<char>,
    gap: Seq<char>,
    addr: Seq<char>,
    rest: Seq<char>,
)
    requires
        lacks(verb, ':'),
        is_blank(gap),
        is_mailbox(addr),
    ensures
        names_only(in_brackets(verb, gap, addr, rest), addr),
        names_only(verb + seq![':'] + (gap + addr), addr),
{
    lemma_mailbox_is_plain(addr);
    law_rest_of_line_never_matters_to_plain_text(verb, gap, addr, rest);
    law_brackets_are_optional(verb, gap, addr);
}

/// A display name in front of the address, inside the outer brackets, is left out.
pub proof fn law_display_name_is_left_out(
    verb: Seq<char>,
    gap: Seq<char>,
    name: Seq<char>,
    addr: Seq<char>,
    space: Seq<char>,
    rest: Seq<char>,
)
    requires
        lacks(verb, ':'),
        is_blank(gap),
        is_display_name(name),
        name.len() > 0 ==> !CharClass::WhiteSpace.contains(name[0]),
        is_mailbox(addr),
        is_blank(space),
    ensures
        names_only(in_brackets(verb, gap, named_mailbox(name, addr) + space, rest), addr),
{
    let named = named_mailbox(name, addr);
    lemma_not_quoted(name);
    lemma_unquoted_name(name, 0);
    lemma_mailbox_is_plain(addr);
    lemma_named_part(verb, gap, name, addr, space, rest);
    assert(named.last() == '>');
    assert(named[0] == if name.len() > 0 {
        name[0]
    } else {
        '<'
    });
    lemma_trimmed_same(named);
}

/// No address is found where there is none: not in a line without a colon, not behind a colon
/// that only white space follows, and not in empty brackets.
pub proof fn law_missing_address(
    verb: Seq<char>,
    gap: Seq<char>,
    inside: Seq<char>,
    rest: Seq<char>,
)
    requires
        lacks(verb, ':'),
        is_blank(gap),
        is_blank(inside),
    ensures
        names_none(verb),
        names_none(verb + seq![':'] + gap),
        names_none(in_brackets(verb, gap, inside, rest)),
{
    lemma_first_of_none(verb, ':');
    lemma_after_verb(verb, gap);
    lemma_blank_trims_away(gap);
    assert forall|i: int| 0 <= i < inside.len() implies #[trigger] inside[i] != '<' && inside[i]
        != '>' by {
        assert(CharClass::WhiteSpace.contains(inside[i]));
    }
    lemma_blank_trims_away(inside);
    law_rest_of_line_never_matters_to_plain_text(verb, gap, inside, rest);
}

/// Nothing is left of white space.
proof fn lemma_blank_trims_away(s: Seq<char>)
    requires
        is_blank(s),
    ensures
        trimmed(s).len() == 0,
        !starts_quoted(s),
{
    let none = Seq::<char>::empty();
    assert(s + none =~= s);
    lemma_trim_start_blank(s, none);
}

/// The step that refuses a command in `state` with the line `reply`.
pub open spec fn refused(state: SmtpState, reply: Seq<char>) -> StepView {
    StepView { replies: seq![reply], next_state: state, result: ResultView::Continue }
}

/// The step that takes `sender` for a message, without a reply of its own.
pub open spec fn sender_taken(sender: Seq<char>) -> StepView {
    StepView {
        replies: Seq::empty(),
        next_state: SmtpState::MailFrom,
        result: ResultView::MailFrom(sender),
    }
}

/// The step that takes `recipient` for a message, without a reply of its own.
pub open spec fn recipient_taken(recipient: Seq<char>) -> StepView {
    StepView {
        replies: Seq::empty(),
        next_state: SmtpState::RcptTo,
        result: ResultView::RcptTo(recipient),
    }
}

/// A colon behind a verb stands behind its capitals too.
proof fn lemma_capitals_with_colon(verb: Seq<char>)
    ensures
        ascii_uppercase(verb + seq![':']) == ascii_uppercase(verb) + seq![':'],
{
    assert(ascii_uppercase(verb + seq![':']) =~= ascii_uppercase(verb) + seq![':']);
}

/// MAIL FROM, in letters of any case, is taken after the greeting if an address is found in the
/// line, whatever else it holds, and is refused with 501 otherwise.
pub proof fn law_mail_from(
    verb: Seq<char>,
    body: Seq<char>,
    max_size: u64,
    upper: Seq<char>,
    email: Option<Seq<char>>,
)
    requires
        ascii_uppercase(verb) == "MAIL FROM"@,
        capitals_fit(verb + seq![':'] + body, upper),
    ensures
        command_step(SmtpState::Greeted, max_size, verb + seq![':'] + body, upper, email)
            == match email {
            Some(sender) => sender_taken(sender),
            None => refused(SmtpState::Greeted, "501 Syntax error in MAIL FROM parameters"@),
        },
{
    reveal_strlit("MAIL FROM");
    reveal_strlit("MAIL FROM:");
    lemma_capitals_with_colon(verb);
    assert("MAIL FROM"@ + seq![':'] =~= "MAIL FROM:"@);
    lemma_word_starts_line("MAIL FROM:"@, verb + seq![':'], body, upper);
}

/// RCPT TO, in letters of any case, is taken after MAIL FROM and after another RCPT TO if an
/// address is found in the line, and is refused with 501 otherwise.
pub proof fn law_rcpt_to(
    verb: Seq<char>,
    body: Seq<char>,
    state: SmtpState,
    max_size: u64,
    upper: Seq<char>,
    email: Option<Seq<char>>,
)
    requires
        ascii_uppercase(verb) == "RCPT TO"@,
        state == SmtpState::MailFrom || state == SmtpState::RcptTo,
        capitals_fit(verb + seq![':'] + body, upper),
    ensures
        command_step(state, max_size, verb + seq![':'] + body, upper, email) == match email {
            Some(recipient) => recipient_taken(recipient),
            None => refused(state, "501 Syntax error in RCPT TO parameters"@),
        },
{
    reveal_strlit("RCPT TO");
    reveal_strlit("RCPT TO:");
    reveal_strlit("DATA");
    lemma_capitals_with_colon(verb);
    assert("RCPT TO"@ + seq![':'] =~= "RCPT TO:"@);
    lemma_word_starts_line("RCPT TO:"@, verb + seq![':'], body, upper);
    lemma_prefix("RCPT TO:"@, upper);
    lemma_prefix("DATA"@, upper);
    assert(upper[0] == 'R');
}

/// A verb without a colon in its capital form has none.
proof fn lemma_verb_has_no_colon(verb: Seq<char>)
    requires
        lacks(ascii_uppercase(verb), ':'),
    ensures
        lacks(verb, ':'),
{
    assert forall|i: int| 0 <= i < verb.len() implies #[trigger] verb[i] != ':' by {
        assert(ascii_uppercase(verb)[i] == ascii_upper(verb[i]));
    }
}

/// A sender in angle brackets, with or without a display name, is taken as it stands, whatever
/// follows the brackets.
pub proof fn law_sender_is_taken(
    verb: Seq<char>,
    gap: Seq<char>,
    name: Seq<char>,
    addr: Seq<char>,
    space: Seq<char>,
    rest: Seq<char>,
    max_size: u64,
    upper1: Seq<char>,
    upper2: Seq<char>,
    email1: Option<Seq<char>>,
    email2: Option<Seq<char>>,
)
    requires
        ascii_uppercase(verb) == "MAIL FROM"@,
        is_blank(gap),
        is_display_name(name),
        name.len() > 0 ==> !CharClass::WhiteSpace.contains(name[0]),
        is_mailbox(addr),
        is_blank(space),
    ensures
        ({
            let plain = in_brackets(verb, gap, addr, rest);
            let named = in_brackets(verb, gap, named_mailbox(name, addr) + space, rest);
            let state = SmtpState::Greeted;
            &&& capitals_fit(plain, upper1) && email_fits(plain, email1) ==> command_step(
                state,
                max_size,
                plain,
                upper1,
                email1,
            ) == sender_taken(addr)
            &&& capitals_fit(named, upper2) && email_fits(named, email2) ==> command_step(
                state,
                max_size,
                named,
                upper2,
                email2,
            ) == sender_taken(addr)
        }),
{
    reveal_strlit("MAIL FROM");
    lemma_verb_has_no_colon(verb);
    let inner = named_mailbox(name, addr) + space;
    law_plain_mailbox_is_found(verb, gap, addr, rest);
    law_display_name_is_left_out(verb, gap, name, addr, space, rest);
    if capitals_fit(in_brackets(verb, gap, addr, rest), upper1) {
        law_mail_from(verb, gap + seq!['<'] + addr + seq!['>'] + rest, max_size, upper1, email1);
    }
    if capitals_fit(in_brackets(verb, gap, inner, rest), upper2) {
        law_mail_from(verb, gap + seq!['<'] + inner + seq!['>'] + rest, max_size, upper2, email2);
    }
}

/// A recipient in angle brackets, with or without a display name, is taken as it stands, whatever
/// follows the brackets.
pub proof fn law_recipient_is_taken(
    verb: Seq<char>,
    gap: Seq<char>,
    name: Seq<char>,
    addr: Seq<char>,
    space: Seq<char>,
    rest: Seq<char>,
    state: SmtpState,
    max_size: u64,
    upper1: Seq<char>,
    upper2: Seq<char>,
    email1: Option<Seq<char>>,
    email2: Option<Seq<char>>,
)
    requires
        ascii_uppercase(verb) == "RCPT TO"@,
        state == SmtpState::MailFrom || state == SmtpState::RcptTo,
        is_blank(gap),
        is_display_name(name),
        name.len() > 0 ==> !CharClass::WhiteSpace.contains(name[0]),
        is_mailbox(addr),
        is_blank(space),
    ensures
        ({
            let plain = in_brackets(verb, gap, addr, rest);
            let named = in_brackets(verb, gap, named_mailbox(name, addr) + space, rest);
            &&& capitals_fit(plain, upper1) && email_fits(plain, email1) ==> command_step(
                state,
                max_size,
                plain,
                upper1,
                email1,
            ) == recipient_taken(addr)
            &&& capitals_fit(named, upper2) && email_fits(named, email2) ==> command_step(
                state,
                max_size,
                named,
                upper2,
                email2,
            ) == recipient_taken(addr)
        }),
{
    reveal_strlit("RCPT TO");
    lemma_verb_has_no_colon(verb);
    let inner = named_mailbox(name, addr) + space;
    law_plain_mailbox_is_found(verb, gap, addr, rest);
    law_display_name_is_left_out(verb, gap, name, addr, space, rest);
    if capitals_fit(in_brackets(verb, gap, addr, rest), upper1) {
        law_rcpt_to(verb, gap + seq!['<'] + addr + seq!['>'] + rest, state, max_size, upper1, email1);
    }
    if capitals_fit(in_brackets(verb, gap, inner, rest), upper2) {
        law_rcpt_to(verb, gap + seq!['<'] + inner + seq!['>'] + rest, state, max_size, upper2, email2);
    }
}

/// No sender and no recipient is taken whose address has no `@`.
pub proof fn law_taken_addresses_have_an_at_sign(
    state: SmtpState,
    max_size: u64,
    line: Seq<char>,
    upper: Seq<char>,
    email: Option<Seq<char>>,
)
    requires
        email_fits(line, email),
    ensures
        match command_step(state, max_size, line, upper, email).result {
            ResultView::MailFrom(addr) => addr.contains('@'),
            ResultView::RcptTo(addr) => addr.contains('@'),
            _ => true,
        },
{
}

} // verus!
