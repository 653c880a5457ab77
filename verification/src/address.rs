//! The address in a `MAIL FROM` or `RCPT TO` line.

use crate::text::{
    CharClass, after_first, chars_of, find, first_index, skip_white, split_after, text_of, trim,
    trim_start, trimmed,
};
use vstd::prelude::*;

verus! {

/// One entry of a parsed address list.
#[derive(Debug)]
pub enum ParsedAddress {
    /// A mailbox, by its routing address.
    Single(String),
    /// A named group of mailboxes.
    Group,
}

impl ParsedAddress {
    /// The routing address of a mailbox; nothing for a group.
    pub open spec fn mailbox(self) -> Option<Seq<char>> {
        match self {
            ParsedAddress::Single(addr) => Some(addr@),
            ParsedAddress::Group => None,
        }
    }
}

/// The entries of a parsed list, each as its mailbox if it is one; nothing if parsing failed.
pub open spec fn mailboxes<E>(parsed: Result<Vec<ParsedAddress>, E>) -> Option<
    Seq<Option<Seq<char>>>,
> {
    match parsed {
        Ok(list) => Some(Seq::new(list@.len(), |i: int| list@[i].mailbox())),
        Err(_) => None,
    }
}

/// The error of `mailparse`, carried as it is.
#[verifier::external_type_specification]
#[verifier::external_body]
pub struct ExMailParseError(mailparse::MailParseError);

/// What `mailparse::addrparse` makes of a text: nothing if it reports an error, otherwise the
/// entries in order, a mailbox by its routing address and a group as `None`.
pub uninterp spec fn addresses_in(spec: Seq<char>) -> Option<Seq<Option<Seq<char>>>>;

/// The characters that mean something to an address list.
pub open spec fn is_special(c: char) -> bool {
    c == '"' || c == '<' || c == '>' || c == ',' || c == ';' || c == ':' || c == '(' || c == ')'
}

/// Text that is neither structured nor broken up by white space.
pub open spec fn is_bare(s: Seq<char>) -> bool {
    &&& s.len() > 0
    &&& forall|i: int|
        0 <= i < s.len() ==> !is_special(#[trigger] s[i]) && !CharClass::WhiteSpace.contains(s[i])
}

/// An address in its simplest form, such as `user@example.com`.
pub open spec fn is_mailbox(s: Seq<char>) -> bool {
    is_bare(s) && s.contains('@')
}

/// Text without structure, as it can stand for a display name without quotes.
pub open spec fn is_display_name(s: Seq<char>) -> bool {
    forall|i: int| 0 <= i < s.len() ==> !is_special(#[trigger] s[i])
}

/// `name <addr>`, with whatever white space `name` ends in.
pub open spec fn named_mailbox(name: Seq<char>, addr: Seq<char>) -> Seq<char> {
    name + seq!['<'] + addr + seq!['>']
}

/// Text that can stand between quotes: a backslash comes before a character that it takes the
/// meaning from, and no quote stands without one.
pub open spec fn is_quoted_text(s: Seq<char>) -> bool
    decreases s.len(),
{
    if s.len() == 0 {
        true
    } else if s[0] == '\\' {
        s.len() > 1 && is_quoted_text(s.skip(2))
    } else {
        s[0] != '"' && is_quoted_text(s.skip(1))
    }
}

/// A display name that starts in quotes, with `more` behind them.
pub open spec fn quoted_name(text: Seq<char>, more: Seq<char>) -> Seq<char> {
    seq!['"'] + text + seq!['"'] + more
}

/// Calls `mailparse::addrparse` and keeps of each entry its kind and, of a mailbox, its routing
/// address.
///
/// Taken on trust: the outcome depends on the text alone; an empty text is an empty list; bare
/// text is a single mailbox, with that text as its address, if it has an `@`, and an error if it
/// has none; a display name before a bracketed mailbox, quoted or not, gives that mailbox alone;
/// and the address of every mailbox has an `@`. What else comes of quotes, comments, groups and
/// longer lists is left unsaid.
#[verifier::external_body]
pub(crate) fn parse_addresses(spec: &str) -> (r: Result<
    Vec<ParsedAddress>,
    mailparse::MailParseError,
>)
    ensures
        mailboxes(r) == addresses_in(spec@),
        spec@.len() == 0 ==> mailboxes(r) == Some(Seq::<Option<Seq<char>>>::empty()),
        is_mailbox(spec@) ==> mailboxes(r) == Some(seq![Some(spec@)]),
        is_bare(spec@) && !spec@.contains('@') ==> mailboxes(r) is None,
        forall|name: Seq<char>, addr: Seq<char>|
            is_display_name(name) && is_mailbox(addr) && spec@ == #[trigger] named_mailbox(
                name,
                addr,
            ) ==> mailboxes(r) == Some(seq![Some(addr)]),
        forall|text: Seq<char>, more: Seq<char>, addr: Seq<char>|
            is_quoted_text(text) && is_display_name(more) && is_mailbox(addr) && spec@
                == #[trigger] named_mailbox(quoted_name(text, more), addr) ==> mailboxes(r)
                == Some(seq![Some(addr)]),
        mailboxes(r) matches Some(list) ==> forall|i: int|
            0 <= i < list.len() && (#[trigger] list[i]) is Some ==> list[i]->0.contains('@'),
{
    let list = mailparse::addrparse(spec)?;
    Ok(list.into_inner().into_iter().map(|entry| match entry {
        mailparse::MailAddr::Single(info) => ParsedAddress::Single(info.addr),
        mailparse::MailAddr::Group(_) => ParsedAddress::Group,
    }).collect())
}

/// The first entry of a parsed list, if there is one and it is a mailbox.
pub open spec fn first_of(list: Option<Seq<Option<Seq<char>>>>) -> Option<Seq<char>> {
    match list {
        Some(entries) => if entries.len() > 0 {
            entries[0]
        } else {
            None
        },
        None => None,
    }
}

/// The first thing in `s`, after white space, is a quote.
pub open spec fn starts_quoted(s: Seq<char>) -> bool {
    let t = trim_start(s, CharClass::WhiteSpace);
    t.len() > 0 && t[0] == '"'
}

/// The place of the `<` that ends a display name, which is read on from `from`. A name that starts
/// with a quote is `quoted`: between quotes, where the reading is `inside`, it may hold anything,
/// with a backslash before what would end the quotes. Otherwise quotes are like other characters.
pub open spec fn name_end(s: Seq<char>, from: int, quoted: bool, inside: bool) -> Option<int>
    decreases s.len() - from,
{
    if from >= s.len() {
        None
    } else if inside {
        if s[from] == '\\' && from + 1 < s.len() {
            name_end(s, from + 2, quoted, true)
        } else {
            name_end(s, from + 1, quoted, s[from] != '"')
        }
    } else if s[from] == '<' {
        Some(from)
    } else if s[from] == '"' {
        name_end(s, from + 1, quoted, quoted)
    } else if is_special(s[from]) {
        None
    } else {
        name_end(s, from + 1, quoted, false)
    }
}

/// The first thing in `s`, after white space, is a closing bracket.
pub open spec fn closes_next(s: Seq<char>) -> bool {
    let t = trim_start(s, CharClass::WhiteSpace);
    t.len() > 0 && t[0] == '>'
}

/// Where `s` starts with a display name and an address in brackets of its own, and a further `>`
/// follows, the place of the `>` that closes the address.
pub open spec fn named_close(s: Seq<char>) -> Option<int> {
    match name_end(s, 0, starts_quoted(s), false) {
        Some(open) => {
            let rest = s.skip(open + 1);
            let end = first_index(rest, '>');
            if end < first_index(rest, '<') && closes_next(rest.skip(end + 1)) {
                Some(open + 1 + end)
            } else {
                None
            }
        },
        None => None,
    }
}

/// The text that a bracket opened before `s` encloses: a named address with its own brackets, if
/// a further `>` closes the outer ones; otherwise all up to the first `>`, or to the end of `s` if
/// there is none.
pub open spec fn bracketed(s: Seq<char>) -> Seq<char> {
    match named_close(s) {
        Some(end) => s.take(end + 1),
        None => s.take(first_index(s, '>')),
    }
}

/// The address text of a command line: what follows the first colon, without surrounding white
/// space and without the outer angle brackets.
pub open spec fn address_part(line: Seq<char>) -> Option<Seq<char>> {
    match after_first(line, ':') {
        Some(rest) => {
            let spec = trimmed(rest);
            if spec.len() > 0 && spec[0] == '<' {
                Some(trimmed(bracketed(spec.skip(1))))
            } else {
                Some(spec)
            }
        },
        None => None,
    }
}

/// The mailbox that a command line names.
pub open spec fn email_in(line: Seq<char>) -> Option<Seq<char>> {
    match address_part(line) {
        Some(spec) => first_of(addresses_in(spec)),
        None => None,
    }
}

/// What is known of the mailbox that a command line names without a look at the parser: none
/// without a colon or without an address; a plain address itself, or none if it lacks an `@`; and
/// a bracketed address without its display name, quoted or not. Whatever is found has an `@`.
pub open spec fn email_fits(line: Seq<char>, email: Option<Seq<char>>) -> bool {
    match address_part(line) {
        None => email is None,
        Some(spec) => {
            &&& email is Some ==> email->0.contains('@')
            &&& spec.len() == 0 ==> email is None
            &&& is_mailbox(spec) ==> email == Some(spec)
            &&& is_bare(spec) && !spec.contains('@') ==> email is None
            &&& forall|name: Seq<char>, addr: Seq<char>|
                is_display_name(name) && is_mailbox(addr) && spec == #[trigger] named_mailbox(
                    name,
                    addr,
                ) ==> email == Some(addr)
            &&& forall|text: Seq<char>, more: Seq<char>, addr: Seq<char>|
                is_quoted_text(text) && is_display_name(more) && is_mailbox(addr) && spec
                    == #[trigger] named_mailbox(quoted_name(text, more), addr) ==> email == Some(
                    addr,
                )
        },
    }
}

/// Tells whether `c` means something to an address list.
fn has_meaning(c: char) -> (r: bool)
    ensures
        r == is_special(c),
{
    c == '"' || c == '<' || c == '>' || c == ',' || c == ';' || c == ':' || c == '(' || c == ')'
}

/// Tells whether the first thing in `chars` at or after `from`, after white space, is `c`.
fn comes_next(chars: &Vec<char>, from: usize, c: char) -> (r: bool)
    requires
        from <= chars.len(),
    ensures
        r == ({
            let t = trim_start(chars@.skip(from as int), CharClass::WhiteSpace);
            t.len() > 0 && t[0] == c
        }),
{
    let i: usize = skip_white(chars, from);
    i < chars.len() && chars[i] == c
}

/// Finds the `<` that ends a display name at the start of `chars`.
fn find_name_end(chars: &Vec<char>) -> (r: Option<usize>)
    ensures
        match r {
            Some(open) => name_end(chars@, 0, starts_quoted(chars@), false) == Some(open as int)
                && open < chars.len(),
            None => name_end(chars@, 0, starts_quoted(chars@), false) is None,
        },
{
    let quoted: bool = comes_next(chars, 0, '"');
    assert(chars@.skip(0) =~= chars@);
    let mut inside: bool = false;
    let mut i: usize = 0;
    while i < chars.len()
        invariant
            i <= chars.len(),
            name_end(chars@, 0, starts_quoted(chars@), false) == name_end(
                chars@,
                i as int,
                quoted,
                inside,
            ),
        decreases chars.len() - i,
    {
        let c: char = chars[i];
        if inside {
            if c == '\\' && i + 1 < chars.len() {
                i = i + 1;
            } else if c == '"' {
                inside = false;
            }
        } else if c == '<' {
            return Some(i);
        } else if c == '"' {
            inside = quoted;
        } else if has_meaning(c) {
            return None;
        }
        i = i + 1;
    }
    None
}

/// Finds the `>` that closes a named address in brackets of its own, if a further `>` follows.
fn find_named_close(chars: &Vec<char>) -> (r: Option<usize>)
    ensures
        match r {
            Some(end) => named_close(chars@) == Some(end as int) && end < chars.len(),
            None => named_close(chars@) is None,
        },
{
    match find_name_end(chars) {
        Some(open) => {
            let end: usize = find(chars, open + 1, '>');
            let ghost rest = chars@.skip(open + 1);
            assert(end < chars.len() ==> rest.skip(end - open) =~= chars@.skip(end + 1));
            if end < find(chars, open + 1, '<') && comes_next(chars, end + 1, '>') {
                Some(end)
            } else {
                None
            }
        },
        None => None,
    }
}

/// The text that a bracket opened before `s` encloses.
fn bracketed_text(s: &str) -> (r: &str)
    ensures
        r@ == bracketed(s@),
{
    let chars: Vec<char> = chars_of(s);
    match find_named_close(&chars) {
        Some(end) => s.substring_char(0, end + 1),
        None => {
            let end: usize = find(&chars, 0, '>');
            assert(s@.skip(0) =~= s@);
            s.substring_char(0, end)
        },
    }
}

/// The address text of a command line.
pub fn address_spec(line: &str) -> (r: Option<&str>)
    ensures
        match r {
            Some(spec) => address_part(line@) == Some(spec@),
            None => address_part(line@) is None,
        },
{
    let spec: &str = match split_after(line, ':') {
        Some(rest) => trim(rest),
        None => {
            return None;
        },
    };
    let n: usize = spec.unicode_len();
    if n > 0 && spec.get_char(0) == '<' {
        let inner: &str = spec.substring_char(1, n);
        assert(inner@ =~= spec@.skip(1));
        Some(trim(bracketed_text(inner)))
    } else {
        Some(spec)
    }
}

/// The first entry of a parsed list, if there is one and it is a mailbox.
pub fn first_mailbox<E>(parsed: &Result<Vec<ParsedAddress>, E>) -> (r: Option<String>)
    ensures
        text_of(r) == first_of(mailboxes(*parsed)),
{
    match parsed {
        Ok(list) => if list.len() > 0 {
            match &list[0] {
                ParsedAddress::Single(addr) => Some(addr.clone()),
                ParsedAddress::Group => None,
            }
        } else {
            None
        },
        Err(_) => None,
    }
}

} // verus!
