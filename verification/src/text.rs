//! Plain text work: character classes, trimming, words, prefixes, decimal numbers.

use vstd::prelude::*;
use vstd::utf8::is_ascii_chars;

verus! {

/// A set of characters that can be cut off the ends of a text.
#[derive(Clone, Copy, PartialEq, Eq, Structural, Debug)]
pub enum CharClass {
    /// The characters with the Unicode property `White_Space`.
    WhiteSpace,
    /// Carriage return and line feed.
    LineBreak,
}

impl CharClass {
    /// Membership in the class.
    pub open spec fn contains(self, c: char) -> bool {
        match self {
            CharClass::WhiteSpace => {
                ||| '\u{9}' <= c <= '\u{d}'
                ||| c == ' '
                ||| c == '\u{85}'
                ||| c == '\u{a0}'
                ||| c == '\u{1680}'
                ||| '\u{2000}' <= c <= '\u{200a}'
                ||| c == '\u{2028}'
                ||| c == '\u{2029}'
                ||| c == '\u{202f}'
                ||| c == '\u{205f}'
                ||| c == '\u{3000}'
            },
            CharClass::LineBreak => c == '\r' || c == '\n',
        }
    }

    /// Tells whether `c` belongs to the class.
    pub fn has(self, c: char) -> (r: bool)
        ensures
            r == self.contains(c),
    {
        match self {
            CharClass::WhiteSpace => ('\u{9}' <= c && c <= '\u{d}') || c == ' ' || c == '\u{85}' || c
                == '\u{a0}' || c == '\u{1680}' || ('\u{2000}' <= c && c <= '\u{200a}') || c
                == '\u{2028}' || c == '\u{2029}' || c == '\u{202f}' || c == '\u{205f}' || c
                == '\u{3000}',
            CharClass::LineBreak => c == '\r' || c == '\n',
        }
    }
}

/// `s` without the longest run of characters of `class` at its start.
pub open spec fn trim_start(s: Seq<char>, class: CharClass) -> Seq<char>
    decreases s.len(),
{
    if s.len() > 0 && class.contains(s[0]) {
        trim_start(s.skip(1), class)
    } else {
        s
    }
}

/// `s` without the longest run of characters of `class` at its end.
pub open spec fn trim_end(s: Seq<char>, class: CharClass) -> Seq<char>
    decreases s.len(),
{
    if s.len() > 0 && class.contains(s.last()) {
        trim_end(s.drop_last(), class)
    } else {
        s
    }
}

/// `s` without the white space at both ends.
pub open spec fn trimmed(s: Seq<char>) -> Seq<char> {
    trim_end(trim_start(s, CharClass::WhiteSpace), CharClass::WhiteSpace)
}

/// The longest start of `s` without white space.
pub open spec fn leading_word(s: Seq<char>) -> Seq<char>
    decreases s.len(),
{
    if s.len() == 0 || CharClass::WhiteSpace.contains(s[0]) {
        Seq::empty()
    } else {
        seq![s[0]] + leading_word(s.skip(1))
    }
}

/// The words of `s`, in order: the longest runs without white space.
pub open spec fn words(s: Seq<char>) -> Seq<Seq<char>>
    decreases s.len(),
    via words_decreases
{
    let t = trim_start(s, CharClass::WhiteSpace);
    if t.len() == 0 {
        Seq::empty()
    } else {
        seq![leading_word(t)] + words(t.skip(leading_word(t).len() as int))
    }
}

#[via_fn]
proof fn words_decreases(s: Seq<char>) {
    let t = trim_start(s, CharClass::WhiteSpace);
    lemma_trim_start_shape(s, CharClass::WhiteSpace);
    lemma_leading_word_shape(t);
}

/// The place of the first `c` in `s`, or the length of `s` if there is none.
pub open spec fn first_index(s: Seq<char>, c: char) -> int
    decreases s.len(),
{
    if s.len() == 0 || s[0] == c {
        0
    } else {
        1 + first_index(s.skip(1), c)
    }
}

/// What follows the first `c` in `s`, if there is one.
pub open spec fn after_first(s: Seq<char>, c: char) -> Option<Seq<char>> {
    if first_index(s, c) < s.len() {
        Some(s.skip(first_index(s, c) + 1))
    } else {
        None
    }
}

/// The characters of a text that may be missing.
pub open spec fn text_of(s: Option<String>) -> Option<Seq<char>> {
    match s {
        Some(text) => Some(text@),
        None => None,
    }
}

/// The decimal digit for `d`, for `d` below ten.
pub open spec fn digit(d: int) -> char {
    ('0' as int + d) as char
}

/// The decimal digits of `n`, without leading zeros.
pub open spec fn decimal(n: nat) -> Seq<char>
    decreases n,
{
    if n < 10 {
        seq![digit(n as int)]
    } else {
        decimal(n / 10).push(digit((n % 10) as int))
    }
}

/// The capital letter for a small ASCII letter; any other character itself.
pub open spec fn ascii_upper(c: char) -> char {
    if 'a' <= c <= 'z' {
        (c as int - 32) as char
    } else {
        c
    }
}

/// `s` with its small ASCII letters replaced by capitals.
pub open spec fn ascii_uppercase(s: Seq<char>) -> Seq<char> {
    Seq::new(s.len(), |i: int| ascii_upper(s[i]))
}

/// What is known of the capital form `upper` of `s` by way of ASCII: ASCII text has its ASCII
/// capitals, and so has ASCII text at the start of `s`, at the start of `upper`.
pub open spec fn capitals_fit(s: Seq<char>, upper: Seq<char>) -> bool {
    &&& is_ascii_chars(s) ==> upper == ascii_uppercase(s)
    &&& forall|n: int|
        0 <= n <= s.len() && is_ascii_chars(#[trigger] s.take(n)) ==> ascii_uppercase(
            s.take(n),
        ).is_prefix_of(upper)
}

/// What `str::to_uppercase` makes of a text.
pub uninterp spec fn uppercase(s: Seq<char>) -> Seq<char>;

/// Calls `str::to_uppercase`, the mapping of Unicode, which no locale changes.
///
/// Taken on trust: the outcome depends on the text alone; of ASCII text exactly the letters `a` to
/// `z` change, to `A` to `Z`; and what follows does not matter to ASCII text at the start, as
/// characters are mapped one by one, in order. How other characters are mapped is left unsaid.
#[verifier::external_body]
pub(crate) fn to_uppercase(s: &str) -> (r: String)
    ensures
        r@ == uppercase(s@),
        capitals_fit(s@, r@),
{
    s.to_uppercase()
}

/// Trimming at the start leaves a tail of the text, which starts outside the class.
pub proof fn lemma_trim_start_shape(s: Seq<char>, class: CharClass)
    ensures
        trim_start(s, class).len() <= s.len(),
        trim_start(s, class) == s.skip(s.len() - trim_start(s, class).len()),
        trim_start(s, class).len() > 0 ==> !class.contains(trim_start(s, class)[0]),
        forall|i: int|
            0 <= i < s.len() - trim_start(s, class).len() ==> class.contains(#[trigger] s[i]),
    decreases s.len(),
{
    if s.len() > 0 && class.contains(s[0]) {
        let t = s.skip(1);
        lemma_trim_start_shape(t, class);
        let n = trim_start(t, class).len();
        assert(t.skip(t.len() - n) =~= s.skip(s.len() - n));
        assert forall|i: int| 0 <= i < s.len() - n implies class.contains(#[trigger] s[i]) by {
            if i > 0 {
                assert(t[i - 1] == s[i]);
            }
        }
    } else {
        assert(s.skip(0) =~= s);
    }
}

/// Trimming at the end leaves a start of the text, which ends outside the class.
pub proof fn lemma_trim_end_shape(s: Seq<char>, class: CharClass)
    ensures
        trim_end(s, class).len() <= s.len(),
        trim_end(s, class) == s.take(trim_end(s, class).len() as int),
        trim_end(s, class).len() > 0 ==> !class.contains(trim_end(s, class).last()),
        forall|i: int|
            trim_end(s, class).len() <= i < s.len() ==> class.contains(#[trigger] s[i]),
    decreases s.len(),
{
    if s.len() > 0 && class.contains(s.last()) {
        let t = s.drop_last();
        lemma_trim_end_shape(t, class);
        let n = trim_end(t, class).len();
        assert(t.take(n as int) =~= s.take(n as int));
        assert forall|i: int| n <= i < s.len() implies class.contains(#[trigger] s[i]) by {
            if i < s.len() - 1 {
                assert(t[i] == s[i]);
            }
        }
    } else {
        assert(s.take(s.len() as int) =~= s);
    }
}

/// The leading word is a start of the text, free of white space, and ends at the text's end
/// or before white space.
pub proof fn lemma_leading_word_shape(s: Seq<char>)
    ensures
        leading_word(s).len() <= s.len(),
        leading_word(s) == s.take(leading_word(s).len() as int),
        forall|i: int|
            0 <= i < leading_word(s).len() ==> !CharClass::WhiteSpace.contains(
                #[trigger] leading_word(s)[i],
            ),
        leading_word(s).len() < s.len() ==> CharClass::WhiteSpace.contains(
            s[leading_word(s).len() as int],
        ),
        s.len() > 0 && !CharClass::WhiteSpace.contains(s[0]) ==> leading_word(s).len() > 0,
    decreases s.len(),
{
    if s.len() == 0 || CharClass::WhiteSpace.contains(s[0]) {
        assert(s.take(0) =~= Seq::<char>::empty());
    } else {
        let t = s.skip(1);
        lemma_leading_word_shape(t);
        let w = leading_word(t);
        assert(leading_word(s) =~= s.take(leading_word(s).len() as int)) by {
            assert forall|i: int| 0 <= i < leading_word(s).len() implies leading_word(s)[i]
                == s[i] by {
                if i > 0 {
                    assert(leading_word(s)[i] == w[i - 1]);
                    assert(w[i - 1] == t.take(w.len() as int)[i - 1]);
                }
            }
        }
        assert forall|i: int|
            0 <= i < leading_word(s).len() implies !CharClass::WhiteSpace.contains(
            #[trigger] leading_word(s)[i],
        ) by {
            if i > 0 {
                assert(leading_word(s)[i] == w[i - 1]);
            }
        }
    }
}

/// The characters of `s`.
pub fn chars_of(s: &str) -> (v: Vec<char>)
    ensures
        v@ == s@,
{
    let mut v: Vec<char> = Vec::new();
    for c in it: s.chars()
        invariant
            it.seq() == s@,
            v@ == s@.take(it.index() as int),
    {
        v.push(c);
        assert(s@.take(it.index() + 1) =~= s@.take(it.index() as int).push(c));
    }
    assert(s@.take(s@.len() as int) =~= s@);
    v
}

/// `s` without the characters of `class` at its end.
pub fn trim_end_matches(s: &str, class: CharClass) -> (r: &str)
    ensures
        r@ == trim_end(s@, class),
{
    let chars: Vec<char> = chars_of(s);
    let mut end: usize = chars.len();
    assert(s@.take(s@.len() as int) =~= s@);
    while end > 0 && class.has(chars[end - 1])
        invariant
            chars@ == s@,
            end <= chars.len(),
            trim_end(s@, class) == trim_end(s@.take(end as int), class),
        decreases end,
    {
        assert(s@.take(end as int).drop_last() =~= s@.take(end - 1));
        end = end - 1;
    }
    s.substring_char(0, end)
}

/// The place at or after `from` where the white space of `chars` stops.
pub(crate) fn skip_white(chars: &Vec<char>, from: usize) -> (r: usize)
    requires
        from <= chars.len(),
    ensures
        from <= r <= chars.len(),
        trim_start(chars@.skip(from as int), CharClass::WhiteSpace) == chars@.skip(r as int),
{
    let mut i: usize = from;
    while i < chars.len() && CharClass::WhiteSpace.has(chars[i])
        invariant
            from <= i <= chars.len(),
            trim_start(chars@.skip(from as int), CharClass::WhiteSpace) == trim_start(
                chars@.skip(i as int),
                CharClass::WhiteSpace,
            ),
        decreases chars.len() - i,
    {
        assert(chars@.skip(i as int).skip(1) =~= chars@.skip(i + 1));
        i = i + 1;
    }
    i
}

/// The place at or after `from` where white space or the end of `chars` comes.
fn word_end(chars: &Vec<char>, from: usize) -> (r: usize)
    requires
        from <= chars.len(),
    ensures
        from <= r <= chars.len(),
        leading_word(chars@.skip(from as int)) == chars@.subrange(from as int, r as int),
{
    let mut i: usize = from;
    assert(chars@.subrange(from as int, from as int) + leading_word(chars@.skip(from as int))
        =~= leading_word(chars@.skip(from as int)));
    while i < chars.len() && !CharClass::WhiteSpace.has(chars[i])
        invariant
            from <= i <= chars.len(),
            leading_word(chars@.skip(from as int)) == chars@.subrange(from as int, i as int)
                + leading_word(chars@.skip(i as int)),
        decreases chars.len() - i,
    {
        assert(chars@.skip(i as int).skip(1) =~= chars@.skip(i + 1));
        assert(chars@.subrange(from as int, i as int) + leading_word(chars@.skip(i as int))
            =~= chars@.subrange(from as int, i + 1) + leading_word(chars@.skip(i + 1)));
        i = i + 1;
    }
    assert(leading_word(chars@.skip(i as int)) =~= Seq::<char>::empty());
    assert(chars@.subrange(from as int, i as int) + Seq::<char>::empty() =~= chars@.subrange(
        from as int,
        i as int,
    ));
    i
}

/// `s` without the white space at both ends.
pub fn trim(s: &str) -> (r: &str)
    ensures
        r@ == trimmed(s@),
{
    let chars: Vec<char> = chars_of(s);
    let start: usize = skip_white(&chars, 0);
    assert(s@.skip(0) =~= s@);
    let rest: &str = s.substring_char(start, chars.len());
    assert(rest@ =~= s@.skip(start as int));
    trim_end_matches(rest, CharClass::WhiteSpace)
}

/// The place of the first `c` in `chars` at or after `from`, or the length of `chars` if there is
/// none.
pub(crate) fn find(chars: &Vec<char>, from: usize, c: char) -> (r: usize)
    requires
        from <= chars.len(),
    ensures
        r == from + first_index(chars@.skip(from as int), c),
        from <= r <= chars.len(),
{
    let mut i: usize = from;
    while i < chars.len() && chars[i] != c
        invariant
            from <= i <= chars.len(),
            from + first_index(chars@.skip(from as int), c) == i + first_index(
                chars@.skip(i as int),
                c,
            ),
        decreases chars.len() - i,
    {
        assert(chars@.skip(i as int).skip(1) =~= chars@.skip(i + 1));
        i = i + 1;
    }
    i
}

/// What follows the first `c` in `s`, if there is one.
pub fn split_after(s: &str, c: char) -> (r: Option<&str>)
    ensures
        match r {
            Some(rest) => after_first(s@, c) == Some(rest@),
            None => after_first(s@, c) is None,
        },
{
    let chars: Vec<char> = chars_of(s);
    let i: usize = find(&chars, 0, c);
    assert(s@.skip(0) =~= s@);
    if i < chars.len() {
        let rest: &str = s.substring_char(i + 1, chars.len());
        assert(rest@ =~= s@.skip(i + 1));
        Some(rest)
    } else {
        None
    }
}

/// The second word of `s`, if there is one.
pub fn second_word(s: &str) -> (r: Option<String>)
    ensures
        text_of(r) == if words(s@).len() > 1 {
            Some(words(s@)[1])
        } else {
            None
        },
{
    let chars: Vec<char> = chars_of(s);
    let first: usize = skip_white(&chars, 0);
    let first_end: usize = word_end(&chars, first);
    let second: usize = skip_white(&chars, first_end);
    let second_end: usize = word_end(&chars, second);
    proof {
        let t = s@.skip(first as int);
        let u = s@.skip(second as int);
        assert(s@.skip(0) =~= s@);
        assert(t.skip(leading_word(t).len() as int) =~= s@.skip(first_end as int));
        assert(words(s@.skip(first_end as int)) == if u.len() == 0 {
            Seq::<Seq<char>>::empty()
        } else {
            seq![leading_word(u)] + words(u.skip(leading_word(u).len() as int))
        });
    }
    if second < chars.len() {
        Some(s.substring_char(second, second_end).to_owned())
    } else {
        None
    }
}

/// Tells whether `s` starts with `prefix`.
pub fn starts_with(s: &str, prefix: &str) -> (r: bool)
    ensures
        r == prefix@.is_prefix_of(s@),
{
    let n: usize = prefix.unicode_len();
    if s.unicode_len() < n {
        return false;
    }
    let mut i: usize = 0;
    while i < n
        invariant
            n == prefix@.len(),
            n <= s@.len(),
            i <= n,
            forall|j: int| 0 <= j < i ==> prefix@[j] == #[trigger] s@[j],
        decreases n - i,
    {
        if s.get_char(i) != prefix.get_char(i) {
            assert(s@.subrange(0, n as int)[i as int] == s@[i as int]);
            return false;
        }
        i = i + 1;
    }
    assert(prefix@ =~= s@.subrange(0, n as int));
    true
}

/// The text of the decimal digit for `d`.
fn digit_text(d: u64) -> (r: &'static str)
    requires
        d < 10,
    ensures
        r@ == seq![digit(d as int)],
{
    proof {
        reveal_strlit("0");
        reveal_strlit("1");
        reveal_strlit("2");
        reveal_strlit("3");
        reveal_strlit("4");
        reveal_strlit("5");
        reveal_strlit("6");
        reveal_strlit("7");
        reveal_strlit("8");
        reveal_strlit("9");
    }
    if d == 0 {
        "0"
    } else if d == 1 {
        "1"
    } else if d == 2 {
        "2"
    } else if d == 3 {
        "3"
    } else if d == 4 {
        "4"
    } else if d == 5 {
        "5"
    } else if d == 6 {
        "6"
    } else if d == 7 {
        "7"
    } else if d == 8 {
        "8"
    } else {
        "9"
    }
}

/// The decimal digits of `n`.
pub fn decimal_text(n: u64) -> (r: String)
    ensures
        r@ == decimal(n as nat),
    decreases n,
{
    if n < 10 {
        digit_text(n).to_owned()
    } else {
        let high: String = decimal_text(n / 10);
        let r: String = high.concat(digit_text(n % 10));
        assert(r@ =~= decimal(n as nat));
        r
    }
}

} // verus!
