//! Character-level building blocks: every parser in this crate reasons about a
//! string through its sequence of characters, and searches it in that form.

use vstd::prelude::*;

verus! {

/// The characters of `s`, in order.
pub fn chars_of(s: &str) -> (chars: Vec<char>)
    ensures
        chars@ == s@,
{
    let mut chars: Vec<char> = Vec::new();
    for c in it: s.chars()
        invariant
            it.seq() == s@,
            chars@ == it.seq().take(it.index()),
    {
        chars.push(c);
    }
    chars
}

/// Whether two strings hold the same characters.
pub fn same_text(a: &str, b: &str) -> (same: bool)
    ensures
        same == (a@ == b@),
{
    let left = chars_of(a);
    let right = chars_of(b);
    if left.len() != right.len() {
        return false;
    }
    let mut i: usize = 0;
    while i < left.len()
        invariant
            i <= left.len(),
            left.len() == right.len(),
            left@ == a@,
            right@ == b@,
            left@.take(i as int) == right@.take(i as int),
        decreases left.len() - i,
    {
        if left[i] != right[i] {
            return false;
        }
        i += 1;
    }
    assert(left@.take(i as int) == left@);
    assert(right@.take(i as int) == right@);
    true
}

/// Whether `s` begins with the character `first`.
pub fn starts_with_char(s: &str, first: char) -> (yes: bool)
    ensures
        yes == (s@.len() > 0 && s@[0] == first),
{
    let mut it = s.chars();
    match it.next() {
        Some(c) => c == first,
        None => false,
    }
}

/// The position of the last `needle` in `chars[..end]`, if there is one.
pub fn find_last(chars: &[char], end: usize, needle: char) -> (found: Option<usize>)
    requires
        end <= chars.len(),
    ensures
        match found {
            Some(i) => chars@.take(end as int).index_of_last(needle) == Some(i as int),
            None => chars@.take(end as int).index_of_last(needle) is None,
        },
{
    let ghost head = chars@.take(end as int);
    let mut i: usize = end;
    while i > 0
        invariant
            i <= end <= chars.len(),
            head == chars@.take(end as int),
            forall|j: int| i <= j < end ==> head[j] != needle,
        decreases i,
    {
        i -= 1;
        if chars[i] == needle {
            proof {
                head.index_of_last_ensures(needle);
                assert(head[i as int] == needle);
            }
            return Some(i);
        }
    }
    proof {
        head.index_of_last_ensures(needle);
    }
    None
}

/// The position of the first `needle` in `chars[from..to]`, if there is one.
pub fn find_first(chars: &[char], from: usize, to: usize, needle: char) -> (found: Option<usize>)
    requires
        from <= to <= chars.len(),
    ensures
        match found {
            Some(i) => from <= i < to && chars@.subrange(from as int, to as int).index_of_first(
                needle,
            ) == Some(i - from),
            None => chars@.subrange(from as int, to as int).index_of_first(needle) is None,
        },
{
    let ghost part = chars@.subrange(from as int, to as int);
    let mut i: usize = from;
    while i < to
        invariant
            from <= i <= to <= chars.len(),
            part == chars@.subrange(from as int, to as int),
            forall|j: int| 0 <= j < i - from ==> part[j] != needle,
        decreases to - i,
    {
        if chars[i] == needle {
            proof {
                part.index_of_first_ensures(needle);
                assert(part[i - from] == needle);
            }
            return Some(i);
        }
        i += 1;
    }
    proof {
        part.index_of_first_ensures(needle);
    }
    None
}

/// What precedes the first `mark` in `text`; the whole text when `mark` does
/// not occur.
pub open spec fn before_first(text: Seq<char>, mark: char) -> Seq<char> {
    match text.index_of_first(mark) {
        Some(at) => text.take(at),
        None => text,
    }
}

/// What follows the last `mark` in `text`; the whole text when `mark` does not
/// occur.
pub open spec fn after_last(text: Seq<char>, mark: char) -> Seq<char> {
    match text.index_of_last(mark) {
        Some(at) => text.skip(at + 1),
        None => text,
    }
}

/// The part of `text` behind its last `mark`, as `after_last` defines it.
pub fn tail_after_last(text: &str, mark: char) -> (tail: String)
    ensures
        tail@ == after_last(text@, mark),
{
    let chars = chars_of(text);
    let end = chars.len();
    assert(chars@.take(end as int) == text@);
    let found = find_last(&chars, end, mark);
    proof {
        text@.index_of_last_ensures(mark);
    }
    match found {
        Some(at) => {
            text.substring_char(at + 1, end).to_owned()
        },
        None => text.to_owned(),
    }
}

/// The characters that separate words: those with the Unicode property
/// `White_Space`.
pub open spec fn is_whitespace(c: char) -> bool {
    ||| '\u{9}' <= c <= '\u{d}'
    ||| c == ' '
    ||| c == '\u{85}'
    ||| c == '\u{a0}'
    ||| c == '\u{1680}'
    ||| '\u{2000}' <= c <= '\u{200a}'
    ||| c == '\u{2028}'
    ||| c == '\u{2029}'
    ||| c == '\u{202f}'
    ||| c == '\u{205f}'
    ||| c == '\u{3000}'
}

/// Whether `c` separates words.
pub fn separates_words(c: char) -> (yes: bool)
    ensures
        yes == is_whitespace(c),
{
    ('\u{9}' <= c && c <= '\u{d}') || c == ' ' || c == '\u{85}' || c == '\u{a0}' || c == '\u{1680}'
        || ('\u{2000}' <= c && c <= '\u{200a}') || c == '\u{2028}' || c == '\u{2029}'
        || c == '\u{202f}' || c == '\u{205f}' || c == '\u{3000}'
}

/// The length of the longest prefix of `text` made of whitespace only
/// (`white`), or of anything but whitespace (`!white`).
pub open spec fn run_len(text: Seq<char>, white: bool) -> nat
    decreases text.len(),
{
    if text.len() > 0 && is_whitespace(text[0]) == white {
        1 + run_len(text.drop_first(), white)
    } else {
        0
    }
}

/// The first word of `text`: its longest stretch without whitespace, behind
/// any leading whitespace. A text of whitespace only has none.
pub open spec fn first_word(text: Seq<char>) -> Option<Seq<char>> {
    let rest = text.skip(run_len(text, true) as int);
    let len = run_len(rest, false);
    if len == 0 {
        None
    } else {
        Some(rest.take(len as int))
    }
}

/// Where the run that starts at `from` ends.
fn run_end(chars: &[char], from: usize, white: bool) -> (to: usize)
    requires
        from <= chars.len(),
    ensures
        from <= to <= chars.len(),
        to - from == run_len(chars@.skip(from as int), white),
{
    let mut to: usize = from;
    while to < chars.len() && separates_words(chars[to]) == white
        invariant
            from <= to <= chars.len(),
            run_len(chars@.skip(from as int), white) == (to - from) + run_len(
                chars@.skip(to as int),
                white,
            ),
        decreases chars.len() - to,
    {
        assert(chars@.skip(to as int).drop_first() == chars@.skip(to + 1));
        to += 1;
    }
    to
}

/// The first word of `chars[from..]`, as the range it occupies.
pub fn first_word_range(chars: &[char], from: usize) -> (range: Option<(usize, usize)>)
    requires
        from <= chars.len(),
    ensures
        match range {
            Some((start, end)) => from <= start < end <= chars.len() && first_word(
                chars@.skip(from as int),
            ) == Some(chars@.subrange(start as int, end as int)),
            None => first_word(chars@.skip(from as int)) is None,
        },
{
    let start = run_end(chars, from, true);
    assert(chars@.skip(from as int).skip(start - from) == chars@.skip(start as int));
    let end = run_end(chars, start, false);
    if end == start {
        None
    } else {
        assert(chars@.skip(start as int).take(end - start) == chars@.subrange(
            start as int,
            end as int,
        ));
        Some((start, end))
    }
}

/// Whether `chars` begins with `prefix`.
pub fn has_prefix(chars: &[char], prefix: &[char]) -> (yes: bool)
    ensures
        yes == prefix@.is_prefix_of(chars@),
{
    if prefix.len() > chars.len() {
        return false;
    }
    let mut i: usize = 0;
    while i < prefix.len()
        invariant
            i <= prefix.len() <= chars.len(),
            prefix@.take(i as int) == chars@.take(i as int),
        decreases prefix.len() - i,
    {
        if prefix[i] != chars[i] {
            return false;
        }
        i += 1;
    }
    true
}

} // verus!
