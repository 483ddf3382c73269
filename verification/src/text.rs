//! Texts as sequences of characters: conversion, matching, trimming,
//! re-indentation and HTML escaping.

use vstd::prelude::*;

verus! {

/// Taken on trust from the documentation of `String::push`: it appends the
/// character to the end of the string and changes nothing else.
pub assume_specification[ String::push ](s: &mut String, ch: char)
    ensures
        final(s)@ == old(s)@.push(ch),
;

/// The characters of a string, in order.
pub fn chars_of(s: &str) -> (out: Vec<char>)
    ensures
        out@ == s@,
{
    let mut out: Vec<char> = Vec::new();
    for c in it: s.chars()
        invariant
            out@ == it.seq().take(it.index() as int),
            it.seq() == s@,
    {
        out.push(c);
    }
    out
}

/// The string made of the characters `chars[start..end]`, in order.
pub fn string_of_range(chars: &Vec<char>, start: usize, end: usize) -> (out: String)
    requires
        start <= end <= chars.len(),
    ensures
        out@ == chars@.subrange(start as int, end as int),
{
    let mut out = String::new();
    let mut i: usize = start;
    while i < end
        invariant
            start <= i <= end <= chars.len(),
            out@ == chars@.subrange(start as int, i as int),
        decreases end - i,
    {
        out.push(chars[i]);
        assert(chars@.subrange(start as int, i + 1) =~= chars@.subrange(start as int, i as int).push(
            chars@[i as int],
        ));
        i += 1;
    }
    out
}

/// The string made of the given characters, in order.
pub fn string_of(chars: &Vec<char>) -> (out: String)
    ensures
        out@ == chars@,
{
    assert(chars@.subrange(0, chars@.len() as int) =~= chars@);
    string_of_range(chars, 0, chars.len())
}

/// Whether `pattern` stands in `text` at position `pos`.
pub open spec fn matches_at(text: Seq<char>, pattern: Seq<char>, pos: int) -> bool {
    &&& 0 <= pos
    &&& pos + pattern.len() <= text.len()
    &&& text.subrange(pos, pos + pattern.len()) == pattern
}

/// Tests whether `pattern` stands in `text` at position `pos`.
pub fn has_at(text: &Vec<char>, pattern: &Vec<char>, pos: usize) -> (found: bool)
    ensures
        found == matches_at(text@, pattern@, pos as int),
{
    if pos > text.len() || pattern.len() > text.len() - pos {
        return false;
    }
    let mut i: usize = 0;
    while i < pattern.len()
        invariant
            i <= pattern.len(),
            pos + pattern.len() <= text.len(),
            forall|k: int| 0 <= k < i ==> text@[pos + k] == pattern@[k],
        decreases pattern.len() - i,
    {
        if text[pos + i] != pattern[i] {
            proof {
                let part = text@.subrange(pos as int, pos + pattern.len());
                assert(part[i as int] == text@[pos + i]);
            }
            return false;
        }
        i += 1;
    }
    assert(text@.subrange(pos as int, pos + pattern.len()) =~= pattern@);
    true
}

/// Whether a character counts as white space when a text is trimmed: what
/// `char::is_whitespace` answers for it.
pub uninterp spec fn is_white_space(c: char) -> bool;

/// Calls `char::is_whitespace`, which tells whether the character has the
/// Unicode property White_Space. Nothing is proved of the answer; the
/// contract only gives it the name `is_white_space`, a function of the
/// character alone.
#[verifier::external_body]
fn white_space(c: char) -> (white: bool)
    ensures
        white == is_white_space(c),
{
    c.is_whitespace()
}

/// The length of `text` without its trailing white space.
pub open spec fn trimmed_len(text: Seq<char>) -> int
    decreases text.len(),
{
    if text.len() == 0 {
        0
    } else if is_white_space(text.last()) {
        trimmed_len(text.drop_last())
    } else {
        text.len() as int
    }
}

/// The number of white-space characters that `text` begins with.
pub open spec fn leading_white(text: Seq<char>) -> int
    decreases text.len(),
{
    if text.len() == 0 {
        0
    } else if is_white_space(text.first()) {
        1 + leading_white(text.drop_first())
    } else {
        0
    }
}

/// `text` without its trailing white space.
pub open spec fn trim_end(text: Seq<char>) -> Seq<char> {
    text.take(trimmed_len(text))
}

/// `text` without its leading and trailing white space.
pub open spec fn trim(text: Seq<char>) -> Seq<char> {
    let kept = trim_end(text);
    kept.skip(leading_white(kept))
}

/// Computes the length of `text[start..end]` without its trailing white
/// space.
pub fn trimmed_end_of(text: &Vec<char>, start: usize, end: usize) -> (len: usize)
    requires
        start <= end <= text.len(),
    ensures
        len == trimmed_len(text@.subrange(start as int, end as int)),
        len <= end - start,
{
    let mut stop: usize = end;
    while stop > start && white_space(text[stop - 1])
        invariant
            start <= stop <= end <= text.len(),
            trimmed_len(text@.subrange(start as int, end as int)) == trimmed_len(
                text@.subrange(start as int, stop as int),
            ),
        decreases stop,
    {
        assert(text@.subrange(start as int, stop as int).drop_last() =~= text@.subrange(
            start as int,
            stop - 1,
        ));
        stop -= 1;
    }
    stop - start
}

/// Computes the first position at or after `start` that holds no white space,
/// or `end` where `text[start..end]` is all white space.
pub fn skip_white(text: &Vec<char>, start: usize, end: usize) -> (pos: usize)
    requires
        start <= end <= text.len(),
    ensures
        pos == start + leading_white(text@.subrange(start as int, end as int)),
        start <= pos <= end,
{
    let mut pos: usize = start;
    while pos < end && white_space(text[pos])
        invariant
            start <= pos <= end <= text.len(),
            start + leading_white(text@.subrange(start as int, end as int)) == pos + leading_white(
                text@.subrange(pos as int, end as int),
            ),
        decreases end - pos,
    {
        assert(text@.subrange(pos as int, end as int).drop_first() =~= text@.subrange(
            pos + 1,
            end as int,
        ));
        pos += 1;
    }
    pos
}

/// Copies `text[start..end]` to the end of `out`.
pub fn push_range(out: &mut Vec<char>, text: &Vec<char>, start: usize, end: usize)
    requires
        start <= end <= text.len(),
    ensures
        final(out)@ == old(out)@ + text@.subrange(start as int, end as int),
{
    let mut i: usize = start;
    while i < end
        invariant
            start <= i <= end <= text.len(),
            out@ == old(out)@ + text@.subrange(start as int, i as int),
        decreases end - i,
    {
        out.push(text[i]);
        assert(text@.subrange(start as int, i + 1) =~= text@.subrange(start as int, i as int).push(
            text@[i as int],
        ));
        i += 1;
    }
}

/// `count` spaces.
pub open spec fn spaces(count: nat) -> Seq<char> {
    Seq::new(count, |i: int| ' ')
}

/// `text` with `indent` spaces put behind each of its line feeds.
pub open spec fn reindented(text: Seq<char>, indent: nat) -> Seq<char>
    decreases text.len(),
{
    if text.len() == 0 {
        Seq::empty()
    } else if text.last() == '\n' {
        reindented(text.drop_last(), indent).push('\n') + spaces(indent)
    } else {
        reindented(text.drop_last(), indent).push(text.last())
    }
}

/// Puts `indent` spaces behind each line feed of `text`.
pub fn reindent(text: &Vec<char>, indent: usize) -> (out: Vec<char>)
    ensures
        out@ == reindented(text@, indent as nat),
{
    let mut out: Vec<char> = Vec::new();
    let mut i: usize = 0;
    while i < text.len()
        invariant
            i <= text.len(),
            out@ == reindented(text@.take(i as int), indent as nat),
        decreases text.len() - i,
    {
        let c = text[i];
        proof {
            assert(text@.take(i + 1).drop_last() =~= text@.take(i as int));
            assert(text@.take(i + 1).last() == c);
        }
        out.push(c);
        if c == '\n' {
            let ghost before = out@;
            let mut k: usize = 0;
            while k < indent
                invariant
                    k <= indent,
                    out@ == before + spaces(k as nat),
                decreases indent - k,
            {
                out.push(' ');
                assert(spaces((k + 1) as nat) =~= spaces(k as nat).push(' '));
                k += 1;
            }
        }
        i += 1;
    }
    assert(text@.take(text.len() as int) =~= text@);
    out
}

/// What stands for one character in escaped HTML text.
pub open spec fn escaped_char(c: char) -> Seq<char> {
    if c == '&' {
        seq!['&', 'a', 'm', 'p', ';']
    } else if c == '<' {
        seq!['&', 'l', 't', ';']
    } else if c == '>' {
        seq!['&', 'g', 't', ';']
    } else if c == '"' {
        seq!['&', 'q', 'u', 'o', 't', ';']
    } else if c == '\'' {
        seq!['&', '#', 'x', '2', '7', ';']
    } else if c == '/' {
        seq!['&', '#', 'x', '2', 'F', ';']
    } else {
        seq![c]
    }
}

/// `text` with each of `&`, `<`, `>`, `"`, `'` and `/` written as an HTML
/// entity.
pub open spec fn escaped(text: Seq<char>) -> Seq<char>
    decreases text.len(),
{
    if text.len() == 0 {
        Seq::empty()
    } else {
        escaped(text.drop_last()) + escaped_char(text.last())
    }
}

/// Calls `html_escape::encode_safe`. Taken on trust from its source: it
/// writes `&` as `&amp;`, `<` as `&lt;`, `>` as `&gt;`, `"` as `&quot;`, `'`
/// as `&#x27;` and `/` as `&#x2F;`, and leaves every other character as it
/// is.
#[verifier::external_body]
pub(crate) fn escape_html(text: &str) -> (out: String)
    ensures
        out@ == escaped(text@),
{
    html_escape::encode_safe(text).into_owned()
}

} // verus!
