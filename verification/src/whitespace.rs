//! White-space stripping of static text next to directives.
use vstd::prelude::*;
use crate::text::{chars_of, find_char, first_index_of, last_index_of, rfind_char};

verus! {

/// Position just after the first line break, or the length when there is none.
pub open spec fn first_newline_end_spec(s: Seq<char>) -> int {
    match first_index_of(s, '\n') {
        Some(i) => i + 1,
        None => s.len() as int,
    }
}

/// Position just after the last line break, or the length when there is none.
pub open spec fn last_newline_start_spec(s: Seq<char>) -> int {
    match last_index_of(s, '\n') {
        Some(i) => i + 1,
        None => s.len() as int,
    }
}

/// Character position just after the first line break of `s` (the length of
/// `s` when it has none).
pub fn first_newline_end(s: &str) -> (r: usize)
    ensures
        r == first_newline_end_spec(s@),
{
    let cs = chars_of(s);
    proof {
        crate::text::lemma_first_index_of(cs@, '\n');
    }
    match find_char(&cs, '\n') {
        Some(i) => i + 1,
        None => cs.len(),
    }
}

/// Character position just after the last line break of `s` (the length of
/// `s` when it has none).
pub fn last_newline_start(s: &str) -> (r: usize)
    ensures
        r == last_newline_start_spec(s@),
{
    let cs = chars_of(s);
    proof {
        crate::text::lemma_last_index_of(cs@, '\n');
    }
    match rfind_char(&cs, '\n') {
        Some(i) => i + 1,
        None => cs.len(),
    }
}

/// What remains of a static text after stripping: with `strip_before` the
/// part up to and including the first line break goes; with `strip_after` the
/// part after the last line break goes (all of the text when it has no line
/// break).  Nothing is stripped when white-space stripping is off.
pub open spec fn stripped(
    text: Seq<char>,
    strip_before: bool,
    strip_after: bool,
    whitespace_stripping: bool,
) -> Seq<char> {
    if !whitespace_stripping || (!strip_before && !strip_after) {
        text
    } else {
        let begin = if strip_before { first_newline_end_spec(text) } else { 0 };
        let end = if strip_after {
            if last_index_of(text, '\n') is Some { last_newline_start_spec(text) } else { 0 }
        } else {
            text.len() as int
        };
        text.subrange(if begin < end { begin } else { end }, end)
    }
}

/// Strips the white-space of a static text next to directives.
pub fn strip_text(text: &str, strip_before: bool, strip_after: bool, whitespace_stripping: bool) -> (r:
    String)
    ensures
        r@ == stripped(text@, strip_before, strip_after, whitespace_stripping),
{
    let cs = chars_of(text);
    if !whitespace_stripping || (!strip_before && !strip_after) {
        return String::from_str(text);
    }
    proof {
        crate::text::lemma_first_index_of(cs@, '\n');
        crate::text::lemma_last_index_of(cs@, '\n');
    }
    let begin = if strip_before { first_newline_end(text) } else { 0 };
    let end = if strip_after {
        if rfind_char(&cs, '\n').is_some() { last_newline_start(text) } else { 0 }
    } else {
        cs.len()
    };
    let lo = if begin < end { begin } else { end };
    crate::text::substring(&cs, lo, end)
}

} // verus!
