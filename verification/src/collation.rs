//! Approximation of the US-English collator (tertiary strength) used by
//! `?sort` for string keys: a primary key that folds case and gives ASCII
//! punctuation fixed low weights, then a tertiary pass where lower case sorts
//! before upper case.
use vstd::prelude::*;
use crate::text::{
    char_from_unit, char_is_lowercase, char_lowercase_first, compare_units, encode_utf16,
    is_lowercase_char, is_surrogate, lowercase_first, unit_char, units_from, units_order,
    utf16_units,
};

verus! {

/// ASCII punctuation (`char::is_ascii_punctuation`).
pub open spec fn is_ascii_punct(c: char) -> bool {
    let v = c as u32;
    (0x21 <= v <= 0x2F) || (0x3A <= v <= 0x40) || (0x5B <= v <= 0x60) || (0x7B <= v <= 0x7E)
}

/// Primary-key unit of an already lower-cased character.
pub open spec fn primary_unit(lc: char) -> u16 {
    if lc == '_' { 1 }
    else if lc == ':' { 2 }
    else if lc == '!' { 3 }
    else if lc == '/' { 4 }
    else if lc == '.' { 5 }
    else if lc == '\'' { 6 }
    else if lc == '"' { 7 }
    else if lc == '-' { 8 }
    else if lc == '@' { 9 }
    else if is_ascii_punct(lc) { (0x000A + ((lc as u32) - 0x21)) as u16 }
    else { lc as u16 }
}

/// Primary collation key of a string: one unit per character, case folded.
pub open spec fn sort_key(s: Seq<char>) -> Seq<u16> {
    s.map_values(|c: char| primary_unit(lowercase_first(c)))
}

/// Tertiary weight of a character: fixed ranks for ASCII punctuation and
/// space, the scalar value otherwise.
pub open spec fn collation_weight_spec(c: char) -> u32 {
    if c == '_' { 1 }
    else if c == ':' { 2 }
    else if c == '!' { 3 }
    else if c == '/' { 4 }
    else if c == '.' { 5 }
    else if c == '\'' { 6 }
    else if c == '"' { 7 }
    else if c == '-' { 8 }
    else if c == '@' { 9 }
    else if c == ' ' { 10 }
    else if c == ',' { 11 }
    else if c == ';' { 12 }
    else if c == '?' { 13 }
    else if c == '`' { 14 }
    else if c == '^' { 15 }
    else if c == '~' { 16 }
    else if c == '(' { 17 }
    else if c == ')' { 18 }
    else if c == '[' { 19 }
    else if c == ']' { 20 }
    else if c == '{' { 21 }
    else if c == '}' { 22 }
    else if c == '$' { 23 }
    else if c == '*' { 24 }
    else if c == '\\' { 25 }
    else if c == '&' { 26 }
    else if c == '#' { 27 }
    else if c == '%' { 28 }
    else if c == '+' { 29 }
    else if c == '<' { 30 }
    else if c == '=' { 31 }
    else if c == '>' { 32 }
    else if c == '|' { 33 }
    else { c as u32 }
}

/// Whether unit `x` sorts before a different unit `y` in the tertiary pass:
/// the same letter in different case puts lower case first, then the
/// tertiary weights decide, then the code units.
pub open spec fn unit_sorts_first(x: u16, y: u16) -> bool {
    if !is_surrogate(x) && !is_surrogate(y) {
        let xc = unit_char(x);
        let yc = unit_char(y);
        if lowercase_first(xc) == lowercase_first(yc) && is_lowercase_char(xc)
            != is_lowercase_char(yc) {
            is_lowercase_char(xc)
        } else if collation_weight_spec(xc) != collation_weight_spec(yc) {
            collation_weight_spec(xc) < collation_weight_spec(yc)
        } else {
            x < y
        }
    } else {
        x < y
    }
}

/// Tertiary pass over the UTF-16 units: the first differing pair decides,
/// otherwise the shorter string sorts first.
pub open spec fn tertiary_order(a: Seq<u16>, b: Seq<u16>) -> std::cmp::Ordering
    decreases a.len(),
{
    if a.len() == 0 && b.len() == 0 {
        std::cmp::Ordering::Equal
    } else if a.len() == 0 {
        std::cmp::Ordering::Less
    } else if b.len() == 0 {
        std::cmp::Ordering::Greater
    } else if a[0] == b[0] {
        tertiary_order(a.drop_first(), b.drop_first())
    } else if unit_sorts_first(a[0], b[0]) {
        std::cmp::Ordering::Less
    } else {
        std::cmp::Ordering::Greater
    }
}

/// The collator's order of two strings.
pub open spec fn collator_order(a: Seq<char>, b: Seq<char>) -> std::cmp::Ordering {
    match units_order(sort_key(a), sort_key(b)) {
        std::cmp::Ordering::Equal => tertiary_order(utf16_units(a), utf16_units(b)),
        o => o,
    }
}

} // verus!

verus! {

/// Tertiary weight of a character.
pub fn collation_weight(c: char) -> (w: u32)
    ensures
        w == collation_weight_spec(c),
{
    match c {
        '_' => 1,
        ':' => 2,
        '!' => 3,
        '/' => 4,
        '.' => 5,
        '\'' => 6,
        '"' => 7,
        '-' => 8,
        '@' => 9,
        ' ' => 10,
        ',' => 11,
        ';' => 12,
        '?' => 13,
        '`' => 14,
        '^' => 15,
        '~' => 16,
        '(' => 17,
        ')' => 18,
        '[' => 19,
        ']' => 20,
        '{' => 21,
        '}' => 22,
        '$' => 23,
        '*' => 24,
        '\\' => 25,
        '&' => 26,
        '#' => 27,
        '%' => 28,
        '+' => 29,
        '<' => 30,
        '=' => 31,
        '>' => 32,
        '|' => 33,
        _ => c as u32,
    }
}

/// Whether a character is ASCII punctuation.
pub fn ascii_punctuation(c: char) -> (r: bool)
    ensures
        r == is_ascii_punct(c),
{
    let v: u32 = c as u32;
    (0x21 <= v && v <= 0x2F) || (0x3A <= v && v <= 0x40) || (0x5B <= v && v <= 0x60) || (0x7B
        <= v && v <= 0x7E)
}

fn primary_unit_of(lc: char) -> (u: u16)
    ensures
        u == primary_unit(lc),
{
    match lc {
        '_' => 1,
        ':' => 2,
        '!' => 3,
        '/' => 4,
        '.' => 5,
        '\'' => 6,
        '"' => 7,
        '-' => 8,
        '@' => 9,
        _ => {
            if ascii_punctuation(lc) {
                (0x000A + ((lc as u32) - 0x21)) as u16
            } else {
                lc as u16
            }
        }
    }
}

/// Primary collation key of a string.
pub fn collation_sort_key(s: &str) -> (key: Vec<u16>)
    ensures
        key@ == sort_key(s@),
{
    let chars = crate::text::chars_of(s);
    let mut key: Vec<u16> = Vec::new();
    let mut i: usize = 0;
    while i < chars.len()
        invariant
            chars@ == s@,
            i <= chars.len(),
            key@ == sort_key(s@).take(i as int),
        decreases chars.len() - i,
    {
        let lc = char_lowercase_first(chars[i]);
        key.push(primary_unit_of(lc));
        assert(key@ =~= sort_key(s@).take(i as int + 1));
        i += 1;
    }
    assert(key@ =~= sort_key(s@));
    key
}

/// Whether unit `x` sorts before unit `y` in the tertiary pass.
pub fn unit_before(x: u16, y: u16) -> (r: bool)
    ensures
        r == unit_sorts_first(x, y),
{
    let xo = char_from_unit(x);
    let yo = char_from_unit(y);
    match (xo, yo) {
        (Some(xc), Some(yc)) => {
            let xl = char_lowercase_first(xc);
            let yl = char_lowercase_first(yc);
            let xlow = char_is_lowercase(xc);
            let ylow = char_is_lowercase(yc);
            if xl == yl && xlow != ylow {
                xlow
            } else {
                let xw = collation_weight(xc);
                let yw = collation_weight(yc);
                if xw != yw {
                    xw < yw
                } else {
                    x < y
                }
            }
        },
        _ => x < y,
    }
}

} // verus!

verus! {

/// Tertiary pass over two code-unit sequences.
pub fn tertiary_compare(a: &Vec<u16>, b: &Vec<u16>) -> (res: std::cmp::Ordering)
    ensures
        res == tertiary_order(a@, b@),
{
    let mut i: usize = 0;
    proof {
        crate::text::lemma_units_from_zero(a@);
        crate::text::lemma_units_from_zero(b@);
    }
    while i < a.len() && i < b.len()
        invariant
            i <= a.len(),
            i <= b.len(),
            tertiary_order(a@, b@) == tertiary_order(units_from(a@, i), units_from(b@, i)),
        decreases a.len() - i,
    {
        proof {
            crate::text::lemma_units_from_step(a@, i);
            crate::text::lemma_units_from_step(b@, i);
        }
        if a[i] != b[i] {
            if unit_before(a[i], b[i]) {
                return std::cmp::Ordering::Less;
            } else {
                return std::cmp::Ordering::Greater;
            }
        }
        i += 1;
    }
    if i < a.len() {
        proof { crate::text::lemma_units_from_step(a@, i); }
        std::cmp::Ordering::Greater
    } else if i < b.len() {
        proof { crate::text::lemma_units_from_step(b@, i); }
        std::cmp::Ordering::Less
    } else {
        assert(units_from(a@, i).len() == 0);
        assert(units_from(b@, i).len() == 0);
        std::cmp::Ordering::Equal
    }
}

/// String order of `?sort`: primary key first, then the tertiary pass.
pub fn collator_cmp(a: &str, b: &str) -> (res: std::cmp::Ordering)
    ensures
        res == collator_order(a@, b@),
{
    let ka = collation_sort_key(a);
    let kb = collation_sort_key(b);
    match compare_units(&ka, &kb) {
        std::cmp::Ordering::Equal => {
            let au = encode_utf16(a);
            let bu = encode_utf16(b);
            tertiary_compare(&au, &bu)
        },
        o => o,
    }
}

} // verus!
