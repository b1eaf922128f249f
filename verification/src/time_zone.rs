//! Time zone settings: `UTC`, `GMT`, `Z`, the `GMT+HH`, `GMT+HH:MM` and
//! `GMT+HHMM` offsets, and IANA zone names; and the zone id that the
//! template language reports for such a setting.
use vstd::prelude::*;
use chrono::{Offset, TimeZone};
use crate::output_format::ascii_upper;
use crate::text::{decimal, first_index_of, has_prefix, int_text};

verus! {

/// Whether a character has the Unicode `White_Space` property (what
/// `str::trim` removes).
pub open spec fn is_white(c: char) -> bool {
    ||| '\u{9}' <= c <= '\u{d}'
    ||| c == ' '
    ||| c == '\u{85}'
    ||| c == '\u{a0}'
    ||| c == '\u{1680}'
    ||| '\u{2000}' <= c <= '\u{200a}'
    ||| c == '\u{2028}'
    ||| c == '\u{2029}'
    ||| c == '\u{202f}'
    ||| c == '\u{205f}'
    ||| c == '\u{3000}'
}

/// A text without its leading white space.
pub open spec fn trim_start(s: Seq<char>) -> Seq<char>
    decreases s.len(),
{
    if s.len() > 0 && is_white(s[0]) {
        trim_start(s.drop_first())
    } else {
        s
    }
}

/// A text without its trailing white space.
pub open spec fn trim_end(s: Seq<char>) -> Seq<char>
    decreases s.len(),
{
    if s.len() > 0 && is_white(s.last()) {
        trim_end(s.drop_last())
    } else {
        s
    }
}

/// A text without leading and trailing white space (`str::trim`).
pub open spec fn trimmed(s: Seq<char>) -> Seq<char> {
    trim_end(trim_start(s))
}

/// The value of decimal digits.
pub open spec fn digits_value(d: Seq<char>) -> int
    decreases d.len(),
{
    if d.len() == 0 {
        0
    } else {
        digits_value(d.drop_last()) * 10 + (d.last() as int - '0' as int)
    }
}

/// Whether a text is one or more ASCII digits.
pub open spec fn all_digits(d: Seq<char>) -> bool {
    d.len() > 0 && forall|i: int| 0 <= i < d.len() ==> '0' <= #[trigger] d[i] <= '9'
}

/// `i32::from_str`: an optional `+` or `-` and one or more ASCII digits,
/// whose value fits in 32 bits.
pub open spec fn parse_i32(s: Seq<char>) -> Option<int> {
    let neg = s.len() > 0 && s[0] == '-';
    let d = if s.len() > 0 && (s[0] == '-' || s[0] == '+') {
        s.drop_first()
    } else {
        s
    };
    if !all_digits(d) {
        None
    } else {
        let v = if neg {
            -digits_value(d)
        } else {
            digits_value(d)
        };
        if i32::MIN <= v <= i32::MAX {
            Some(v)
        } else {
            None
        }
    }
}

/// Bytes of a character in UTF-8.
pub open spec fn char_bytes(c: char) -> nat {
    if (c as u32) < 0x80 {
        1
    } else if (c as u32) < 0x800 {
        2
    } else if (c as u32) < 0x10000 {
        3
    } else {
        4
    }
}

/// Bytes of a text in UTF-8.
pub open spec fn utf8_len(s: Seq<char>) -> nat
    decreases s.len(),
{
    if s.len() == 0 {
        0
    } else {
        utf8_len(s.drop_last()) + char_bytes(s.last())
    }
}

/// How hours and minutes after `GMT+` / `GMT-` read.
pub enum GmtFields {
    Fields(int, int),
    NotNumeric,
    /// Four bytes whose second byte ends inside a character: slicing them
    /// there panics.
    Unsliceable,
}

/// The characters in the first two bytes of a text, when those end at a
/// character boundary.
pub open spec fn two_byte_prefix(rest: Seq<char>) -> Option<int> {
    if rest.len() >= 1 && char_bytes(rest[0]) == 2 {
        Some(1)
    } else if rest.len() >= 2 && char_bytes(rest[0]) == 1 && char_bytes(rest[1]) == 1 {
        Some(2)
    } else {
        None
    }
}

/// Hours and minutes after the sign: `H:M`, four bytes `HHMM`, or hours
/// alone.
pub open spec fn gmt_fields(rest: Seq<char>) -> GmtFields {
    match first_index_of(rest, ':') {
        Some(i) => match (parse_i32(rest.take(i)), parse_i32(rest.skip(i + 1))) {
            (Some(h), Some(m)) => GmtFields::Fields(h, m),
            _ => GmtFields::NotNumeric,
        },
        None => if utf8_len(rest) == 4 {
            match two_byte_prefix(rest) {
                Some(k) => match (parse_i32(rest.take(k)), parse_i32(rest.skip(k))) {
                    (Some(h), Some(m)) => GmtFields::Fields(h, m),
                    _ => GmtFields::NotNumeric,
                },
                None => GmtFields::Unsliceable,
            }
        } else {
            match parse_i32(rest) {
                Some(h) => GmtFields::Fields(h, 0),
                None => GmtFields::NotNumeric,
            }
        },
    }
}

/// A number written with at least two digits (`{:02}`).
pub open spec fn two_digits(v: int) -> Seq<char> {
    if 0 <= v <= 9 {
        seq!['0'] + decimal(v as nat)
    } else {
        int_text(v)
    }
}

/// The upper-case (ASCII) form of a trimmed setting.
pub open spec fn upper_trimmed(s: Seq<char>) -> Seq<char> {
    trimmed(s).map_values(|c: char| ascii_upper(c))
}

/// What follows `GMT` in a setting, when it starts with a sign: whether it
/// is `-`, and the fields after it.
pub open spec fn gmt_offset(s: Seq<char>) -> Option<(bool, GmtFields)> {
    let up = upper_trimmed(s);
    if has_prefix(up, "GMT"@) && up.len() > 3 && (up[3] == '+' || up[3] == '-') {
        Some((up[3] == '-', gmt_fields(up.skip(4))))
    } else {
        None
    }
}

/// The zone id reported for a setting: `UTC` for `UTC` and `Z`, `GMT`,
/// `GMT±HH:MM` for the offsets, else the trimmed setting itself.
pub open spec fn java_zone_id(s: Seq<char>) -> Seq<char> {
    let t = trimmed(s);
    let up = upper_trimmed(s);
    if up == "UTC"@ || up == "Z"@ {
        "UTC"@
    } else if up == "GMT"@ {
        "GMT"@
    } else {
        match gmt_offset(s) {
            Some((neg, GmtFields::Fields(h, m))) => "GMT"@ + (if neg { "-"@ } else { "+"@ }) + two_digits(h)
                + ":"@ + two_digits(m),
            _ => t,
        }
    }
}

/// Whether reading a setting's offset would slice inside a character.
pub open spec fn zone_unsliceable(s: Seq<char>) -> bool {
    gmt_offset(s) matches Some((_, GmtFields::Unsliceable))
}

} // verus!

verus! {

/// The value of all-digit text grows with each digit read.
pub proof fn lemma_digits_grow(d: Seq<char>, k: int)
    requires
        0 <= k <= d.len(),
        forall|i: int| 0 <= i < d.len() ==> '0' <= #[trigger] d[i] <= '9',
    ensures
        digits_value(d) >= digits_value(d.take(k)) >= 0,
    decreases d.len() - k,
{
    if k < d.len() {
        lemma_digits_grow(d, k + 1);
        assert(d.take(k + 1).drop_last() =~= d.take(k));
        assert(d.take(k + 1).last() == d[k]);
    } else {
        assert(d.take(k) =~= d);
        lemma_digits_nonneg(d);
    }
}

/// The value of digits is not negative.
pub proof fn lemma_digits_nonneg(d: Seq<char>)
    requires
        forall|i: int| 0 <= i < d.len() ==> '0' <= #[trigger] d[i] <= '9',
    ensures
        digits_value(d) >= 0,
    decreases d.len(),
{
    if d.len() > 0 {
        assert forall|i: int| 0 <= i < d.drop_last().len() implies '0' <= #[trigger] d.drop_last()[i] <= '9' by {
            assert(d.drop_last()[i] == d[i]);
        }
        lemma_digits_nonneg(d.drop_last());
        assert('0' <= d[d.len() - 1] <= '9');
    }
}

/// `i32::from_str` on `cs[lo..hi]`.
pub fn parse_i32_of(cs: &Vec<char>, lo: usize, hi: usize) -> (r: Option<i32>)
    requires
        lo <= hi <= cs.len(),
    ensures
        match parse_i32(cs@.subrange(lo as int, hi as int)) {
            Some(v) => r == Some(v as i32),
            None => r is None,
        },
{
    let ghost s = cs@.subrange(lo as int, hi as int);
    let neg = hi > lo && cs[lo] == '-';
    let start = if hi > lo && (cs[lo] == '-' || cs[lo] == '+') {
        lo + 1
    } else {
        lo
    };
    let ghost d = cs@.subrange(start as int, hi as int);
    proof {
        if hi > lo && (cs@[lo as int] == '-' || cs@[lo as int] == '+') {
            assert(s.drop_first() =~= d);
        } else {
            assert(s =~= d);
        }
    }
    proof {
        reveal_strlit("0");
    }
    assert(!all_digits(d) ==> parse_i32(s) is None);
    assert(all_digits(d) ==> parse_i32(s) == (if i32::MIN <= (if neg { -digits_value(d) } else { digits_value(d) }) <= i32::MAX {
        Some(if neg { -digits_value(d) } else { digits_value(d) })
    } else {
        None
    }));
    if start == hi {
        return None;
    }
    let mut v: i64 = 0;
    let mut i: usize = start;
    while i < hi
        invariant
            lo <= start <= i <= hi <= cs.len(),
            d == cs@.subrange(start as int, hi as int),
            forall|j: int| 0 <= j < i - start ==> '0' <= #[trigger] d[j] <= '9',
            v == digits_value(d.take(i - start)),
            0 <= v <= 2147483648,
            !all_digits(d) ==> parse_i32(cs@.subrange(lo as int, hi as int)) is None,
            s == cs@.subrange(lo as int, hi as int),
            all_digits(d) ==> parse_i32(s) == (if i32::MIN <= (if neg { -digits_value(d) } else { digits_value(d) }) <= i32::MAX {
                Some(if neg { -digits_value(d) } else { digits_value(d) })
            } else {
                None
            }),
        decreases hi - i,
    {
        let c = cs[i];
        if !('0' <= c && c <= '9') {
            assert(d[i - start] == c);
            assert(!all_digits(d));
            return None;
        }
        proof {
            assert(d.take(i - start + 1).drop_last() =~= d.take(i - start));
            assert(d.take(i - start + 1).last() == c);
        }
        v = v * 10 + (c as u32 - '0' as u32) as i64;
        assert(v == digits_value(d.take(i - start + 1)));
        if v > 2147483648 {
            proof {
                assert forall|j: int| 0 <= j < i - start + 1 implies '0' <= #[trigger] d[j] <= '9' by {}
                if all_digits(d) {
                    lemma_digits_grow(d, i - start + 1);
                    assert(digits_value(d) > 2147483648);
                }
            }
            return None;
        }
        i += 1;
    }
    proof {
        assert(d.take(i - start) =~= d);
    }
    if neg {
        Some((-v) as i32)
    } else if v > 2147483647 {
        None
    } else {
        Some(v as i32)
    }
}

/// `str::trim`: the text without leading and trailing white space.
#[verifier::rlimit(30)]
pub fn trim_text(s: &str) -> (r: Vec<char>)
    ensures
        r@ == trimmed(s@),
{
    let cs = crate::text::chars_of(s);
    let mut lo: usize = 0;
    proof {
        assert(cs@.subrange(0, cs@.len() as int) =~= cs@);
    }
    while lo < cs.len() && is_white_char(cs[lo])
        invariant
            lo <= cs@.len(),
            cs@ == s@,
            trim_start(s@) == trim_start(cs@.subrange(lo as int, cs@.len() as int)),
        decreases cs.len() - lo,
    {
        proof {
            assert(cs@.subrange(lo as int, cs@.len() as int).drop_first() =~= cs@.subrange(
                lo as int + 1,
                cs@.len() as int,
            ));
        }
        lo += 1;
    }
    let mut hi: usize = cs.len();
    proof {
        assert(trim_start(cs@.subrange(lo as int, cs@.len() as int)) =~= cs@.subrange(
            lo as int,
            cs@.len() as int,
        ));
    }
    while hi > lo && is_white_char(cs[hi - 1])
        invariant
            lo <= hi <= cs@.len(),
            cs@ == s@,
            trimmed(s@) == trim_end(cs@.subrange(lo as int, hi as int)),
        decreases hi,
    {
        proof {
            assert(cs@.subrange(lo as int, hi as int).drop_last() =~= cs@.subrange(lo as int, hi as int - 1));
        }
        hi -= 1;
    }
    proof {
        assert(trim_end(cs@.subrange(lo as int, hi as int)) =~= cs@.subrange(lo as int, hi as int));
    }
    let mut r: Vec<char> = Vec::new();
    let mut i: usize = lo;
    while i < hi
        invariant
            lo <= i <= hi <= cs@.len(),
            r@ == cs@.subrange(lo as int, i as int),
        decreases hi - i,
    {
        r.push(cs[i]);
        proof {
            assert(r@ =~= cs@.subrange(lo as int, i as int + 1));
        }
        i += 1;
    }
    r
}

/// Whether a character is white space in the sense of `str::trim`.
fn is_white_char(c: char) -> (b: bool)
    ensures
        b == is_white(c),
{
    ('\u{9}' <= c && c <= '\u{d}') || c == ' ' || c == '\u{85}' || c == '\u{a0}' || c == '\u{1680}' || (
    '\u{2000}' <= c && c <= '\u{200a}') || c == '\u{2028}' || c == '\u{2029}' || c == '\u{202f}' || c
        == '\u{205f}' || c == '\u{3000}'
}

} // verus!

verus! {

/// The characters `cs[lo..hi]`.
pub(crate) fn sub_chars(cs: &Vec<char>, lo: usize, hi: usize) -> (r: Vec<char>)
    requires
        lo <= hi <= cs.len(),
    ensures
        r@ == cs@.subrange(lo as int, hi as int),
{
    let mut r: Vec<char> = Vec::new();
    let mut i: usize = lo;
    while i < hi
        invariant
            lo <= i <= hi <= cs@.len(),
            r@ == cs@.subrange(lo as int, i as int),
        decreases hi - i,
    {
        r.push(cs[i]);
        proof {
            assert(r@ =~= cs@.subrange(lo as int, i as int + 1));
        }
        i += 1;
    }
    r
}

/// Bytes of a character in UTF-8.
fn char_len_utf8(c: char) -> (n: u128)
    ensures
        n == char_bytes(c),
{
    if (c as u32) < 0x80 {
        1
    } else if (c as u32) < 0x800 {
        2
    } else if (c as u32) < 0x10000 {
        3
    } else {
        4
    }
}

/// Bytes of a text in UTF-8.
fn text_len_utf8(cs: &Vec<char>) -> (n: u128)
    ensures
        n == utf8_len(cs@),
{
    let mut n: u128 = 0;
    let mut i: usize = 0;
    assert(cs@.take(0) =~= Seq::<char>::empty());
    while i < cs.len()
        invariant
            i <= cs@.len(),
            n == utf8_len(cs@.take(i as int)),
            n <= 4 * i,
        decreases cs.len() - i,
    {
        assert(cs@.take(i as int + 1).drop_last() =~= cs@.take(i as int));
        n = n + char_len_utf8(cs[i]);
        i += 1;
    }
    assert(cs@.take(i as int) =~= cs@);
    n
}

/// How hours and minutes after the sign read (see `gmt_fields`).
fn gmt_fields_of(rest: &Vec<char>) -> (r: Option<(i32, i32)>)
    requires
        !(gmt_fields(rest@) is Unsliceable),
    ensures
        match gmt_fields(rest@) {
            GmtFields::Fields(h, m) => r == Some((h as i32, m as i32)) && i32::MIN <= h <= i32::MAX && i32::MIN
                <= m <= i32::MAX,
            _ => r is None,
        },
{
    proof {
        crate::text::lemma_first_index_of(rest@, ':');
    }
    match crate::text::find_char(rest, ':') {
        Some(i) => {
            proof {
                assert(rest@.subrange(0, i as int) =~= rest@.take(i as int));
                assert(rest@.subrange(i as int + 1, rest@.len() as int) =~= rest@.skip(i as int + 1));
            }
            let h = parse_i32_of(rest, 0, i);
            let m = parse_i32_of(rest, i + 1, rest.len());
            match (h, m) {
                (Some(h), Some(m)) => Some((h, m)),
                _ => None,
            }
        },
        None => {
            if text_len_utf8(rest) == 4 {
                let k: usize = if rest.len() >= 1 && char_len_utf8(rest[0]) == 2 {
                    1
                } else {
                    2
                };
                proof {
                    assert(rest@.subrange(0, k as int) =~= rest@.take(k as int));
                    assert(rest@.subrange(k as int, rest@.len() as int) =~= rest@.skip(k as int));
                }
                let h = parse_i32_of(rest, 0, k);
                let m = parse_i32_of(rest, k, rest.len());
                match (h, m) {
                    (Some(h), Some(m)) => Some((h, m)),
                    _ => None,
                }
            } else {
                proof {
                    assert(rest@.subrange(0, rest@.len() as int) =~= rest@);
                }
                match parse_i32_of(rest, 0, rest.len()) {
                    Some(h) => Some((h, 0)),
                    None => None,
                }
            }
        },
    }
}

/// A number written with at least two digits.
fn two_digits_text(v: i32) -> (r: String)
    ensures
        r@ == two_digits(v as int),
{
    if 0 <= v && v <= 9 {
        let mut r = String::from_str("0");
        let d = crate::text::u64_text(v as u64);
        crate::text::push_str(&mut r, d.as_str());
        proof {
            reveal_strlit("0");
            assert(r@ =~= two_digits(v as int));
        }
        r
    } else {
        crate::text::i64_text(v as i64)
    }
}

/// The trimmed setting and its upper-case (ASCII) form.
fn trimmed_and_upper(s: &str) -> (r: (Vec<char>, Vec<char>))
    ensures
        r.0@ == trimmed(s@),
        r.1@ == upper_trimmed(s@),
{
    let t = trim_text(s);
    let mut up: Vec<char> = Vec::new();
    let mut i: usize = 0;
    while i < t.len()
        invariant
            i <= t@.len(),
            up@ == t@.take(i as int).map_values(|c: char| ascii_upper(c)),
        decreases t.len() - i,
    {
        let c = t[i];
        let u = if 'a' <= c && c <= 'z' {
            ((c as u32) - 32) as u8 as char
        } else {
            c
        };
        up.push(u);
        proof {
            assert(t@.take(i as int + 1).map_values(|c: char| ascii_upper(c)) =~= t@.take(i as int).map_values(
                |c: char| ascii_upper(c),
            ).push(ascii_upper(c)));
        }
        i += 1;
    }
    proof {
        assert(t@.take(i as int) =~= t@);
    }
    (t, up)
}

/// Whether characters spell a word.
fn spells(cs: &Vec<char>, word: &str) -> (b: bool)
    ensures
        b == (cs@ == word@),
{
    let s = crate::text::string_from_chars(cs);
    crate::text::str_eq(s.as_str(), word)
}

/// The sign and the characters after it, when the upper-case setting starts
/// with `GMT` and a sign.
fn gmt_rest(up: &Vec<char>) -> (r: Option<(bool, Vec<char>)>)
    ensures
        has_prefix(up@, "GMT"@) && up@.len() > 3 && (up@[3] == '+' || up@[3] == '-') ==> (r matches Some(
            (neg, rest),
        ) && neg == (up@[3] == '-') && rest@ == up@.skip(4)),
        !(has_prefix(up@, "GMT"@) && up@.len() > 3 && (up@[3] == '+' || up@[3] == '-')) ==> r is None,
{
    proof {
        reveal_strlit("GMT");
    }
    if up.len() > 3 && up[0] == 'G' && up[1] == 'M' && up[2] == 'T' && (up[3] == '+' || up[3] == '-') {
        assert(up@.take(3) =~= "GMT"@);
        let rest = sub_chars(up, 4, up.len());
        assert(rest@ =~= up@.skip(4));
        Some((up[3] == '-', rest))
    } else {
        proof {
            if has_prefix(up@, "GMT"@) {
                assert(up@.take(3)[0] == 'G' && up@.take(3)[1] == 'M' && up@.take(3)[2] == 'T');
            }
        }
        None
    }
}

/// The zone id reported for a time zone setting (see `java_zone_id`).
pub fn java_time_zone_id(s: &str) -> (r: String)
    requires
        !zone_unsliceable(s@),
    ensures
        r@ == java_zone_id(s@),
{
    let (t, up) = trimmed_and_upper(s);
    if spells(&up, "UTC") || spells(&up, "Z") {
        return String::from_str("UTC");
    }
    if spells(&up, "GMT") {
        return String::from_str("GMT");
    }
    if let Some((neg, rest)) = gmt_rest(&up) {
        if let Some((h, m)) = gmt_fields_of(&rest) {
            let mut r = String::from_str("GMT");
            if neg {
                crate::text::push_str(&mut r, "-");
            } else {
                crate::text::push_str(&mut r, "+");
            }
            let hs = two_digits_text(h);
            crate::text::push_str(&mut r, hs.as_str());
            crate::text::push_str(&mut r, ":");
            let ms = two_digits_text(m);
            crate::text::push_str(&mut r, ms.as_str());
            return r;
        }
    }
    crate::text::string_from_chars(&t)
}

} // verus!

verus! {

/// Whether `chrono-tz` knows an IANA zone by this exact name
/// (`Tz::from_str`); a function of the name alone.
pub uninterp spec fn zone_known(name: Seq<char>) -> bool;

/// Whether chrono can represent the instant `millis` milliseconds after the
/// epoch (`DateTime::from_timestamp_millis`); a function of the number alone.
pub uninterp spec fn millis_representable(millis: int) -> bool;

/// The offset in seconds east of UTC that the IANA zone of this name has at
/// the instant `millis` (`Tz::offset_from_utc_datetime`, then
/// `FixedOffset::local_minus_utc`); a function of the name and the instant.
pub uninterp spec fn zone_offset(name: Seq<char>, millis: int) -> int;

/// `Tz::from_str`: whether chrono-tz knows an IANA zone by this exact name.
#[verifier::external_body]
fn parse_zone(name: &str) -> (r: bool)
    ensures
        r == zone_known(name@),
{
    name.parse::<chrono_tz::Tz>().is_ok()
}

/// The offset of the IANA zone `name` at the instant `millis`: the zone from
/// `Tz::from_str`, the instant from `DateTime::from_timestamp_millis`, the
/// offset from `offset_from_utc_datetime`, in seconds from
/// `FixedOffset::local_minus_utc` (less than a day either way).  None when
/// the name is unknown or the instant cannot be represented.
#[verifier::external_body]
fn zone_offset_at(name: &str, millis: i64) -> (r: Option<i32>)
    ensures
        (r is Some) == (zone_known(name@) && millis_representable(millis as int)),
        r is Some ==> r->Some_0 == zone_offset(name@, millis as int),
        r is Some ==> -86400 < r->Some_0 < 86400,
{
    let tz = name.parse::<chrono_tz::Tz>().ok()?;
    let at = chrono::DateTime::from_timestamp_millis(millis)?;
    Some(tz.offset_from_utc_datetime(&at.naive_utc()).fix().local_minus_utc())
}

/// A time zone setting: the name of an IANA zone, or a fixed offset in
/// seconds east of UTC.
#[derive(Debug)]
pub enum TzSetting {
    Named(String),
    Fixed(i32),
}

/// What a time zone setting reads as: a fixed offset (seconds east of UTC),
/// a known IANA zone, or nothing valid.
pub enum ZoneSetting {
    Fixed(int),
    Named,
    Invalid,
}

/// The offset in seconds of `GMT±H:M`.
pub open spec fn offset_seconds(neg: bool, h: int, m: int) -> int {
    if neg {
        -(h * 3600 + m * 60)
    } else {
        h * 3600 + m * 60
    }
}

/// A time zone setting: `UTC`, `GMT` or `Z` (ignoring ASCII case and
/// surrounding white space) is offset zero; `GMT` with a sign and hours
/// (at most 23) and minutes (at most 59) is that offset; any other name
/// starting with `GMT` is invalid; else a known IANA zone name.
pub open spec fn zone_setting(s: Seq<char>) -> ZoneSetting {
    let up = upper_trimmed(s);
    if up == "UTC"@ || up == "GMT"@ || up == "Z"@ {
        ZoneSetting::Fixed(0)
    } else if has_prefix(up, "GMT"@) {
        match gmt_offset(s) {
            Some((neg, GmtFields::Fields(h, m))) => if h > 23 || m > 59 {
                ZoneSetting::Invalid
            } else {
                ZoneSetting::Fixed(offset_seconds(neg, h, m))
            },
            _ => ZoneSetting::Invalid,
        }
    } else if zone_known(trimmed(s)) {
        ZoneSetting::Named
    } else {
        ZoneSetting::Invalid
    }
}

/// Whether reading a setting panics: slicing inside a character, or an
/// offset that overflows 32 bits or is a day or more.
pub open spec fn zone_setting_panics(s: Seq<char>) -> bool {
    let up = upper_trimmed(s);
    &&& !(up == "UTC"@ || up == "GMT"@ || up == "Z"@)
    &&& has_prefix(up, "GMT"@)
    &&& match gmt_offset(s) {
        Some((_, GmtFields::Unsliceable)) => true,
        Some((neg, GmtFields::Fields(h, m))) => h <= 23 && m <= 59 && !(i32::MIN <= h * 3600 <= i32::MAX
            && i32::MIN <= m * 60 <= i32::MAX && i32::MIN < h * 3600 + m * 60 <= i32::MAX && -86400
            < offset_seconds(neg, h, m) < 86400),
        _ => false,
    }
}

impl TzSetting {
    /// Reads a time zone setting (see `zone_setting`).
    pub fn from_str(s: &str) -> (r: Result<TzSetting, ()>)
        requires
            !zone_setting_panics(s@),
        ensures
            match zone_setting(s@) {
                ZoneSetting::Fixed(o) => r matches Ok(TzSetting::Fixed(x)) && x == o,
                ZoneSetting::Named => r matches Ok(TzSetting::Named(n)) && n@ == trimmed(s@),
                ZoneSetting::Invalid => r is Err,
            },
    {
        let (t, up) = trimmed_and_upper(s);
        if spells(&up, "UTC") || spells(&up, "GMT") || spells(&up, "Z") {
            return Ok(TzSetting::Fixed(0));
        }
        proof {
            reveal_strlit("GMT");
        }
        if up.len() >= 3 && up[0] == 'G' && up[1] == 'M' && up[2] == 'T' {
            assert(up@.take(3) =~= "GMT"@);
            return match gmt_rest(&up) {
                Some((neg, rest)) => match gmt_fields_of(&rest) {
                    Some((h, m)) => {
                        if h > 23 || m > 59 {
                            Err(())
                        } else {
                            let total = h * 3600 + m * 60;
                            let secs = if neg {
                                -total
                            } else {
                                total
                            };
                            Ok(TzSetting::Fixed(secs))
                        }
                    },
                    None => Err(()),
                },
                None => Err(()),
            };
        }
        proof {
            if has_prefix(up@, "GMT"@) {
                assert(up@.take(3)[0] == 'G' && up@.take(3)[1] == 'M' && up@.take(3)[2] == 'T');
            }
        }
        let name = crate::text::string_from_chars(&t);
        if parse_zone(name.as_str()) {
            Ok(TzSetting::Named(name))
        } else {
            Err(())
        }
    }
}


/// The offset of a time zone setting at the instant `millis`: the fixed
/// offset itself, or the offset of the named zone at that instant; none when
/// the zone is unknown or chrono cannot represent the instant.
pub open spec fn offset_at_spec(z: TzSetting, millis: int) -> Option<int> {
    match z {
        TzSetting::Fixed(o) => Some(o as int),
        TzSetting::Named(n) => if zone_known(n@) && millis_representable(millis) {
            Some(zone_offset(n@, millis))
        } else {
            None
        },
    }
}

impl TzSetting {
    /// The offset in seconds east of UTC at the instant `millis` (see
    /// `offset_at_spec`).
    pub fn offset_at(&self, millis: i64) -> (r: Option<i32>)
        ensures
            match offset_at_spec(*self, millis as int) {
                Some(o) => r == Some(o as i32),
                None => r is None,
            },
    {
        match self {
            TzSetting::Fixed(o) => Some(*o),
            TzSetting::Named(n) => zone_offset_at(n.as_str(), millis),
        }
    }
}

} // verus!
