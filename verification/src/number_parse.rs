//! `?number` on a text: the text without surrounding control characters and
//! spaces, read as a 64-bit integer, else as a big integer, else as a big
//! decimal; the words `INF`, `Infinity`, `-INF`, `-Infinity` and `NaN` name
//! the infinities and not-a-number.
use vstd::prelude::*;
use crate::error::{is_misc, TemplateError};
use crate::text::{chars_of, push_str, string_from_chars};
use crate::time_zone::{all_digits, digits_value, lemma_digits_grow};

verus! {

/// Whether `num-bigint` reads a text as a big integer (`BigInt::from_str`);
/// a function of the text alone.
pub uninterp spec fn bigint_parses(s: Seq<char>) -> bool;

/// Whether `bigdecimal` reads a text as a big decimal
/// (`BigDecimal::from_str`); a function of the text alone.
pub uninterp spec fn decimal_parses(s: Seq<char>) -> bool;

/// `num_bigint::BigInt`, used as an opaque value.
#[verifier::external_type_specification]
#[verifier::external_body]
pub struct ExBigInt(num_bigint::BigInt);

/// `bigdecimal::BigDecimal`, used as an opaque value.
#[verifier::external_type_specification]
#[verifier::external_body]
pub struct ExBigDecimal(bigdecimal::BigDecimal);

/// `BigInt::from_str`: a big integer, read exactly when the text parses.  As
/// its source shows, an optional sign followed by one or more ASCII digits
/// always parses.
#[verifier::external_body]
fn bigint_text(s: &str) -> (r: Option<num_bigint::BigInt>)
    ensures
        r is Some <==> bigint_parses(s@),
        all_digits(s@) ==> r is Some,
{
    s.parse::<num_bigint::BigInt>().ok()
}

/// `BigDecimal::from_str`: a big decimal, read exactly when the text parses.
#[verifier::external_body]
fn decimal_text(s: &str) -> (r: Option<bigdecimal::BigDecimal>)
    ensures
        r is Some <==> decimal_parses(s@),
{
    s.parse::<bigdecimal::BigDecimal>().ok()
}

/// Whether a character is removed at the ends by trimming: a control
/// character or a space (code point at most U+0020).
pub open spec fn is_trimmed_char(c: char) -> bool {
    (c as u32) <= 0x20
}

/// A text without its leading trimmed characters.
pub open spec fn trim_front(s: Seq<char>) -> Seq<char>
    decreases s.len(),
{
    if s.len() > 0 && is_trimmed_char(s[0]) {
        trim_front(s.drop_first())
    } else {
        s
    }
}

/// A text without its trailing trimmed characters.
pub open spec fn trim_back(s: Seq<char>) -> Seq<char>
    decreases s.len(),
{
    if s.len() > 0 && is_trimmed_char(s.last()) {
        trim_back(s.drop_last())
    } else {
        s
    }
}

/// A text without leading and trailing control characters and spaces.
pub open spec fn number_trimmed(s: Seq<char>) -> Seq<char> {
    trim_back(trim_front(s))
}

/// `i64::from_str`: an optional `+` or `-` and one or more ASCII digits,
/// whose value fits in 64 bits.
pub open spec fn parse_i64(s: Seq<char>) -> Option<int> {
    let neg = s.len() > 0 && s[0] == '-';
    let d = if s.len() > 0 && (s[0] == '-' || s[0] == '+') {
        s.drop_first()
    } else {
        s
    };
    if !all_digits(d) {
        None
    } else {
        let v = if neg {
            -digits_value(d)
        } else {
            digits_value(d)
        };
        if i64::MIN <= v <= i64::MAX {
            Some(v)
        } else {
            None
        }
    }
}

/// What `?number` reads a text as.
pub enum NumberReading {
    Long(int),
    BigInt,
    Decimal,
    PosInfinity,
    NegInfinity,
    NaN,
    NotANumber,
}

/// `?number` on a text: after trimming, the infinity and not-a-number
/// words, else a 64-bit integer, else a big integer, else a big decimal,
/// else not a number.
pub open spec fn number_reading(s: Seq<char>) -> NumberReading {
    let t = number_trimmed(s);
    if t == "INF"@ || t == "Infinity"@ {
        NumberReading::PosInfinity
    } else if t == "-INF"@ || t == "-Infinity"@ {
        NumberReading::NegInfinity
    } else if t == "NaN"@ {
        NumberReading::NaN
    } else {
        match parse_i64(t) {
            Some(v) => NumberReading::Long(v),
            None => if bigint_parses(t) {
                NumberReading::BigInt
            } else if decimal_parses(t) {
                NumberReading::Decimal
            } else {
                NumberReading::NotANumber
            },
        }
    }
}

/// A number read from text.  A big integer or a big decimal is kept as the
/// trimmed text that `num-bigint` or `bigdecimal` read it from; the
/// infinities and not-a-number are named, the floating-point values
/// themselves being made outside this library.
#[derive(Debug)]
pub enum ParsedNumber {
    Long(i64),
    BigInt(String),
    Decimal(String),
    PosInfinity,
    NegInfinity,
    NaN,
}

/// The trimmed characters `cs[lo..hi]` of `cs`.
fn trim_bounds(cs: &Vec<char>) -> (r: (usize, usize))
    ensures
        r.0 <= r.1 <= cs.len(),
        cs@.subrange(r.0 as int, r.1 as int) == number_trimmed(cs@),
{
    let mut lo: usize = 0;
    proof {
        assert(cs@.subrange(0, cs@.len() as int) =~= cs@);
    }
    while lo < cs.len() && (cs[lo] as u32) <= 0x20
        invariant
            lo <= cs.len(),
            trim_front(cs@.subrange(lo as int, cs@.len() as int)) == trim_front(cs@),
        decreases cs.len() - lo,
    {
        proof {
            assert(cs@.subrange(lo as int, cs@.len() as int).drop_first() =~= cs@.subrange(
                lo as int + 1,
                cs@.len() as int,
            ));
        }
        lo += 1;
    }
    let ghost front = cs@.subrange(lo as int, cs@.len() as int);
    proof {
        assert(trim_front(front) == front);
    }
    let mut hi: usize = cs.len();
    proof {
        assert(cs@.subrange(lo as int, hi as int) =~= front);
    }
    while hi > lo && (cs[hi - 1] as u32) <= 0x20
        invariant
            lo <= hi <= cs.len(),
            trim_back(cs@.subrange(lo as int, hi as int)) == trim_back(front),
            front == trim_front(cs@),
        decreases hi,
    {
        proof {
            assert(cs@.subrange(lo as int, hi as int).drop_last() =~= cs@.subrange(lo as int, hi - 1));
        }
        hi -= 1;
    }
    (lo, hi)
}

/// `i64::from_str` on `cs`.
fn parse_i64_of(cs: &Vec<char>) -> (r: Option<i64>)
    ensures
        match parse_i64(cs@) {
            Some(v) => r == Some(v as i64),
            None => r is None,
        },
{
    let ghost s = cs@;
    let n = cs.len();
    let neg = n > 0 && cs[0] == '-';
    let start: usize = if n > 0 && (cs[0] == '-' || cs[0] == '+') {
        1
    } else {
        0
    };
    let ghost d = cs@.subrange(start as int, n as int);
    proof {
        if start == 1 {
            assert(s.drop_first() =~= d);
        } else {
            assert(s =~= d);
        }
    }
    if start == n {
        return None;
    }
    let mut v: i128 = 0;
    let mut i: usize = start;
    while i < n
        invariant
            start <= i <= n == cs.len(),
            d == cs@.subrange(start as int, n as int),
            s == cs@,
            neg == (s.len() > 0 && s[0] == '-'),
            start <= 1,
            start == 1 <==> (s.len() > 0 && (s[0] == '-' || s[0] == '+')),
            forall|j: int| 0 <= j < i - start ==> '0' <= #[trigger] d[j] <= '9',
            v == digits_value(d.take(i - start)),
            0 <= v <= 9223372036854775808,
        decreases n - i,
    {
        let c = cs[i];
        if !('0' <= c && c <= '9') {
            assert(d[i - start] == c);
            assert(!all_digits(d));
            return None;
        }
        proof {
            assert(d.take(i - start + 1).drop_last() =~= d.take(i - start));
            assert(d.take(i - start + 1).last() == c);
        }
        v = v * 10 + (c as u32 - '0' as u32) as i128;
        assert(v == digits_value(d.take(i - start + 1)));
        if v > 9223372036854775808 {
            proof {
                assert(d[i - start] == c);
                if all_digits(d) {
                    lemma_digits_grow(d, i - start + 1);
                    assert(digits_value(d) > 9223372036854775808);
                    if s.len() > 0 && (s[0] == '-' || s[0] == '+') {
                        assert(s.drop_first() =~= d);
                    } else {
                        assert(cs@.subrange(0, n as int) =~= s);
                    }
                    assert(parse_i64(s) is None);
                }
            }
            return None;
        }
        i += 1;
    }
    proof {
        assert(d.take(i - start) =~= d);
        assert(all_digits(d));
    }
    if neg {
        Some((-v) as i64)
    } else if v > 9223372036854775807 {
        None
    } else {
        Some(v as i64)
    }
}

/// Whether `cs` spells `w`.
fn spells_word(cs: &Vec<char>, w: &str) -> (r: bool)
    ensures
        r == (cs@ == w@),
{
    let s = string_from_chars(cs);
    crate::text::str_eq(s.as_str(), w)
}

/// `?number` on a text (see `number_reading`); a text that is no number is
/// refused with a message quoting it as given.
pub fn parse_number(s: &str) -> (r: Result<ParsedNumber, TemplateError>)
    ensures
        match number_reading(s@) {
            NumberReading::Long(v) => r matches Ok(ParsedNumber::Long(x)) && x == v,
            NumberReading::BigInt => r matches Ok(ParsedNumber::BigInt(t)) && t@ == number_trimmed(s@),
            NumberReading::Decimal => r matches Ok(ParsedNumber::Decimal(t)) && t@ == number_trimmed(s@),
            NumberReading::PosInfinity => r matches Ok(ParsedNumber::PosInfinity),
            NumberReading::NegInfinity => r matches Ok(ParsedNumber::NegInfinity),
            NumberReading::NaN => r matches Ok(ParsedNumber::NaN),
            NumberReading::NotANumber => r matches Err(e) && is_misc(e, s@ + " is not a number"@),
        },
{
    let cs = chars_of(s);
    let (lo, hi) = trim_bounds(&cs);
    let t = crate::time_zone::sub_chars(&cs, lo, hi);
    if spells_word(&t, "INF") || spells_word(&t, "Infinity") {
        return Ok(ParsedNumber::PosInfinity);
    }
    if spells_word(&t, "-INF") || spells_word(&t, "-Infinity") {
        return Ok(ParsedNumber::NegInfinity);
    }
    if spells_word(&t, "NaN") {
        return Ok(ParsedNumber::NaN);
    }
    if let Some(v) = parse_i64_of(&t) {
        return Ok(ParsedNumber::Long(v));
    }
    let text = string_from_chars(&t);
    if bigint_text(text.as_str()).is_some() {
        return Ok(ParsedNumber::BigInt(text));
    }
    if decimal_text(text.as_str()).is_some() {
        return Ok(ParsedNumber::Decimal(text));
    }
    let mut m = String::new();
    push_str(&mut m, s);
    push_str(&mut m, " is not a number");
    Err(TemplateError::misc(m))
}

} // verus!
