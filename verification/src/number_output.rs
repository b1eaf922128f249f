//! The number text of the legacy `#{expr; mNMN}` interpolation: rounded
//! half-even to at most `max` fraction digits, trailing zeros dropped down
//! to `min` digits, and a decimal comma for the locales that write one.
use vstd::prelude::*;
use crate::number::TNumber;
use crate::text::{first_index_of, split_on};

verus! {

/// `n / d` rounded to the nearest integer, a tie going to the even one
/// (`d` positive).
pub open spec fn half_even_div(n: int, d: int) -> int {
    let q = n / d;
    let r = n % d;
    if 2 * r < d {
        q
    } else if 2 * r > d {
        q + 1
    } else if q % 2 == 0 {
        q
    } else {
        q + 1
    }
}

/// The unscaled value of `unscaled / 10^scale` at `digits` fraction digits,
/// rounded half-even when digits are dropped.
pub open spec fn rounded_unscaled(unscaled: int, scale: nat, digits: nat) -> int {
    if digits >= scale {
        unscaled * crate::number::pow10((digits - scale) as nat)
    } else {
        half_even_div(unscaled, crate::number::pow10((scale - digits) as nat))
    }
}

/// `v / 10^scale` written out in full: a sign when negative, the integer
/// part, and for a positive scale a point and exactly `scale` fraction
/// digits.
pub open spec fn scaled_text(v: int, scale: nat) -> Seq<char> {
    if scale > 0 {
        let a = crate::number::magnitude(v);
        let p = crate::number::pow10(scale) as nat;
        (if v < 0 {
            "-"@
        } else {
            ""@
        }) + crate::text::decimal(a / p) + "."@ + crate::number::zero_padded(crate::text::decimal(a % p), scale)
    } else {
        crate::text::int_text(v)
    }
}

/// The plain text of a decimal `unscaled / 10^scale` rounded half-even to
/// `digits` fraction digits, as `BigDecimal::with_scale_round` with
/// `RoundingMode::HalfEven`, then `to_plain_string`, give it.
pub open spec fn rounded_plain(unscaled: int, scale: int, digits: int) -> Seq<char> {
    scaled_text(rounded_unscaled(unscaled, scale as nat, digits as nat), digits as nat)
}

/// `BigDecimal::with_scale_round(digits, HalfEven)` on `unscaled / 10^scale`,
/// as plain text.
#[verifier::external_body]
fn round_half_even(unscaled: i64, scale: u32, digits: u32) -> (r: String)
    ensures
        r@ == rounded_plain(unscaled as int, scale as int, digits as int),
{
    bigdecimal::BigDecimal::new(num_bigint::BigInt::from(unscaled), scale as i64).with_scale_round(
        digits as i64,
        bigdecimal::RoundingMode::HalfEven,
    ).to_plain_string()
}

/// The unscaled value and the scale of a number.
pub open spec fn decimal_parts(n: TNumber) -> (int, int) {
    match n {
        TNumber::Int(v) => (v as int, 0),
        TNumber::Long(v) => (v as int, 0),
        TNumber::Decimal { unscaled, scale } => (unscaled as int, scale as int),
    }
}

/// The end of the fraction once trailing zeros beyond `min_frac` digits are
/// dropped, looking at `s[..e]` with the point at `dot`.
pub open spec fn fraction_end(s: Seq<char>, dot: int, min_frac: nat, e: int) -> int
    decreases e - dot,
{
    if e - dot - 1 > min_frac && e - 1 < s.len() && s[e - 1] == '0' {
        fraction_end(s, dot, min_frac, e - 1)
    } else {
        e
    }
}

/// A number text with trailing fraction zeros dropped down to `min_frac`
/// digits, and the point too when no digit is left after it.
pub open spec fn trimmed_fraction(s: Seq<char>, min_frac: nat) -> Seq<char> {
    match first_index_of(s, '.') {
        Some(dot) => {
            let e = fraction_end(s, dot, min_frac, s.len() as int);
            if e - dot - 1 == 0 {
                s.take(dot)
            } else {
                s.take(e)
            }
        },
        None => s,
    }
}

/// Whether a locale (its language before the first `_`) writes a decimal
/// comma.
pub open spec fn comma_locale(locale: Seq<char>) -> bool {
    let lang = split_on(locale, '_')[0];
    lang == "fr"@ || lang == "de"@ || lang == "es"@ || lang == "tr"@ || lang == "it"@ || lang == "pt"@
        || lang == "nl"@ || lang == "sv"@ || lang == "cs"@ || lang == "pl"@ || lang == "hu"@ || lang
        == "ro"@ || lang == "ru"@ || lang == "uk"@ || lang == "bg"@ || lang == "el"@ || lang == "fi"@
        || lang == "da"@ || lang == "no"@ || lang == "sk"@ || lang == "sl"@ || lang == "hr"@ || lang
        == "lt"@ || lang == "lv"@ || lang == "et"@ || lang == "id"@ || lang == "vi"@ || lang == "th"@
}

/// A rounded number text with trailing fraction zeros dropped down to
/// `min_frac` digits and, in a locale that writes one, a decimal comma.
pub open spec fn number_text_of(rounded: Seq<char>, min_frac: nat, locale: Seq<char>) -> Seq<char> {
    let t = trimmed_fraction(rounded, min_frac);
    if comma_locale(locale) {
        t.map_values(|c: char| if c == '.' { ',' } else { c })
    } else {
        t
    }
}

/// The text of `#{n; m<min>M<max>}` in a locale.
pub open spec fn legacy_number_text(n: TNumber, min_frac: nat, max_frac: nat, locale: Seq<char>) -> Seq<char> {
    number_text_of(rounded_plain(decimal_parts(n).0, decimal_parts(n).1, max_frac as int), min_frac, locale)
}

/// Whether a language code is one that writes a decimal comma.
fn is_comma_language(lang: &str) -> (b: bool)
    ensures
        b == (lang@ == "fr"@ || lang@ == "de"@ || lang@ == "es"@ || lang@ == "tr"@ || lang@ == "it"@
            || lang@ == "pt"@ || lang@ == "nl"@ || lang@ == "sv"@ || lang@ == "cs"@ || lang@ == "pl"@
            || lang@ == "hu"@ || lang@ == "ro"@ || lang@ == "ru"@ || lang@ == "uk"@ || lang@ == "bg"@
            || lang@ == "el"@ || lang@ == "fi"@ || lang@ == "da"@ || lang@ == "no"@ || lang@ == "sk"@
            || lang@ == "sl"@ || lang@ == "hr"@ || lang@ == "lt"@ || lang@ == "lv"@ || lang@ == "et"@
            || lang@ == "id"@ || lang@ == "vi"@ || lang@ == "th"@),
{
    crate::text::str_eq(lang, "fr") || crate::text::str_eq(lang, "de") || crate::text::str_eq(lang, "es") || crate::text::str_eq(lang, "tr") || crate::text::str_eq(lang, "it") || crate::text::str_eq(lang, "pt") || crate::text::str_eq(lang, "nl") || crate::text::str_eq(lang, "sv") || crate::text::str_eq(lang, "cs") || crate::text::str_eq(lang, "pl") || crate::text::str_eq(lang, "hu") || crate::text::str_eq(lang, "ro") || crate::text::str_eq(lang, "ru") || crate::text::str_eq(lang, "uk") || crate::text::str_eq(lang, "bg") || crate::text::str_eq(lang, "el") || crate::text::str_eq(lang, "fi") || crate::text::str_eq(lang, "da") || crate::text::str_eq(lang, "no") || crate::text::str_eq(lang, "sk") || crate::text::str_eq(lang, "sl") || crate::text::str_eq(lang, "hr") || crate::text::str_eq(lang, "lt") || crate::text::str_eq(lang, "lv") || crate::text::str_eq(lang, "et") || crate::text::str_eq(lang, "id") || crate::text::str_eq(lang, "vi") || crate::text::str_eq(lang, "th")
}

/// The text of the legacy numerical interpolation `#{n; m<min>M<max>}` in a
/// locale (see `legacy_number_text`).
pub fn legacy_number_format(n: &TNumber, min_frac: u32, max_frac: u32, locale: &str) -> (r: String)
    ensures
        r@ == legacy_number_text(*n, min_frac as nat, max_frac as nat, locale@),
{
    let (unscaled, scale): (i64, u32) = match n {
        TNumber::Int(v) => (*v as i64, 0),
        TNumber::Long(v) => (*v, 0),
        TNumber::Decimal { unscaled, scale } => (*unscaled, *scale),
    };
    let text = round_half_even(unscaled, scale, max_frac);
    finish_number_text(text.as_str(), min_frac, locale)
}

/// A rounded number text finished for output (see `number_text_of`).
pub fn finish_number_text(rounded: &str, min_frac: u32, locale: &str) -> (r: String)
    ensures
        r@ == number_text_of(rounded@, min_frac as nat, locale@),
{
    let cs = crate::text::chars_of(rounded);
    proof {
        crate::text::lemma_first_index_of(cs@, '.');
    }
    let kept: usize = match crate::text::find_char(&cs, '.') {
        Some(dot) => {
            let mut e: usize = cs.len();
            while e - dot - 1 > min_frac as usize && cs[e - 1] == '0'
                invariant
                    dot < e <= cs@.len(),
                    fraction_end(cs@, dot as int, min_frac as nat, cs@.len() as int) == fraction_end(
                        cs@,
                        dot as int,
                        min_frac as nat,
                        e as int,
                    ),
                decreases e,
            {
                e -= 1;
            }
            proof {
                assert(fraction_end(cs@, dot as int, min_frac as nat, e as int) == e as int);
            }
            let k = if e - dot - 1 == 0 {
                dot
            } else {
                e
            };
            assert(trimmed_fraction(cs@, min_frac as nat) =~= cs@.take(k as int));
            k
        },
        None => {
            assert(trimmed_fraction(cs@, min_frac as nat) =~= cs@.take(cs@.len() as int));
            cs.len()
        },
    };
    let parts = crate::text::split_char(locale, '_');
    proof {
        crate::text::lemma_split_nonempty(locale@, '_');
    }
    let comma = is_comma_language(parts[0].as_str());
    let mut out = String::new();
    let mut i: usize = 0;
    while i < kept
        invariant
            kept <= cs@.len(),
            i <= kept,
            out@ == (if comma {
                cs@.take(i as int).map_values(|c: char| if c == '.' { ',' } else { c })
            } else {
                cs@.take(i as int)
            }),
        decreases kept - i,
    {
        let c = cs[i];
        let d = if comma && c == '.' {
            ','
        } else {
            c
        };
        crate::text::push_char(&mut out, d);
        proof {
            assert(cs@.take(i as int + 1) =~= cs@.take(i as int).push(c));
            if comma {
                assert(cs@.take(i as int + 1).map_values(|c: char| if c == '.' { ',' } else { c }) =~= cs@.take(
                    i as int,
                ).map_values(|c: char| if c == '.' { ',' } else { c }).push(d));
            }
        }
        i += 1;
    }
    proof {
        assert(crate::text::strings_view(parts@)[0] == parts@[0]@);
    }
    out
}

} // verus!
