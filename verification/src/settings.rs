//! Setting names of the `<#setting>` directive.
use vstd::prelude::*;
use crate::error::{is_misc, TemplateError};
use crate::output_format::eq_ignore_ascii_case;
use crate::text::{chars_of, push_str, str_eq};

verus! {

/// Canonical (snake_case) key of a setting name that a template may set: each
/// of these settings is accepted in camelCase and in snake_case; any other
/// name is returned unchanged.
pub open spec fn canonical_key(name: Seq<char>) -> Seq<char> {
    if name == "booleanFormat"@ || name == "boolean_format"@ {
        "boolean_format"@
    } else if name == "cFormat"@ || name == "c_format"@ {
        "c_format"@
    } else if name == "classicCompatible"@ || name == "classic_compatible"@ {
        "classic_compatible"@
    } else if name == "dateFormat"@ || name == "date_format"@ {
        "date_format"@
    } else if name == "datetimeFormat"@ || name == "datetime_format"@ {
        "datetime_format"@
    } else if name == "locale"@ {
        "locale"@
    } else if name == "numberFormat"@ || name == "number_format"@ {
        "number_format"@
    } else if name == "outputEncoding"@ || name == "output_encoding"@ {
        "output_encoding"@
    } else if name == "sqlDateAndTimeTimeZone"@ || name == "sql_date_and_time_time_zone"@ {
        "sql_date_and_time_time_zone"@
    } else if name == "templateExceptionHandler"@ || name == "template_exception_handler"@ {
        "template_exception_handler"@
    } else if name == "timeFormat"@ || name == "time_format"@ {
        "time_format"@
    } else if name == "timeZone"@ || name == "time_zone"@ {
        "time_zone"@
    } else if name == "urlEscapingCharset"@ || name == "url_escaping_charset"@ {
        "url_escaping_charset"@
    } else {
        name
    }
}

fn either(name: &str, a: &str, b: &str) -> (r: bool)
    ensures
        r == (name@ == a@ || name@ == b@),
{
    str_eq(name, a) || str_eq(name, b)
}

/// Canonical key of a setting name (camelCase and snake_case both map to the
/// snake_case key; unknown names pass through).
pub fn canonical_setting_key(name: &str) -> (r: &str)
    ensures
        r@ == canonical_key(name@),
{
    if either(name, "booleanFormat", "boolean_format") {
        "boolean_format"
    } else if either(name, "cFormat", "c_format") {
        "c_format"
    } else if either(name, "classicCompatible", "classic_compatible") {
        "classic_compatible"
    } else if either(name, "dateFormat", "date_format") {
        "date_format"
    } else if either(name, "datetimeFormat", "datetime_format") {
        "datetime_format"
    } else if str_eq(name, "locale") {
        "locale"
    } else if either(name, "numberFormat", "number_format") {
        "number_format"
    } else if either(name, "outputEncoding", "output_encoding") {
        "output_encoding"
    } else if either(name, "sqlDateAndTimeTimeZone", "sql_date_and_time_time_zone") {
        "sql_date_and_time_time_zone"
    } else if either(name, "templateExceptionHandler", "template_exception_handler") {
        "template_exception_handler"
    } else if either(name, "timeFormat", "time_format") {
        "time_format"
    } else if either(name, "timeZone", "time_zone") {
        "time_zone"
    } else if either(name, "urlEscapingCharset", "url_escaping_charset") {
        "url_escaping_charset"
    } else {
        name
    }
}

/// Result of a boolean setting value: `true`, `yes`, `y` or `false`, `no`,
/// `n`.
pub open spec fn bool_setting(v: Seq<char>) -> Result<bool, Seq<char>> {
    if v == "true"@ || v == "yes"@ || v == "y"@ {
        Ok(true)
    } else if v == "false"@ || v == "no"@ || v == "n"@ {
        Ok(false)
    } else {
        Err("Invalid boolean value: "@ + v)
    }
}

/// Parses a boolean setting value.
pub fn parse_bool_setting(v: &str) -> (r: Result<bool, TemplateError>)
    ensures
        match bool_setting(v@) {
            Ok(b) => r == Ok::<bool, TemplateError>(b),
            Err(m) => r matches Err(e) && is_misc(e, m),
        },
{
    if str_eq(v, "true") || str_eq(v, "yes") || str_eq(v, "y") {
        Ok(true)
    } else if str_eq(v, "false") || str_eq(v, "no") || str_eq(v, "n") {
        Ok(false)
    } else {
        let mut m = String::from_str("Invalid boolean value: ");
        push_str(&mut m, v);
        Err(TemplateError::misc(m))
    }
}

/// A directive parameter's text without one pair of enclosing quotes.
pub open spec fn unquoted(s: Seq<char>) -> Seq<char> {
    if s.len() >= 2 && s[0] == '"' {
        s.subrange(1, s.len() - 1)
    } else {
        s
    }
}

/// Result of a yes/no directive parameter (case-insensitive, quotes
/// allowed): `n`, `no`, `f`, `false` or `y`, `yes`, `t`, `true`.
pub open spec fn yes_no(s: Seq<char>) -> Result<bool, Seq<char>> {
    let u = unquoted(s);
    if eq_ignore_ascii_case(u, "n"@) || eq_ignore_ascii_case(u, "no"@) || eq_ignore_ascii_case(u, "f"@)
        || eq_ignore_ascii_case(u, "false"@) {
        Ok(false)
    } else if eq_ignore_ascii_case(u, "y"@) || eq_ignore_ascii_case(u, "yes"@) || eq_ignore_ascii_case(
        u,
        "t"@,
    ) || eq_ignore_ascii_case(u, "true"@) {
        Ok(true)
    } else {
        Err(
            "Value must be boolean (or one of these strings: \"n\", \"no\", \"f\", \"false\", \"y\", \"yes\", \"t\", \"true\"), but it was \""@
                + s + "\"."@,
        )
    }
}

/// Reads a yes/no directive parameter.  A quoted text must end with an
/// ASCII character (the closing quote is cut off by its byte).
pub fn get_yes_no(s: &str) -> (r: Result<bool, TemplateError>)
    requires
        s@.len() >= 2 && s@[0] == '"' ==> (s@.last() as u32) < 128,
    ensures
        match yes_no(s@) {
            Ok(b) => r == Ok::<bool, TemplateError>(b),
            Err(m) => r matches Err(e) && is_misc(e, m),
        },
{
    let cs = crate::text::chars_of(s);
    let (lo, hi): (usize, usize) = if cs.len() >= 2 && cs[0] == '"' {
        (1, cs.len() - 1)
    } else {
        (0, cs.len())
    };
    proof {
        assert(cs@.subrange(lo as int, hi as int) =~= unquoted(s@));
    }
    let f = crate::output_format::range_eq_ignore_case(&cs, lo, hi, "n")
        || crate::output_format::range_eq_ignore_case(&cs, lo, hi, "no")
        || crate::output_format::range_eq_ignore_case(&cs, lo, hi, "f")
        || crate::output_format::range_eq_ignore_case(&cs, lo, hi, "false");
    if f {
        return Ok(false);
    }
    let t = crate::output_format::range_eq_ignore_case(&cs, lo, hi, "y")
        || crate::output_format::range_eq_ignore_case(&cs, lo, hi, "yes")
        || crate::output_format::range_eq_ignore_case(&cs, lo, hi, "t")
        || crate::output_format::range_eq_ignore_case(&cs, lo, hi, "true");
    if t {
        return Ok(true);
    }
    let mut m = String::from_str(
        "Value must be boolean (or one of these strings: \"n\", \"no\", \"f\", \"false\", \"y\", \"yes\", \"t\", \"true\"), but it was \"",
    );
    push_str(&mut m, s);
    push_str(&mut m, "\".");
    Err(TemplateError::misc(m))
}

/// The largest number of bytes one output or capture buffer may hold.
pub const MAX_OUTPUT_BYTES: usize = 67108864;

/// Message of output past the safety limit.
pub open spec fn output_limit_msg() -> Seq<char> {
    "Template output exceeds the 67108864-byte safety limit."@
}

/// Checks that writing `additional_len` more bytes after `current_len`
/// stays within the output limit.
pub fn ensure_output_limit(current_len: usize, additional_len: usize) -> (r: Result<(), TemplateError>)
    ensures
        current_len + additional_len <= MAX_OUTPUT_BYTES ==> r is Ok,
        current_len + additional_len > MAX_OUTPUT_BYTES ==> (r matches Err(e) && is_misc(
            e,
            output_limit_msg(),
        )),
{
    if current_len <= MAX_OUTPUT_BYTES && additional_len <= MAX_OUTPUT_BYTES - current_len {
        Ok(())
    } else {
        Err(TemplateError::misc(String::from_str(
            "Template output exceeds the 67108864-byte safety limit.",
        )))
    }
}

/// A text cut to `max_len` characters, its last three replaced by `...`
/// when it was longer.
pub open spec fn shortened(s: Seq<char>, max_len: nat) -> Seq<char> {
    if s.len() <= max_len {
        s
    } else {
        s.take(if max_len >= 3 {
            max_len - 3
        } else {
            0
        }) + "..."@
    }
}

/// A text cut to `max_len` characters, its last three replaced by `...`
/// when it was longer (for error messages).
pub fn shorten_java(s: &str, max_len: usize) -> (r: String)
    ensures
        r@ == shortened(s@, max_len as nat),
{
    let cs = crate::text::chars_of(s);
    if cs.len() <= max_len {
        return String::from_str(s);
    }
    let cut: usize = if max_len >= 3 {
        max_len - 3
    } else {
        0
    };
    let mut r = crate::text::substring(&cs, 0, cut);
    push_str(&mut r, "...");
    proof {
        assert(cs@.subrange(0, cut as int) =~= s@.take(cut as int));
    }
    r
}

/// A name in double quotes (for error messages).
pub fn quote_name(s: &str) -> (r: String)
    ensures
        r@ == "\""@ + s@ + "\""@,
{
    let mut r = String::from_str("\"");
    push_str(&mut r, s);
    push_str(&mut r, "\"");
    r
}

/// How `Debug` writes a text: quoted, with special characters escaped; a
/// function of the text alone.
pub uninterp spec fn debug_quoted(s: Seq<char>) -> Seq<char>;

/// `<str as Debug>::fmt`, through `format!("{:?}")`.
#[verifier::external_body]
pub(crate) fn debug_text(s: &str) -> (r: String)
    ensures
        r@ == debug_quoted(s@),
{
    format!("{:?}", s)
}

/// Index of the first comma of a text, if any.
pub open spec fn first_comma(s: Seq<char>) -> Option<nat>
    decreases s.len(),
{
    if s.len() == 0 {
        None
    } else if s[0] == ',' {
        Some(0)
    } else {
        match first_comma(s.skip(1)) {
            Some(i) => Some(i + 1),
            None => None,
        }
    }
}

/// The texts for true and false that a `boolean_format` setting gives:
/// none for the legacy default `true,false` (taken as unset), `true` and
/// `false` for `c`, otherwise what comes before and after the first comma.
pub open spec fn boolean_strings(format: Seq<char>) -> Option<(Seq<char>, Seq<char>)> {
    if format == "true,false"@ {
        None
    } else if format == "c"@ {
        Some(("true"@, "false"@))
    } else {
        match first_comma(format) {
            Some(i) => Some((format.take(i as int), format.skip(i + 1int))),
            None => None,
        }
    }
}

/// `true` or `false` as computer-language text.
pub open spec fn c_boolean(b: bool) -> Seq<char> {
    if b {
        "true"@
    } else {
        "false"@
    }
}

/// Error of printing a boolean while `boolean_format` is the legacy default.
pub open spec fn legacy_boolean_msg() -> Seq<char> {
    "Can't convert boolean to string automatically, because the \"boolean_format\" setting was \"true,false\", which is the legacy deprecated default, and we treat it as if no format was set. This is the default configuration; you should provide the format explicitly for each place where you print a boolean.\n\n----\nTip: Write something like myBool?string('yes', 'no') to specify boolean formatting in place.\n----\nTip: If you want \"true\"/\"false\" result as you are generating computer-language output (not for direct human consumption), then use \"?c\", like ${myBool?c}. (If you always generate computer-language output, then it's might be reasonable to set the \"boolean_format\" setting to \"c\" instead.)\n----\nTip: If you need the same two values on most places, the programmers can set the \"boolean_format\" setting to something like \"yes,no\". However, then it will be easy to unwillingly format booleans like that.\n----"@
}

/// Error of a `boolean_format` that is neither `c` nor two comma-separated
/// texts.
pub open spec fn bad_boolean_format_msg(format: Seq<char>) -> Seq<char> {
    "Setting value must be a string that contains two comma-separated values for true and false, or it must be \"c\", but it was "@
        + debug_quoted(format) + "."@
}

/// A boolean as text by the `boolean_format` setting; `fallback` (the
/// `?string` path) prints `true`/`false` where the legacy default would
/// refuse.
pub open spec fn boolean_text(format: Seq<char>, b: bool, fallback: bool) -> Result<Seq<char>, Seq<char>> {
    if format == "true,false"@ {
        if fallback {
            Ok(c_boolean(b))
        } else {
            Err(legacy_boolean_msg())
        }
    } else if format == "c"@ {
        Ok(c_boolean(b))
    } else {
        match first_comma(format) {
            Some(i) => Ok(if b { format.take(i as int) } else { format.skip(i + 1int) }),
            None => Err(bad_boolean_format_msg(format)),
        }
    }
}

/// The index of the first comma of `s`, if any.
fn find_comma(s: &Vec<char>) -> (r: Option<usize>)
    ensures
        match first_comma(s@) {
            Some(i) => r matches Some(k) && k == i,
            None => r is None,
        },
        r matches Some(i) ==> i < s@.len(),
{
    let mut i: usize = 0;
    while i < s.len()
        invariant
            i <= s.len(),
            forall|j: int| 0 <= j < i ==> s@[j] != ',',
        decreases s.len() - i,
    {
        if s[i] == ',' {
            proof {
                lemma_first_comma_at(s@, i as nat);
            }
            return Some(i);
        }
        i += 1;
    }
    proof {
        lemma_no_comma(s@);
    }
    None
}

/// The first comma of a text is at `i` when `i` holds a comma and no
/// earlier index does.
pub proof fn lemma_first_comma_at(s: Seq<char>, i: nat)
    requires
        i < s.len(),
        s[i as int] == ',',
        forall|j: int| 0 <= j < i ==> s[j] != ',',
    ensures
        first_comma(s) == Some(i),
    decreases i,
{
    if i > 0 {
        lemma_first_comma_at(s.skip(1), (i - 1) as nat);
    }
}

proof fn lemma_no_comma(s: Seq<char>)
    requires
        forall|j: int| 0 <= j < s.len() ==> s[j] != ',',
    ensures
        first_comma(s) is None,
    decreases s.len(),
{
    if s.len() > 0 {
        lemma_no_comma(s.skip(1));
    }
}

/// The texts for true and false of a `boolean_format` setting value.
pub fn boolean_format_strings(format: &str) -> (r: Option<(String, String)>)
    ensures
        match boolean_strings(format@) {
            Some((t, f)) => r matches Some((rt, rf)) && rt@ == t && rf@ == f,
            None => r is None,
        },
{
    if str_eq(format, "true,false") {
        return None;
    }
    if str_eq(format, "c") {
        return Some((String::from_str("true"), String::from_str("false")));
    }
    let cs = chars_of(format);
    match find_comma(&cs) {
        Some(i) => {
            let t = crate::text::substring(&cs, 0, i);
            let f = crate::text::substring(&cs, i + 1, cs.len());
            proof {
                assert(first_comma(format@) == Some(i as nat));
                assert(t@ =~= format@.take(i as int));
                assert(f@ =~= format@.skip(i + 1int));
            }
            Some((t, f))
        },
        None => None,
    }
}

/// A boolean as text by the `boolean_format` setting value `format`.
pub fn boolean_format(format: &str, b: bool, fallback: bool) -> (r: Result<String, TemplateError>)
    ensures
        match boolean_text(format@, b, fallback) {
            Ok(t) => r matches Ok(s) && s@ == t,
            Err(m) => r matches Err(e) && is_misc(e, m),
        },
{
    if str_eq(format, "true,false") {
        if fallback {
            return Ok(if b { String::from_str("true") } else { String::from_str("false") });
        }
        return Err(TemplateError::misc(String::from_str(
            "Can't convert boolean to string automatically, because the \"boolean_format\" setting was \"true,false\", which is the legacy deprecated default, and we treat it as if no format was set. This is the default configuration; you should provide the format explicitly for each place where you print a boolean.\n\n----\nTip: Write something like myBool?string('yes', 'no') to specify boolean formatting in place.\n----\nTip: If you want \"true\"/\"false\" result as you are generating computer-language output (not for direct human consumption), then use \"?c\", like ${myBool?c}. (If you always generate computer-language output, then it's might be reasonable to set the \"boolean_format\" setting to \"c\" instead.)\n----\nTip: If you need the same two values on most places, the programmers can set the \"boolean_format\" setting to something like \"yes,no\". However, then it will be easy to unwillingly format booleans like that.\n----",
        )));
    }
    if str_eq(format, "c") {
        return Ok(if b { String::from_str("true") } else { String::from_str("false") });
    }
    let cs = chars_of(format);
    match find_comma(&cs) {
        Some(i) => {
            proof {
                assert(first_comma(format@) == Some(i as nat));
            }
            if b {
                let t = crate::text::substring(&cs, 0, i);
                proof {
                    assert(t@ =~= format@.take(i as int));
                }
                Ok(t)
            } else {
                let f = crate::text::substring(&cs, i + 1, cs.len());
                proof {
                    assert(f@ =~= format@.skip(i + 1int));
                }
                Ok(f)
            }
        },
        None => {
            let mut m = String::from_str(
                "Setting value must be a string that contains two comma-separated values for true and false, or it must be \"c\", but it was ",
            );
            let q = debug_text(format);
            push_str(&mut m, q.as_str());
            push_str(&mut m, ".");
            Err(TemplateError::misc(m))
        },
    }
}

} // verus!
