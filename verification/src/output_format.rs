//! Output formats: names, MIME types, escaping of plain text, and formats
//! combined by nesting (`outer{inner}`).
use vstd::prelude::*;
use crate::text::{chars_of, push_char, push_str};

verus! {

/// The standard output formats.
#[derive(Clone, Copy, PartialEq, Eq, Structural, Debug)]
pub enum OutputFormatKind {
    PlainText,
    Html,
    XHtml,
    Xml,
    Rtf,
    JavaScript,
    Json,
    Css,
}

/// Name of an output format.
pub open spec fn format_name(k: OutputFormatKind) -> Seq<char> {
    match k {
        OutputFormatKind::PlainText => "plainText"@,
        OutputFormatKind::Html => "HTML"@,
        OutputFormatKind::XHtml => "XHTML"@,
        OutputFormatKind::Xml => "XML"@,
        OutputFormatKind::Rtf => "RTF"@,
        OutputFormatKind::JavaScript => "JavaScript"@,
        OutputFormatKind::Json => "JSON"@,
        OutputFormatKind::Css => "CSS"@,
    }
}

/// MIME type of an output format.
pub open spec fn format_mime(k: OutputFormatKind) -> Seq<char> {
    match k {
        OutputFormatKind::PlainText => "text/plain"@,
        OutputFormatKind::Html => "text/html"@,
        OutputFormatKind::XHtml => "application/xhtml+xml"@,
        OutputFormatKind::Xml => "application/xml"@,
        OutputFormatKind::Rtf => "application/rtf"@,
        OutputFormatKind::JavaScript => "application/javascript"@,
        OutputFormatKind::Json => "application/json"@,
        OutputFormatKind::Css => "text/css"@,
    }
}

/// Whether an output format is a markup format (its escaping changes text).
pub open spec fn format_is_markup(k: OutputFormatKind) -> bool {
    k == OutputFormatKind::Html || k == OutputFormatKind::XHtml || k == OutputFormatKind::Xml
        || k == OutputFormatKind::Rtf
}

/// What one character becomes when plain text is escaped for a format.
pub open spec fn escape_char(k: OutputFormatKind, c: char) -> Seq<char> {
    match k {
        OutputFormatKind::Html | OutputFormatKind::XHtml => {
            if c == '<' { "&lt;"@ }
            else if c == '>' { "&gt;"@ }
            else if c == '&' { "&amp;"@ }
            else if c == '"' { "&quot;"@ }
            else if c == '\'' { "&#39;"@ }
            else { seq![c] }
        },
        OutputFormatKind::Xml => {
            if c == '<' { "&lt;"@ }
            else if c == '>' { "&gt;"@ }
            else if c == '&' { "&amp;"@ }
            else if c == '"' { "&quot;"@ }
            else if c == '\'' { "&apos;"@ }
            else { seq![c] }
        },
        OutputFormatKind::Rtf => {
            if c == '\\' { "\\\\"@ }
            else if c == '{' { "\\{"@ }
            else if c == '}' { "\\}"@ }
            else { seq![c] }
        },
        _ => seq![c],
    }
}

/// Plain text escaped for a format, character by character.
pub open spec fn escape_text(k: OutputFormatKind, s: Seq<char>) -> Seq<char>
    decreases s.len(),
{
    if s.len() == 0 {
        Seq::empty()
    } else {
        escape_text(k, s.drop_last()) + escape_char(k, s.last())
    }
}

impl OutputFormatKind {
    /// Name of the format (`HTML`, `plainText`, ...).
    pub fn name(self) -> (r: &'static str)
        ensures
            r@ == format_name(self),
    {
        match self {
            OutputFormatKind::PlainText => "plainText",
            OutputFormatKind::Html => "HTML",
            OutputFormatKind::XHtml => "XHTML",
            OutputFormatKind::Xml => "XML",
            OutputFormatKind::Rtf => "RTF",
            OutputFormatKind::JavaScript => "JavaScript",
            OutputFormatKind::Json => "JSON",
            OutputFormatKind::Css => "CSS",
        }
    }

    /// Whether this is a markup format.
    pub fn is_markup(self) -> (r: bool)
        ensures
            r == format_is_markup(self),
    {
        match self {
            OutputFormatKind::Html | OutputFormatKind::XHtml | OutputFormatKind::Xml
            | OutputFormatKind::Rtf => true,
            _ => false,
        }
    }

    /// The format with the given name, matched without regard to ASCII case.
    pub fn parse(s: &str) -> (r: Option<OutputFormatKind>)
        ensures
            r == parse_format_name(s@),
    {
        let cs = chars_of(s);
        assert(cs@.subrange(0, cs@.len() as int) =~= s@);
        parse_format_range(&cs, 0, cs.len())
    }
}

/// MIME type of an output format.
pub fn mime_type(k: OutputFormatKind) -> (r: &'static str)
    ensures
        r@ == format_mime(k),
{
    match k {
        OutputFormatKind::PlainText => "text/plain",
        OutputFormatKind::Html => "text/html",
        OutputFormatKind::XHtml => "application/xhtml+xml",
        OutputFormatKind::Xml => "application/xml",
        OutputFormatKind::Rtf => "application/rtf",
        OutputFormatKind::JavaScript => "application/javascript",
        OutputFormatKind::Json => "application/json",
        OutputFormatKind::Css => "text/css",
    }
}

/// Whether `k` is a markup format.
pub fn is_markup(k: OutputFormatKind) -> (r: bool)
    ensures
        r == format_is_markup(k),
{
    k.is_markup()
}

/// Appends the escaped form of one character.
fn push_escaped_char(k: OutputFormatKind, c: char, out: &mut String)
    ensures
        final(out)@ == old(out)@ + escape_char(k, c),
{
    match k {
        OutputFormatKind::Html | OutputFormatKind::XHtml => {
            if c == '<' { push_str(out, "&lt;") }
            else if c == '>' { push_str(out, "&gt;") }
            else if c == '&' { push_str(out, "&amp;") }
            else if c == '"' { push_str(out, "&quot;") }
            else if c == '\'' { push_str(out, "&#39;") }
            else { push_char(out, c) }
        },
        OutputFormatKind::Xml => {
            if c == '<' { push_str(out, "&lt;") }
            else if c == '>' { push_str(out, "&gt;") }
            else if c == '&' { push_str(out, "&amp;") }
            else if c == '"' { push_str(out, "&quot;") }
            else if c == '\'' { push_str(out, "&apos;") }
            else { push_char(out, c) }
        },
        OutputFormatKind::Rtf => {
            if c == '\\' { push_str(out, "\\\\") }
            else if c == '{' { push_str(out, "\\{") }
            else if c == '}' { push_str(out, "\\}") }
            else { push_char(out, c) }
        },
        _ => push_char(out, c),
    }
}

/// Plain text escaped for an output format.
pub fn escape_markup(k: OutputFormatKind, s: &str) -> (r: String)
    ensures
        r@ == escape_text(k, s@),
{
    let cs = chars_of(s);
    let mut out = String::new();
    let mut i: usize = 0;
    while i < cs.len()
        invariant
            cs@ == s@,
            i <= cs.len(),
            out@ == escape_text(k, s@.take(i as int)),
        decreases cs.len() - i,
    {
        push_escaped_char(k, cs[i], &mut out);
        assert(s@.take(i as int + 1).drop_last() =~= s@.take(i as int));
        i += 1;
    }
    assert(s@.take(i as int) =~= s@);
    out
}

/// Plain text escaped for the format of a markup value.
pub fn escape_plain_text(k: OutputFormatKind, s: &str) -> (r: String)
    ensures
        r@ == escape_text(k, s@),
{
    escape_markup(k, s)
}

/// Whether markup of another format may be written as is into output of
/// format `k` (only the plain-text format allows mixing).
pub fn format_mixing_allowed(k: OutputFormatKind) -> (r: bool)
    ensures
        r == (k == OutputFormatKind::PlainText),
{
    k == OutputFormatKind::PlainText
}

/// ASCII upper-case form of a character.
pub open spec fn ascii_upper(c: char) -> char {
    if 'a' <= c <= 'z' {
        ((c as u32) - 32) as char
    } else {
        c
    }
}

/// Equality of character sequences ignoring ASCII case.
pub open spec fn eq_ignore_ascii_case(a: Seq<char>, b: Seq<char>) -> bool {
    a.len() == b.len() && forall|i: int| 0 <= i < a.len() ==> ascii_upper(#[trigger] a[i])
        == ascii_upper(b[i])
}

/// The format whose name is `s`, ignoring ASCII case.
pub open spec fn parse_format_name(s: Seq<char>) -> Option<OutputFormatKind> {
    if eq_ignore_ascii_case(s, "plainText"@) {
        Some(OutputFormatKind::PlainText)
    } else if eq_ignore_ascii_case(s, "HTML"@) {
        Some(OutputFormatKind::Html)
    } else if eq_ignore_ascii_case(s, "XHTML"@) {
        Some(OutputFormatKind::XHtml)
    } else if eq_ignore_ascii_case(s, "XML"@) {
        Some(OutputFormatKind::Xml)
    } else if eq_ignore_ascii_case(s, "RTF"@) {
        Some(OutputFormatKind::Rtf)
    } else if eq_ignore_ascii_case(s, "JavaScript"@) {
        Some(OutputFormatKind::JavaScript)
    } else if eq_ignore_ascii_case(s, "JSON"@) {
        Some(OutputFormatKind::Json)
    } else if eq_ignore_ascii_case(s, "CSS"@) {
        Some(OutputFormatKind::Css)
    } else {
        None
    }
}

fn upper_ascii(c: char) -> (r: char)
    ensures
        r == ascii_upper(c),
{
    if 'a' <= c && c <= 'z' {
        ((c as u32) - 32) as u8 as char
    } else {
        c
    }
}

/// Whether `cs[lo..hi]` equals `name`, ignoring ASCII case.
pub fn range_eq_ignore_case(cs: &Vec<char>, lo: usize, hi: usize, name: &str) -> (r: bool)
    requires
        lo <= hi <= cs.len(),
    ensures
        r == eq_ignore_ascii_case(cs@.subrange(lo as int, hi as int), name@),
{
    let nc = chars_of(name);
    if hi - lo != nc.len() {
        return false;
    }
    let mut i: usize = 0;
    while i < nc.len()
        invariant
            nc@ == name@,
            lo <= hi <= cs.len(),
            hi - lo == nc.len(),
            i <= nc.len(),
            forall|j: int| 0 <= j < i ==> ascii_upper(cs@[lo + j]) == ascii_upper(nc@[j]),
        decreases nc.len() - i,
    {
        if upper_ascii(cs[lo + i]) != upper_ascii(nc[i]) {
            assert(ascii_upper(cs@.subrange(lo as int, hi as int)[i as int]) != ascii_upper(
                name@[i as int],
            ));
            return false;
        }
        i += 1;
    }
    true
}

pub(crate) fn parse_format_range(cs: &Vec<char>, lo: usize, hi: usize) -> (r: Option<OutputFormatKind>)
    requires
        lo <= hi <= cs.len(),
    ensures
        r == parse_format_name(cs@.subrange(lo as int, hi as int)),
{
    if range_eq_ignore_case(cs, lo, hi, "plainText") {
        Some(OutputFormatKind::PlainText)
    } else if range_eq_ignore_case(cs, lo, hi, "HTML") {
        Some(OutputFormatKind::Html)
    } else if range_eq_ignore_case(cs, lo, hi, "XHTML") {
        Some(OutputFormatKind::XHtml)
    } else if range_eq_ignore_case(cs, lo, hi, "XML") {
        Some(OutputFormatKind::Xml)
    } else if range_eq_ignore_case(cs, lo, hi, "RTF") {
        Some(OutputFormatKind::Rtf)
    } else if range_eq_ignore_case(cs, lo, hi, "JavaScript") {
        Some(OutputFormatKind::JavaScript)
    } else if range_eq_ignore_case(cs, lo, hi, "JSON") {
        Some(OutputFormatKind::Json)
    } else if range_eq_ignore_case(cs, lo, hi, "CSS") {
        Some(OutputFormatKind::Css)
    } else {
        None
    }
}

} // verus!
