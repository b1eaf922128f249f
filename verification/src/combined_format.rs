//! Markup formats combined by nesting, such as `HTML{RTF}`: the escaping of
//! every component is applied, innermost first; the name nests the component
//! names; the MIME type is that of the outermost format.
use vstd::prelude::*;
use crate::output_format::{
    escape_markup, escape_text, format_is_markup, format_mime, format_name, mime_type,
    parse_format_name, OutputFormatKind,
};
use crate::text::{chars_of, push_str};

verus! {

/// Index of the first `{` in `s`, if any.
pub open spec fn first_brace(s: Seq<char>) -> Option<int>
    decreases s.len(),
{
    if s.len() == 0 {
        None
    } else if s[0] == '{' {
        Some(0)
    } else {
        match first_brace(s.drop_first()) {
            Some(i) => Some(i + 1),
            None => None,
        }
    }
}

/// The components of a (possibly combined) format name, outermost first:
/// a plain name gives its format; `outer{inner}` needs a markup outer format
/// and an inner part that is itself a markup format or a combination.
pub open spec fn parse_combined(s: Seq<char>) -> Option<Seq<OutputFormatKind>>
    decreases s.len(),
{
    match first_brace(s) {
        None => match parse_format_name(s) {
            Some(k) => Some(seq![k]),
            None => None,
        },
        Some(i) => {
            if !(0 <= i && i + 2 <= s.len()) || s.last() != '}' {
                None
            } else {
                match parse_format_name(s.take(i)) {
                    Some(outer) => {
                        if !format_is_markup(outer) {
                            None
                        } else {
                            match parse_combined(s.subrange(i + 1, s.len() - 1)) {
                                Some(inner) => {
                                    if inner.len() == 1 && !format_is_markup(inner[0]) {
                                        None
                                    } else {
                                        Some(seq![outer] + inner)
                                    }
                                },
                                None => None,
                            }
                        }
                    },
                    None => None,
                }
            }
        },
    }
}

fn first_brace_in(cs: &Vec<char>, lo: usize, hi: usize) -> (r: Option<usize>)
    requires
        lo <= hi <= cs.len(),
    ensures
        match first_brace(cs@.subrange(lo as int, hi as int)) {
            Some(i) => r == Some((lo + i) as usize) && lo <= lo + i < hi,
            None => r is None,
        },
    decreases hi - lo,
{
    if lo == hi {
        return None;
    }
    let s = Ghost(cs@.subrange(lo as int, hi as int));
    assert(s@.drop_first() =~= cs@.subrange(lo + 1, hi as int));
    if cs[lo] == '{' {
        Some(lo)
    } else {
        first_brace_in(cs, lo + 1, hi)
    }
}

fn parse_combined_range(cs: &Vec<char>, lo: usize, hi: usize) -> (r: Option<Vec<OutputFormatKind>>)
    requires
        lo <= hi <= cs.len(),
    ensures
        match parse_combined(cs@.subrange(lo as int, hi as int)) {
            Some(ks) => r matches Some(v) && v@ == ks,
            None => r is None,
        },
    decreases hi - lo,
{
    let ghost s = cs@.subrange(lo as int, hi as int);
    match first_brace_in(cs, lo, hi) {
        None => match crate::output_format::parse_format_range(cs, lo, hi) {
            Some(k) => {
                let mut v: Vec<OutputFormatKind> = Vec::new();
                v.push(k);
                assert(v@ =~= seq![k]);
                Some(v)
            },
            None => None,
        },
        Some(b) => {
            if hi - b < 2 || cs[hi - 1] != '}' {
                return None;
            }
            assert(s.take(b - lo) =~= cs@.subrange(lo as int, b as int));
            assert(s.subrange(b - lo + 1, s.len() - 1) =~= cs@.subrange(b + 1, hi - 1));
            match crate::output_format::parse_format_range(cs, lo, b) {
                Some(outer) => {
                    if !outer.is_markup() {
                        return None;
                    }
                    match parse_combined_range(cs, b + 1, hi - 1) {
                        Some(inner) => {
                            if inner.len() == 1 && !inner[0].is_markup() {
                                None
                            } else {
                                let mut v: Vec<OutputFormatKind> = Vec::new();
                                v.push(outer);
                                let mut inner = inner;
                                v.append(&mut inner);
                                Some(v)
                            }
                        },
                        None => None,
                    }
                },
                None => None,
            }
        },
    }
}

/// The components of a format name such as `XML{HTML{RTF}}`, outermost first;
/// `None` for a malformed name, an unknown format, or a non-markup component of
/// a combination.
pub fn parse_combined_markup_format(s: &str) -> (r: Option<Vec<OutputFormatKind>>)
    ensures
        match parse_combined(s@) {
            Some(ks) => r matches Some(v) && v@ == ks,
            None => r is None,
        },
{
    let cs = chars_of(s);
    assert(cs@.subrange(0, cs@.len() as int) =~= s@);
    parse_combined_range(&cs, 0, cs.len())
}

} // verus!

verus! {

/// A markup format made of nested formats; `components[0]` is the outermost.
#[derive(Debug, Clone, PartialEq, Eq)]
pub struct CombinedMarkupOutputFormat {
    pub components: Vec<OutputFormatKind>,
}

/// A markup value of a combined format: it holds its plain-text source (when
/// made by escaping plain text) or its markup (when made from markup).
#[derive(Debug, Clone, PartialEq, Eq)]
pub struct CombinedMarkupOutputModel {
    pub plain_text: Option<String>,
    pub markup: Option<String>,
}

/// Characters of an optional string.
pub open spec fn opt_chars(o: Option<String>) -> Option<Seq<char>> {
    match o {
        Some(s) => Some(s@),
        None => None,
    }
}

/// Name of a combination: `outer{inner}`, nested for deeper combinations.
pub open spec fn combined_name(ks: Seq<OutputFormatKind>) -> Seq<char>
    decreases ks.len(),
{
    if ks.len() == 0 {
        Seq::empty()
    } else if ks.len() == 1 {
        format_name(ks[0])
    } else {
        format_name(ks[0]) + "{"@ + combined_name(ks.drop_first()) + "}"@
    }
}

/// Plain text escaped by every component, innermost first.
pub open spec fn combined_escape(ks: Seq<OutputFormatKind>, s: Seq<char>) -> Seq<char>
    decreases ks.len(),
{
    if ks.len() == 0 {
        s
    } else {
        escape_text(ks[0], combined_escape(ks.drop_first(), s))
    }
}

/// The markup text of a model: its markup, or else its plain text escaped.
pub open spec fn markup_text(ks: Seq<OutputFormatKind>, m: CombinedMarkupOutputModel) -> Seq<char> {
    match m.markup {
        Some(mc) => mc@,
        None => combined_escape(
            ks,
            match m.plain_text {
                Some(p) => p@,
                None => Seq::empty(),
            },
        ),
    }
}

impl CombinedMarkupOutputModel {
    /// A model holds its plain text, its markup, or both.
    pub open spec fn wf(self) -> bool {
        self.plain_text is Some || self.markup is Some
    }
}

impl CombinedMarkupOutputFormat {
    /// A combination of the given formats, outermost first.
    pub fn new(components: Vec<OutputFormatKind>) -> (r: Self)
        ensures
            r.components@ == components@,
    {
        CombinedMarkupOutputFormat { components }
    }

    fn name_from(&self, i: usize) -> (r: String)
        requires
            i < self.components.len(),
        ensures
            r@ == combined_name(self.components@.skip(i as int)),
        decreases self.components.len() - i,
    {
        let ghost ks = self.components@.skip(i as int);
        let mut s = String::new();
        push_str(&mut s, self.components[i].name());
        if i + 1 < self.components.len() {
            push_str(&mut s, "{");
            let inner = self.name_from(i + 1);
            push_str(&mut s, inner.as_str());
            push_str(&mut s, "}");
            assert(ks.drop_first() =~= self.components@.skip(i + 1));
        } else {
            assert(ks.len() == 1);
        }
        s
    }

    /// Name of the combination, such as `HTML{RTF}` or `XML{HTML{RTF}}`.
    pub fn name(&self) -> (r: String)
        requires
            self.components.len() > 0,
        ensures
            r@ == combined_name(self.components@),
    {
        assert(self.components@.skip(0) =~= self.components@);
        self.name_from(0)
    }

    /// MIME type: that of the outermost format.
    pub fn mime_type(&self) -> (r: &'static str)
        requires
            self.components.len() > 0,
        ensures
            r@ == format_mime(self.components@[0]),
    {
        mime_type(self.components[0])
    }

    /// Plain text escaped by every component, innermost first.
    pub fn escape_plain_text(&self, s: &str) -> (r: String)
        ensures
            r@ == combined_escape(self.components@, s@),
    {
        let mut acc = String::new();
        push_str(&mut acc, s);
        let mut i: usize = self.components.len();
        assert(self.components@.skip(i as int) =~= Seq::<OutputFormatKind>::empty());
        while i > 0
            invariant
                i <= self.components.len(),
                acc@ == combined_escape(self.components@.skip(i as int), s@),
            decreases i,
        {
            let next = escape_markup(self.components[i - 1], acc.as_str());
            assert(self.components@.skip(i - 1).drop_first() =~= self.components@.skip(i as int));
            acc = next;
            i -= 1;
        }
        assert(self.components@.skip(0) =~= self.components@);
        acc
    }

    /// Plain text written to the output: escaped by every component.
    pub fn output(&self, s: &str) -> (r: String)
        ensures
            r@ == combined_escape(self.components@, s@),
    {
        self.escape_plain_text(s)
    }

    /// A model of text that is already markup.
    pub fn from_markup(&self, markup: String) -> (r: CombinedMarkupOutputModel)
        ensures
            r.plain_text is None,
            opt_chars(r.markup) == Some(markup@),
    {
        CombinedMarkupOutputModel { plain_text: None, markup: Some(markup) }
    }

    /// A model of plain text, to be escaped when its markup is needed.
    pub fn from_plain_text_by_escaping(&self, text: String) -> (r: CombinedMarkupOutputModel)
        ensures
            opt_chars(r.plain_text) == Some(text@),
            r.markup is None,
    {
        CombinedMarkupOutputModel { plain_text: Some(text), markup: None }
    }

    /// The markup of a model: its markup if it has one, else its plain text
    /// escaped.
    pub fn get_markup_string(&self, mo: &CombinedMarkupOutputModel) -> (r: String)
        ensures
            r@ == markup_text(self.components@, *mo),
    {
        match &mo.markup {
            Some(mc) => {
                let r = mc.clone();
                assert(r@ == mc@);
                r
            },
            None => match &mo.plain_text {
                Some(p) => self.escape_plain_text(p.as_str()),
                None => {
                    proof {
                        reveal_strlit("");
                        assert(""@ =~= Seq::<char>::empty());
                    }
                    self.escape_plain_text("")
                },
            },
        }
    }

    /// What writing a model outputs: its markup, or its plain text escaped.
    pub fn output_model(&self, mo: &CombinedMarkupOutputModel) -> (r: String)
        ensures
            r@ == markup_text(self.components@, *mo),
    {
        self.get_markup_string(mo)
    }

    /// Whether the format is a markup format: a combination always is.
    pub fn is_markup(&self) -> (r: bool)
        ensures
            r,
    {
        true
    }
}

} // verus!

verus! {

/// Plain text and markup of the concatenation of two models: two plain texts
/// concatenate as plain text, two markups as markup; otherwise the plain side
/// is escaped and joined to the markup side.
pub open spec fn concat_parts(
    ks: Seq<OutputFormatKind>,
    mo1: CombinedMarkupOutputModel,
    mo2: CombinedMarkupOutputModel,
) -> (Option<Seq<char>>, Option<Seq<char>>) {
    let p1 = opt_chars(mo1.plain_text);
    let m1 = opt_chars(mo1.markup);
    let p2 = opt_chars(mo2.plain_text);
    let m2 = opt_chars(mo2.markup);
    let p3 = if p1 is Some && p2 is Some { Some(p1->0 + p2->0) } else { None };
    let m3 = if m1 is Some && m2 is Some { Some(m1->0 + m2->0) } else { None };
    if p3 is Some || m3 is Some {
        (p3, m3)
    } else if p1 is Some {
        (None, Some(markup_text(ks, mo1) + m2->0))
    } else {
        (None, Some(m1->0 + markup_text(ks, mo2)))
    }
}

fn concat_opt(a: &Option<String>, b: &Option<String>) -> (r: Option<String>)
    ensures
        opt_chars(r) == (if a is Some && b is Some {
            Some(opt_chars(*a)->0 + opt_chars(*b)->0)
        } else {
            None
        }),
{
    match (a, b) {
        (Some(x), Some(y)) => {
            let mut s = x.clone();
            push_str(&mut s, y.as_str());
            Some(s)
        },
        _ => None,
    }
}

impl CombinedMarkupOutputFormat {
    /// Concatenation of two models of this format.
    pub fn concat(&self, mo1: &CombinedMarkupOutputModel, mo2: &CombinedMarkupOutputModel) -> (r:
        CombinedMarkupOutputModel)
        requires
            mo1.wf(),
            mo2.wf(),
        ensures
            (opt_chars(r.plain_text), opt_chars(r.markup)) == concat_parts(
                self.components@,
                *mo1,
                *mo2,
            ),
            r.wf(),
    {
        let pc3 = concat_opt(&mo1.plain_text, &mo2.plain_text);
        let mc3 = concat_opt(&mo1.markup, &mo2.markup);
        if pc3.is_some() || mc3.is_some() {
            return CombinedMarkupOutputModel { plain_text: pc3, markup: mc3 };
        }
        if mo1.plain_text.is_some() {
            let mut s = self.get_markup_string(mo1);
            match &mo2.markup {
                Some(m2) => push_str(&mut s, m2.as_str()),
                None => {},
            }
            CombinedMarkupOutputModel { plain_text: None, markup: Some(s) }
        } else {
            let mut s = String::new();
            match &mo1.markup {
                Some(m1) => push_str(&mut s, m1.as_str()),
                None => {},
            }
            let tail = self.get_markup_string(mo2);
            push_str(&mut s, tail.as_str());
            CombinedMarkupOutputModel { plain_text: None, markup: Some(s) }
        }
    }
}

} // verus!
