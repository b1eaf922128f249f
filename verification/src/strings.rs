//! String built-ins: `?capitalize`, `?chop_linebreak`, `?left_pad` /
//! `?right_pad` (counted in UTF-16 code units), case-insensitive literal
//! replacement, `?substring` and `?length`.
use vstd::prelude::*;
use crate::error::{is_misc, TemplateError};
use crate::output_format::ascii_upper;
use crate::text::{
    ascii_lower, char_lowercase_first, chars_of, lowercase_first, push_char, push_str, utf16_units,
};

verus! {

/// The upper-case mapping of a character (`char::to_uppercase`), one or
/// more characters; a function of the character alone.
pub uninterp spec fn uppercase_of(c: char) -> Seq<char>;

/// The lower-case form of a text (`str::to_lowercase`); a function of the
/// text alone.
pub uninterp spec fn lowercase_of(s: Seq<char>) -> Seq<char>;

/// The text that UTF-16 code units decode to, invalid units replaced
/// (`String::from_utf16_lossy`); a function of the units alone.
pub uninterp spec fn utf16_decoded(v: Seq<u16>) -> Seq<char>;

/// `char::to_uppercase`, collected into a string.  The Unicode table is not
/// restated; for ASCII input the result is the ASCII upper-case form, as the
/// standard library documents.
#[verifier::external_body]
fn char_uppercase(c: char) -> (r: String)
    ensures
        r@ == uppercase_of(c),
        (c as u32) < 128 ==> r@ == seq![ascii_upper(c)],
{
    c.to_uppercase().collect()
}

/// `str::to_lowercase`.  The Unicode table is not restated; for ASCII text
/// the result is the ASCII lower-case form of each character.
#[verifier::external_body]
fn str_lowercase(s: &str) -> (r: String)
    ensures
        r@ == lowercase_of(s@),
        (forall|i: int| 0 <= i < s@.len() ==> (#[trigger] s@[i] as u32) < 128) ==> r@ == s@.map_values(
            |c: char| ascii_lower(c),
        ),
{
    s.to_lowercase()
}

/// `String::from_utf16_lossy`: code units that are the UTF-16 encoding of a
/// text decode to that text.
#[verifier::external_body]
fn utf16_lossy(v: &Vec<u16>) -> (r: String)
    ensures
        r@ == utf16_decoded(v@),
        forall|t: Seq<char>| #[trigger] utf16_units(t) == v@ ==> r@ == t,
{
    String::from_utf16_lossy(v.as_slice())
}

/// Whether a character separates the words of `?capitalize`.
pub open spec fn is_word_sep(c: char) -> bool {
    c == ' ' || c == '\t' || c == '\r' || c == '\n'
}

/// A word with its first character upper-cased and the rest lower-cased.
pub open spec fn capitalized_word(t: Seq<char>) -> Seq<char> {
    if t.len() == 0 {
        Seq::empty()
    } else {
        uppercase_of(t[0]) + lowercase_of(t.skip(1))
    }
}

/// The text so far with its finished words capitalized, and the word being
/// read.
pub open spec fn capitalize_state(s: Seq<char>) -> (Seq<char>, Seq<char>)
    decreases s.len(),
{
    if s.len() == 0 {
        (Seq::empty(), Seq::empty())
    } else {
        let (out, word) = capitalize_state(s.drop_last());
        let c = s.last();
        if is_word_sep(c) {
            (out + capitalized_word(word) + seq![c], Seq::empty())
        } else {
            (out, word.push(c))
        }
    }
}

/// `?capitalize`: each word (separated by spaces, tabs and line breaks) with
/// its first character upper-cased and the rest lower-cased.
pub open spec fn capitalized(s: Seq<char>) -> Seq<char> {
    let (out, word) = capitalize_state(s);
    out + capitalized_word(word)
}

fn capitalize_word(word: &Vec<char>, out: &mut String)
    ensures
        final(out)@ == old(out)@ + capitalized_word(word@),
{
    if word.len() == 0 {
        proof {
            assert(old(out)@ + capitalized_word(word@) =~= old(out)@);
        }
        return;
    }
    let u = char_uppercase(word[0]);
    push_str(out, u.as_str());
    let rest = crate::text::substring(word, 1, word.len());
    proof {
        assert(rest@ =~= word@.skip(1));
    }
    let l = str_lowercase(rest.as_str());
    push_str(out, l.as_str());
    proof {
        assert(final(out)@ =~= old(out)@ + capitalized_word(word@));
    }
}

/// `?capitalize`: each word (separated by spaces, tabs and line breaks) with
/// its first character upper-cased and the rest lower-cased.
pub fn capitalize(s: &str) -> (r: String)
    ensures
        r@ == capitalized(s@),
{
    let cs = chars_of(s);
    let mut out = String::new();
    let mut word: Vec<char> = Vec::new();
    let mut i: usize = 0;
    proof {
        assert(cs@.take(0) =~= Seq::<char>::empty());
        assert(out@ =~= Seq::<char>::empty());
        assert(word@ =~= Seq::<char>::empty());
    }
    while i < cs.len()
        invariant
            i <= cs.len(),
            cs@ == s@,
            capitalize_state(cs@.take(i as int)) == (out@, word@),
        decreases cs.len() - i,
    {
        let c = cs[i];
        proof {
            assert(cs@.take(i as int + 1).drop_last() =~= cs@.take(i as int));
            assert(cs@.take(i as int + 1).last() == c);
        }
        if c == ' ' || c == '\t' || c == '\r' || c == '\n' {
            capitalize_word(&word, &mut out);
            push_char(&mut out, c);
            word = Vec::new();
            proof {
                assert(word@ =~= Seq::<char>::empty());
            }
        } else {
            word.push(c);
        }
        i += 1;
    }
    proof {
        assert(cs@.take(cs.len() as int) =~= cs@);
    }
    capitalize_word(&word, &mut out);
    out
}

/// `?chop_linebreak`: the text without one trailing `\r\n`, `\r` or `\n`.
pub open spec fn chopped(s: Seq<char>) -> Seq<char> {
    if s.len() >= 2 && s[s.len() - 2] == '\r' && s[s.len() - 1] == '\n' {
        s.take(s.len() - 2)
    } else if s.len() >= 1 && (s[s.len() - 1] == '\r' || s[s.len() - 1] == '\n') {
        s.take(s.len() - 1)
    } else {
        s
    }
}

/// `?chop_linebreak`: the text without one trailing `\r\n`, `\r` or `\n`.
pub fn chop_linebreak(s: &str) -> (r: String)
    ensures
        r@ == chopped(s@),
{
    let cs = chars_of(s);
    let n = cs.len();
    let end = if n >= 2 && cs[n - 2] == '\r' && cs[n - 1] == '\n' {
        n - 2
    } else if n >= 1 && (cs[n - 1] == '\r' || cs[n - 1] == '\n') {
        n - 1
    } else {
        n
    };
    let r = crate::text::substring(&cs, 0, end);
    proof {
        assert(r@ =~= chopped(s@));
    }
    r
}

/// The padding of `?left_pad` / `?right_pad`: `dif` code units repeating
/// those of the filling.
pub open spec fn pad_units(filling: Seq<u16>, dif: nat) -> Seq<u16> {
    Seq::new(dif, |i: int| filling[i % (filling.len() as int)])
}

/// `?left_pad(width, filling)` (`left`) or `?right_pad`: the text padded to
/// `width` UTF-16 code units with the filling repeated; a text that long
/// already is unchanged.
pub open spec fn padded_text(s: Seq<char>, width: nat, filling: Seq<char>, left: bool) -> Seq<char> {
    let n = utf16_units(s).len();
    if width <= n {
        s
    } else {
        let p = utf16_decoded(pad_units(utf16_units(filling), (width - n) as nat));
        if left {
            p + s
        } else {
            s + p
        }
    }
}

/// `?left_pad(width, filling)` (`left`) or `?right_pad`: the text padded to
/// `width` UTF-16 code units with the filling repeated.
pub fn pad(s: &str, width: usize, filling: &str, left: bool) -> (r: String)
    requires
        filling@.len() > 0,
    ensures
        r@ == padded_text(s@, width as nat, filling@, left),
{
    let su = crate::text::encode_utf16(s);
    if width <= su.len() {
        return String::from_str(s);
    }
    let fu = crate::text::encode_utf16(filling);
    proof {
        crate::text::lemma_utf16_units_nonempty(filling@);
    }
    let dif = width - su.len();
    let mut p: Vec<u16> = Vec::new();
    let mut i: usize = 0;
    while i < dif
        invariant
            i <= dif,
            fu.len() > 0,
            p@ == Seq::new(i as nat, |j: int| fu@[j % (fu@.len() as int)]),
        decreases dif - i,
    {
        p.push(fu[i % fu.len()]);
        proof {
            assert(Seq::new(i as nat + 1, |j: int| fu@[j % (fu@.len() as int)]) =~= Seq::new(
                i as nat,
                |j: int| fu@[j % (fu@.len() as int)],
            ).push(fu@[i as int % (fu@.len() as int)]));
        }
        i += 1;
    }
    proof {
        assert(p@ =~= pad_units(utf16_units(filling@), dif as nat));
    }
    let ps = utf16_lossy(&p);
    if left {
        let mut r = ps;
        push_str(&mut r, s);
        r
    } else {
        let mut r = String::from_str(s);
        push_str(&mut r, ps.as_str());
        r
    }
}

/// Whether `from` occurs at index `i` of `s` when characters are compared
/// by their lower-case forms.
pub open spec fn ci_match_at(s: Seq<char>, from: Seq<char>, i: int) -> bool {
    &&& 0 <= i
    &&& i + from.len() <= s.len()
    &&& forall|j: int| 0 <= j < from.len() ==> lowercase_first(#[trigger] s[i + j]) == lowercase_first(from[j])
}

/// The text from index `i` on with the occurrences of a non-empty `from`
/// (compared case-insensitively, left to right, not overlapping) replaced by
/// `to`; only the first one when `first_only`.
pub open spec fn replaced_from(s: Seq<char>, from: Seq<char>, to: Seq<char>, i: int, first_only: bool) -> Seq<char>
    decreases s.len() - i,
{
    if i < 0 || i >= s.len() || from.len() == 0 {
        Seq::empty()
    } else if ci_match_at(s, from, i) {
        to + if first_only {
            s.skip(i + from.len())
        } else {
            replaced_from(s, from, to, i + from.len(), first_only)
        }
    } else {
        seq![s[i]] + replaced_from(s, from, to, i + 1, first_only)
    }
}

/// Each character of the text followed by `to`.
pub open spec fn interleaved(s: Seq<char>, to: Seq<char>) -> Seq<char>
    decreases s.len(),
{
    if s.len() == 0 {
        Seq::empty()
    } else {
        interleaved(s.drop_last(), to) + seq![s.last()] + to
    }
}

/// Case-insensitive literal replacement of `from` by `to` (only the first
/// occurrence when `first_only`); an empty `from` matches before every
/// character and at the end.
pub open spec fn replaced_ci(s: Seq<char>, from: Seq<char>, to: Seq<char>, first_only: bool) -> Seq<char> {
    if from.len() == 0 {
        if to.len() == 0 {
            s
        } else if first_only {
            to + s
        } else {
            to + interleaved(s, to)
        }
    } else {
        replaced_from(s, from, to, 0, first_only)
    }
}

fn ci_matches_at(cs: &Vec<char>, fr: &Vec<char>, i: usize) -> (r: bool)
    ensures
        r == ci_match_at(cs@, fr@, i as int),
{
    if i > cs.len() || fr.len() > cs.len() - i {
        return false;
    }
    let mut j: usize = 0;
    while j < fr.len()
        invariant
            j <= fr.len(),
            i + fr.len() <= cs.len(),
            forall|q: int| 0 <= q < j ==> lowercase_first(#[trigger] cs@[i + q]) == lowercase_first(fr@[q]),
        decreases fr.len() - j,
    {
        if char_lowercase_first(cs[i + j]) != char_lowercase_first(fr[j]) {
            return false;
        }
        j += 1;
    }
    true
}

/// Case-insensitive literal replacement of `from` by `to` (only the first
/// occurrence when `first_only`).
pub fn replace_literal_ci(text: &str, from: &str, to: &str, first_only: bool) -> (r: String)
    ensures
        r@ == replaced_ci(text@, from@, to@, first_only),
{
    let cs = chars_of(text);
    let fr = chars_of(from);
    let mut out = String::new();
    if fr.len() == 0 {
        if crate::text::str_eq(to, "") {
            proof {
                reveal_strlit("");
                assert(""@ =~= Seq::<char>::empty());
            }
            return String::from_str(text);
        }
        if first_only {
            push_str(&mut out, to);
            push_str(&mut out, text);
            return out;
        }
        push_str(&mut out, to);
        proof {
            reveal_strlit("");
            assert(""@ =~= Seq::<char>::empty());
            assert(to@.len() > 0);
        }
        let mut i: usize = 0;
        let ghost start = out@;
        proof {
            assert(cs@.take(0) =~= Seq::<char>::empty());
            assert(out@ =~= start + interleaved(cs@.take(0), to@));
        }
        while i < cs.len()
            invariant
                i <= cs.len(),
                to@.len() > 0,
                cs@ == text@,
                start == to@,
                out@ == start + interleaved(cs@.take(i as int), to@),
            decreases cs.len() - i,
        {
            push_char(&mut out, cs[i]);
            push_str(&mut out, to);
            proof {
                assert(cs@.take(i as int + 1).drop_last() =~= cs@.take(i as int));
                assert(out@ =~= start + interleaved(cs@.take(i as int + 1), to@));
            }
            i += 1;
        }
        proof {
            assert(cs@.take(cs.len() as int) =~= cs@);
            assert(to@.len() > 0);
        }
        return out;
    }
    let ghost target = replaced_from(cs@, fr@, to@, 0, first_only);
    let mut i: usize = 0;
    proof {
        assert(out@ + replaced_from(cs@, fr@, to@, 0, first_only) =~= target);
    }
    while i < cs.len()
        invariant
            i <= cs.len(),
            fr.len() > 0,
            cs@ == text@,
            fr@ == from@,
            target == replaced_from(cs@, fr@, to@, 0, first_only),
            out@ + replaced_from(cs@, fr@, to@, i as int, first_only) == target,
        decreases cs.len() - i,
    {
        if ci_matches_at(&cs, &fr, i) {
            push_str(&mut out, to);
            if first_only {
                let rest = crate::text::substring(&cs, i + fr.len(), cs.len());
                push_str(&mut out, rest.as_str());
                proof {
                    assert(rest@ =~= cs@.skip(i + fr.len()));
                    assert(out@ =~= target);
                }
                return out;
            }
            proof {
                assert(out@ + replaced_from(cs@, fr@, to@, (i + fr.len()) as int, first_only) =~= target);
            }
            i = i + fr.len();
        } else {
            push_char(&mut out, cs[i]);
            proof {
                assert(out@ + replaced_from(cs@, fr@, to@, i as int + 1, first_only) =~= target);
            }
            i += 1;
        }
    }
    proof {
        assert(out@ =~= target);
    }
    out
}

/// Message of a `?substring` index below zero.
pub open spec fn index_negative_msg(i: int) -> Seq<char> {
    "The index must be at least 0, but was "@ + crate::text::int_text(i) + "."@
}

/// Message of a `?substring` index past the end.
pub open spec fn index_too_big_msg(len: int, i: int) -> Seq<char> {
    "The index mustn't be greater than the length of the string, "@ + crate::text::int_text(len)
        + ", but it was "@ + crate::text::int_text(i) + "."@
}

/// Message of a `?substring` begin index past its end index.
pub open spec fn begin_after_end_msg(b: int, e: int) -> Seq<char> {
    "The begin index argument, "@ + crate::text::int_text(b)
        + ", shouldn't be greater than the end index argument, "@ + crate::text::int_text(e) + "."@
}

/// Result of `?substring(begin[, end])` (character indices): the indices
/// must lie within the string, begin not after end.
pub open spec fn substring_result(s: Seq<char>, begin: int, end: Option<int>) -> Result<Seq<char>, Seq<char>> {
    let len = s.len() as int;
    if begin < 0 {
        Err(index_negative_msg(begin))
    } else if begin > len {
        Err(index_too_big_msg(len, begin))
    } else {
        match end {
            None => Ok(s.subrange(begin, len)),
            Some(e) => if e < 0 {
                Err(index_negative_msg(e))
            } else if e > len {
                Err(index_too_big_msg(len, e))
            } else if begin > e {
                Err(begin_after_end_msg(begin, e))
            } else {
                Ok(s.subrange(begin, e))
            },
        }
    }
}

fn index_error(prefix: &str, i: i64) -> (e: TemplateError)
    ensures
        is_misc(e, prefix@ + crate::text::int_text(i as int) + "."@),
{
    let mut m = String::from_str(prefix);
    let t = crate::text::i64_text(i);
    push_str(&mut m, t.as_str());
    push_str(&mut m, ".");
    TemplateError::misc(m)
}

fn too_big_error(len: usize, i: i64) -> (e: TemplateError)
    ensures
        is_misc(e, index_too_big_msg(len as int, i as int)),
{
    let mut m = String::from_str("The index mustn't be greater than the length of the string, ");
    let t = crate::text::usize_text(len);
    push_str(&mut m, t.as_str());
    push_str(&mut m, ", but it was ");
    let u = crate::text::i64_text(i);
    push_str(&mut m, u.as_str());
    push_str(&mut m, ".");
    TemplateError::misc(m)
}

/// `?substring(begin[, end])`, with character indices.
pub fn substring_builtin(s: &str, begin: i64, end: Option<i64>) -> (r: Result<String, TemplateError>)
    ensures
        match substring_result(
            s@,
            begin as int,
            match end {
                Some(e) => Some(e as int),
                None => None,
            },
        ) {
            Ok(t) => r matches Ok(x) && x@ == t,
            Err(m) => r matches Err(e) && is_misc(e, m),
        },
{
    let cs = chars_of(s);
    let len = cs.len();
    if begin < 0 {
        return Err(index_error("The index must be at least 0, but was ", begin));
    }
    if (begin as u64) > (len as u64) {
        return Err(too_big_error(len, begin));
    }
    let b = begin as usize;
    match end {
        None => Ok(crate::text::substring(&cs, b, len)),
        Some(e) => {
            if e < 0 {
                return Err(index_error("The index must be at least 0, but was ", e));
            }
            if (e as u64) > (len as u64) {
                return Err(too_big_error(len, e));
            }
            if begin > e {
                let mut m = String::from_str("The begin index argument, ");
                let t = crate::text::i64_text(begin);
                push_str(&mut m, t.as_str());
                push_str(&mut m, ", shouldn't be greater than the end index argument, ");
                let u = crate::text::i64_text(e);
                push_str(&mut m, u.as_str());
                push_str(&mut m, ".");
                return Err(TemplateError::misc(m));
            }
            Ok(crate::text::substring(&cs, b, e as usize))
        },
    }
}

/// `?length` of a string: its number of UTF-16 code units.
pub fn length(s: &str) -> (r: usize)
    ensures
        r == utf16_units(s@).len(),
{
    let u = crate::text::encode_utf16(s);
    u.len()
}

/// Whether `sub` occurs in `s` at character index `i`.
pub open spec fn occurs_at_index(s: Seq<char>, sub: Seq<char>, i: int) -> bool {
    0 <= i && i + sub.len() <= s.len() && s.subrange(i, i + sub.len()) == sub
}

/// Result of `?index_of(sub[, from])`: the first character index at or
/// after `from` (negative counts as 0) where `sub` occurs, or -1.
pub open spec fn index_of_result(s: Seq<char>, sub: Seq<char>, from: int) -> int {
    let start = if from < 0 {
        0
    } else {
        from
    };
    if exists|i: int| start <= i && occurs_at_index(s, sub, i) {
        choose|i: int|
            start <= i && occurs_at_index(s, sub, i) && forall|j: int|
                start <= j < i ==> !occurs_at_index(s, sub, j)
    } else {
        -1
    }
}

/// `?index_of(sub[, from])` on a string: the first character index at or
/// after `from` where `sub` occurs, or -1.
pub fn index_of(s: &str, sub: &str, from: i64) -> (r: i64)
    requires
        s@.len() < i64::MAX,
    ensures
        r == index_of_result(s@, sub@, from as int),
{
    let cs = chars_of(s);
    let ps = chars_of(sub);
    let start: usize = if from < 0 {
        0
    } else if (from as u64) > (cs.len() as u64) {
        proof {
            assert(forall|i: int| from <= i ==> !occurs_at_index(s@, sub@, i));
        }
        return -1;
    } else {
        from as usize
    };
    let mut i: usize = start;
    loop
        invariant
            start <= i <= cs.len(),
            cs@ == s@,
            ps@ == sub@,
            cs.len() < i64::MAX,
            start as int == (if from < 0 {
                0
            } else {
                from as int
            }),
            forall|j: int| start <= j < i ==> !occurs_at_index(s@, sub@, j),
        ensures
            forall|j: int| start <= j <= cs.len() ==> !occurs_at_index(s@, sub@, j),
        decreases cs.len() - i,
    {
        if crate::text::occurs_at(&cs, i, &ps) {
            proof {
                assert(occurs_at_index(s@, sub@, i as int));
                let c = choose|k: int|
                    start <= k && occurs_at_index(s@, sub@, k) && forall|j: int|
                        start <= j < k ==> !occurs_at_index(s@, sub@, j);
                if c < i {
                } else if c > i {
                    assert(!occurs_at_index(s@, sub@, i as int));
                }
                assert(c == i);
            }
            return i as i64;
        }
        if i == cs.len() {
            break;
        }
        i += 1;
    }
    proof {
        assert forall|k: int| start <= k implies !occurs_at_index(s@, sub@, k) by {
            if k > cs.len() {
            }
        }
    }
    -1
}

/// The language part of a locale name: what comes before the first `_` or
/// `-`.
pub open spec fn locale_language(locale: Seq<char>) -> Seq<char>
    decreases locale.len(),
{
    if locale.len() == 0 || locale[0] == '_' || locale[0] == '-' {
        Seq::empty()
    } else {
        seq![locale[0]] + locale_language(locale.skip(1))
    }
}

/// Whether a locale is Turkish or Azerbaijani, whose dotted and dotless `i`
/// change case by rules of their own.
pub open spec fn is_turkic(locale: Seq<char>) -> bool {
    let lang = locale_language(locale);
    lang == seq!['t', 'r'] || lang == seq!['a', 'z']
}

/// Upper case by the Turkic rules: `i` becomes `İ` (U+0130), but an `i`
/// followed by a combining dot above (U+0307) stays `i` and loses the dot;
/// every other character takes its Unicode upper-case mapping.
pub open spec fn turkic_upper(s: Seq<char>) -> Seq<char>
    decreases s.len(),
{
    if s.len() == 0 {
        Seq::empty()
    } else if s[0] == 'i' && s.len() > 1 && s[1] == '\u{0307}' {
        seq!['i'] + turkic_upper(s.skip(2))
    } else if s[0] == 'i' {
        seq!['\u{0130}'] + turkic_upper(s.skip(1))
    } else {
        uppercase_of(s[0]) + turkic_upper(s.skip(1))
    }
}

/// Lower case by the Turkic rules: `I` becomes `ı` (U+0131), but an `I`
/// followed by a combining dot above becomes `i` with the dot kept once;
/// every other character takes its Unicode lower-case mapping.
pub open spec fn turkic_lower(s: Seq<char>) -> Seq<char>
    decreases s.len(),
{
    if s.len() == 0 {
        Seq::empty()
    } else if s[0] == 'I' && s.len() > 1 && s[1] == '\u{0307}' {
        seq!['i', '\u{0307}'] + turkic_lower(s.skip(2))
    } else if s[0] == 'I' {
        seq!['\u{0131}'] + turkic_lower(s.skip(1))
    } else {
        lowercase_of(seq![s[0]]) + turkic_lower(s.skip(1))
    }
}

/// The text in upper or lower case for a locale: the Turkic rules for
/// Turkish and Azerbaijani, the Unicode default mapping otherwise.
pub open spec fn locale_cased(s: Seq<char>, locale: Seq<char>, upper: bool) -> Seq<char> {
    if !is_turkic(locale) {
        if upper {
            crate::output_encoding::upper_text(s)
        } else {
            lowercase_of(s)
        }
    } else if upper {
        turkic_upper(s)
    } else {
        turkic_lower(s)
    }
}

/// The Turkic case mapping chosen by `upper`.
pub open spec fn turkic_case(s: Seq<char>, upper: bool) -> Seq<char> {
    if upper {
        turkic_upper(s)
    } else {
        turkic_lower(s)
    }
}

/// Whether the locale's language is Turkish or Azerbaijani.
fn turkic_locale(locale: &str) -> (r: bool)
    ensures
        r == is_turkic(locale@),
{
    let cs = chars_of(locale);
    let mut lang: Vec<char> = Vec::new();
    let mut i: usize = 0;
    proof {
        assert(lang@ + locale_language(cs@.skip(0)) =~= locale_language(cs@)) by {
            assert(cs@.skip(0) =~= cs@);
        }
    }
    while i < cs.len() && cs[i] != '_' && cs[i] != '-'
        invariant
            i <= cs.len(),
            cs@ == locale@,
            lang@ + locale_language(cs@.skip(i as int)) == locale_language(cs@),
        decreases cs.len() - i,
    {
        let ghost before = lang@;
        lang.push(cs[i]);
        proof {
            let t = cs@.skip(i as int);
            assert(t.skip(1) =~= cs@.skip(i as int + 1));
            assert(before + (seq![t[0]] + locale_language(t.skip(1))) =~= lang@ + locale_language(
                cs@.skip(i as int + 1),
            ));
        }
        i += 1;
    }
    proof {
        assert(locale_language(cs@.skip(i as int)) =~= Seq::<char>::empty());
        assert(lang@ + Seq::<char>::empty() =~= lang@);
    }
    if lang.len() != 2 {
        proof {
            assert(seq!['t', 'r'].len() == 2);
            assert(seq!['a', 'z'].len() == 2);
        }
        return false;
    }
    proof {
        assert(lang@ =~= seq![lang@[0], lang@[1]]);
        assert(seq!['t', 'r'][0] == 't' && seq!['t', 'r'][1] == 'r');
        assert(seq!['a', 'z'][0] == 'a' && seq!['a', 'z'][1] == 'z');
    }
    (lang[0] == 't' && lang[1] == 'r') || (lang[0] == 'a' && lang[1] == 'z')
}

/// `char::to_lowercase` of one character, through the lower-case mapping
/// of the one-character text.
fn char_lowercase(c: char) -> (r: String)
    ensures
        r@ == lowercase_of(seq![c]),
{
    let mut one = String::new();
    push_char(&mut one, c);
    proof {
        assert(one@ =~= seq![c]);
    }
    str_lowercase(one.as_str())
}

/// `?upper_case` / `?lower_case` on a text for a locale: the Turkic rules
/// for Turkish (`tr`) and Azerbaijani (`az`) locales, the Unicode default
/// mapping for every other locale.
pub fn locale_case(s: &str, locale: &str, upper: bool) -> (r: String)
    ensures
        r@ == locale_cased(s@, locale@, upper),
{
    if !turkic_locale(locale) {
        return if upper {
            crate::output_encoding::str_uppercase(s)
        } else {
            str_lowercase(s)
        };
    }
    let cs = chars_of(s);
    let mut out = String::new();
    let mut i: usize = 0;
    proof {
        assert(cs@.skip(0) =~= cs@);
        assert(out@ + turkic_case(cs@, upper) =~= turkic_case(cs@, upper));
    }
    while i < cs.len()
        invariant
            i <= cs.len(),
            cs@ == s@,
            out@ + turkic_case(cs@.skip(i as int), upper) == turkic_case(cs@, upper),
        decreases cs.len() - i,
    {
        let ghost before = out@;
        let ghost t = cs@.skip(i as int);
        let c = cs[i];
        let dot = i + 1 < cs.len() && cs[i + 1] == '\u{0307}';
        proof {
            assert(t.skip(1) =~= cs@.skip(i as int + 1));
            if dot {
                assert(t.skip(2) =~= cs@.skip(i as int + 2));
            }
        }
        let ghost piece: Seq<char>;
        if upper && c == 'i' && dot {
            push_char(&mut out, 'i');
            proof { piece = seq!['i']; }
            i += 2;
        } else if upper && c == 'i' {
            push_char(&mut out, '\u{0130}');
            proof { piece = seq!['\u{0130}']; }
            i += 1;
        } else if upper {
            let u = char_uppercase(c);
            push_str(&mut out, u.as_str());
            proof { piece = u@; }
            i += 1;
        } else if c == 'I' && dot {
            push_char(&mut out, 'i');
            push_char(&mut out, '\u{0307}');
            proof { piece = seq!['i', '\u{0307}']; }
            i += 2;
        } else if c == 'I' {
            push_char(&mut out, '\u{0131}');
            proof { piece = seq!['\u{0131}']; }
            i += 1;
        } else {
            let l = char_lowercase(c);
            push_str(&mut out, l.as_str());
            proof { piece = l@; }
            i += 1;
        }
        proof {
            assert(out@ =~= before + piece);
            assert(turkic_case(t, upper) == piece + turkic_case(cs@.skip(i as int), upper));
            assert(before + (piece + turkic_case(cs@.skip(i as int), upper)) =~= out@ + turkic_case(
                cs@.skip(i as int),
                upper,
            ));
        }
    }
    proof {
        assert(cs@.skip(i as int) =~= Seq::<char>::empty());
        assert(out@ + Seq::<char>::empty() =~= out@);
    }
    out
}

} // verus!
