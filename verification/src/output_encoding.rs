//! Re-encoding the finished output (kept as UTF-8) into the output
//! encoding: ISO-8859-1 and the UTF-16 forms directly, any other encoding
//! known by its label through `encoding_rs`.
use vstd::prelude::*;
use crate::error::{is_misc, TemplateError};
use crate::output_format::{ascii_upper, eq_ignore_ascii_case};
use crate::text::{contains_seq, utf16_units};

verus! {

/// The text that bytes decode to as UTF-8, or none when they are not valid
/// UTF-8 (`std::str::from_utf8`); a function of the bytes alone.
pub uninterp spec fn utf8_decoded(bytes: Seq<u8>) -> Option<Seq<char>>;

/// The upper-case form of a text (`str::to_uppercase`); a function of the
/// text alone.
pub uninterp spec fn upper_text(s: Seq<char>) -> Seq<char>;

/// Whether `encoding_rs` knows an encoding by this label
/// (`Encoding::for_label`); a function of the label alone.
pub uninterp spec fn label_known(label: Seq<char>) -> bool;

/// The bytes that `encoding_rs` makes of a text in the encoding known by
/// a label (`Encoding::for_label`, then `Encoding::encode`); a function of
/// the label and the text alone.
pub uninterp spec fn label_encoded(label: Seq<char>, text: Seq<char>) -> Seq<u8>;

/// `std::str::from_utf8`: the text that the bytes are, when they are valid
/// UTF-8 (each character taking at least one byte).
#[verifier::external_body]
fn utf8_text(bytes: &[u8]) -> (r: Option<&str>)
    ensures
        match r {
            Some(s) => utf8_decoded(bytes@) == Some(s@) && s@.len() <= bytes@.len(),
            None => utf8_decoded(bytes@) is None,
        },
{
    match std::str::from_utf8(bytes) {
        Ok(s) => Some(s),
        Err(_) => None,
    }
}

/// `str::to_uppercase`.  The Unicode table is not restated; for ASCII input
/// the result is the ASCII upper-case form, as the standard library
/// documents.
#[verifier::external_body]
pub(crate) fn str_uppercase(s: &str) -> (r: String)
    ensures
        r@ == upper_text(s@),
        (forall|i: int| 0 <= i < s@.len() ==> (#[trigger] s@[i] as u32) < 128) ==> r@ == s@.map_values(
            |c: char| ascii_upper(c),
        ),
{
    s.to_uppercase()
}

/// `encoding_rs::Encoding::for_label` on the bytes of a label, then
/// `Encoding::encode` of the text in the encoding found: an encoding is found
/// exactly when the label is known, and the bytes (characters the encoding
/// cannot hold become numeric character references) are a function of the
/// label and the text.  The encoding value itself is opaque, so the two
/// calls stand together.  The encoder panics when its buffer size overflows
/// `usize`, which the bound on the text's length rules out.
#[verifier::external_body]
fn encode_by_label(label: &str, text: &str) -> (r: Option<Vec<u8>>)
    requires
        text@.len() <= usize::MAX / 64,
    ensures
        r is Some <==> label_known(label@),
        r matches Some(b) ==> b@ == label_encoded(label@, text@),
{
    encoding_rs::Encoding::for_label(label.as_bytes()).map(|enc| enc.encode(text).0.into_owned())
}

/// Bytes of a text in ISO-8859-1: code points up to 0xFF as one byte,
/// others as `?`.
pub open spec fn latin1_bytes(s: Seq<char>) -> Seq<u8> {
    Seq::new(s.len(), |i: int| if (s[i] as u32) <= 0xFF { s[i] as u32 as u8 } else { 63u8 })
}

/// Bytes of UTF-16 code units, each high byte first (big-endian) or low
/// byte first (little-endian).
pub open spec fn unit_bytes(units: Seq<u16>, le: bool) -> Seq<u8> {
    Seq::new(
        2 * units.len(),
        |i: int|
            if (i % 2 == 0) != le {
                (units[i / 2] / 256) as u8
            } else {
                (units[i / 2] % 256) as u8
            },
    )
}

/// The outcome of re-encoding: bytes stated here, bytes that `encoding_rs`
/// makes of the text, or an error message.
pub enum Transcoding {
    Bytes(Seq<u8>),
    ByLabel(Seq<char>),
    Failed(Seq<char>),
}

/// The bytes of a text in the encodings written here: ISO-8859-1 (the name
/// compared ignoring ASCII case); any name whose upper-case form `up`
/// contains `UTF-16` as UTF-16, little-endian when it contains `LE`, else
/// big-endian, with a byte-order mark when it names neither.
pub open spec fn direct_bytes(s: Seq<char>, encoding: Seq<char>, up: Seq<char>) -> Option<Seq<u8>> {
    if eq_ignore_ascii_case(encoding, "ISO-8859-1"@) {
        Some(latin1_bytes(s))
    } else if contains_seq(up, "UTF-16"@) {
        let le = contains_seq(up, "LE"@);
        let bom: Seq<u8> = if !contains_seq(up, "BE"@) && !le {
            seq![0xFEu8, 0xFFu8]
        } else {
            Seq::empty()
        };
        Some(bom + unit_bytes(utf16_units(s), le))
    } else {
        None
    }
}

/// Re-encoding UTF-8 output into the named encoding: the encodings written
/// here (see `direct_bytes`), else an encoding known by its label, else an
/// error.
pub open spec fn transcoding(utf8: Seq<u8>, encoding: Seq<char>) -> Transcoding {
    match utf8_decoded(utf8) {
        None => Transcoding::Failed("Internal output is not valid UTF-8"@),
        Some(s) => match direct_bytes(s, encoding, upper_text(encoding)) {
            Some(b) => Transcoding::Bytes(b),
            None => if label_known(encoding) {
                Transcoding::ByLabel(s)
            } else {
                Transcoding::Failed("Unknown output encoding: \""@ + encoding + "\""@)
            },
        },
    }
}

/// Re-encodes UTF-8 output into the named encoding (see `transcoding`).
pub fn transcode_output(utf8: &[u8], encoding_name: &str) -> (r: Result<Vec<u8>, TemplateError>)
    requires
        utf8@.len() <= usize::MAX / 64,
    ensures
        match transcoding(utf8@, encoding_name@) {
            Transcoding::Bytes(b) => r matches Ok(v) && v@ == b,
            Transcoding::ByLabel(t) => r matches Ok(v) && v@ == label_encoded(encoding_name@, t),
            Transcoding::Failed(m) => r matches Err(e) && is_misc(e, m),
        },
{
    let s = match utf8_text(utf8) {
        Some(s) => s,
        None => {
            return Err(TemplateError::misc(String::from_str("Internal output is not valid UTF-8")));
        },
    };
    let up = str_uppercase(encoding_name);
    if let Some(b) = encode_direct(s, encoding_name, up.as_str()) {
        return Ok(b);
    }
    match encode_by_label(encoding_name, s) {
        Some(b) => Ok(b),
        None => {
            let mut m = String::from_str("Unknown output encoding: \"");
            crate::text::push_str(&mut m, encoding_name);
            crate::text::push_str(&mut m, "\"");
            Err(TemplateError::misc(m))
        },
    }
}

/// The bytes of a text in the encodings written here, given the encoding's
/// name and its upper-case form (see `direct_bytes`).
pub fn encode_direct(s: &str, encoding_name: &str, up: &str) -> (r: Option<Vec<u8>>)
    ensures
        match direct_bytes(s@, encoding_name@, up@) {
            Some(b) => r matches Some(v) && v@ == b,
            None => r is None,
        },
{
    let cs = crate::text::chars_of(s);
    let name = crate::text::chars_of(encoding_name);
    if crate::output_format::range_eq_ignore_case(&name, 0, name.len(), "ISO-8859-1") {
        proof {
            assert(name@.subrange(0, name@.len() as int) =~= encoding_name@);
        }
        let mut out: Vec<u8> = Vec::new();
        let mut i: usize = 0;
        while i < cs.len()
            invariant
                i <= cs@.len(),
                out@ == latin1_bytes(cs@.take(i as int)),
            decreases cs.len() - i,
        {
            let c = cs[i];
            let b: u8 = if (c as u32) <= 0xFF {
                c as u32 as u8
            } else {
                63u8
            };
            out.push(b);
            proof {
                assert(latin1_bytes(cs@.take(i as int + 1)) =~= latin1_bytes(cs@.take(i as int)).push(b));
            }
            i += 1;
        }
        proof {
            assert(cs@.take(i as int) =~= cs@);
        }
        return Some(out);
    }
    proof {
        assert(name@.subrange(0, name@.len() as int) =~= encoding_name@);
    }
    if crate::text::contains_str(up, "UTF-16") {
        let le = crate::text::contains_str(up, "LE");
        let be = crate::text::contains_str(up, "BE");
        let mut out: Vec<u8> = Vec::new();
        if !be && !le {
            out.push(0xFEu8);
            out.push(0xFFu8);
        }
        let ghost bom = out@;
        let units = crate::text::encode_utf16(s);
        let mut i: usize = 0;
        proof {
            assert(unit_bytes(units@.take(0), le) =~= Seq::<u8>::empty());
            assert(bom + unit_bytes(units@.take(0), le) =~= bom);
        }
        while i < units.len()
            invariant
                i <= units@.len(),
                out@ == bom + unit_bytes(units@.take(i as int), le),
            decreases units.len() - i,
        {
            let u = units[i];
            let hi: u8 = (u / 256) as u8;
            let lo: u8 = (u % 256) as u8;
            if le {
                out.push(lo);
                out.push(hi);
            } else {
                out.push(hi);
                out.push(lo);
            }
            proof {
                let prev = unit_bytes(units@.take(i as int), le);
                let next = unit_bytes(units@.take(i as int + 1), le);
                assert forall|k: int| 0 <= k < prev.len() implies next[k] == prev[k] by {
                    assert(units@.take(i as int + 1)[k / 2] == units@.take(i as int)[k / 2]);
                }
                assert(next.len() == prev.len() + 2);
                assert(units@.take(i as int + 1)[(prev.len() as int) / 2] == u);
                assert(units@.take(i as int + 1)[(prev.len() as int + 1) / 2] == u);
                if le {
                    assert(next =~= prev.push(lo).push(hi));
                } else {
                    assert(next =~= prev.push(hi).push(lo));
                }
            }
            i += 1;
        }
        proof {
            assert(units@.take(i as int) =~= units@);
        }
        return Some(out);
    }
    None
}

} // verus!
