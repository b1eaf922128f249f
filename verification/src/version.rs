//! Version numbers (`major.minor.micro`), as used by the
//! `incompatible_improvements` setting.
use vstd::prelude::*;

verus! {

/// A version number `major.minor.micro`.
#[derive(Debug, Clone, Copy, PartialEq, Eq, Structural)]
pub struct Version {
    pub major: u32,
    pub minor: u32,
    pub micro: u32,
}

/// Whether a character is an ASCII digit.
pub open spec fn is_digit(c: char) -> bool {
    '0' <= c <= '9'
}

/// The value of a sequence of decimal digits.
pub open spec fn digits_value(s: Seq<char>) -> int
    decreases s.len(),
{
    if s.len() == 0 {
        0
    } else {
        digits_value(s.drop_last()) * 10 + (s.last() as int - '0' as int)
    }
}

/// The number a component of a version holds: one or more decimal digits
/// whose value fits in 32 bits.
pub open spec fn component(s: Seq<char>) -> Option<u32> {
    if s.len() > 0 && (forall|i: int| 0 <= i < s.len() ==> is_digit(#[trigger] s[i])) && digits_value(s)
        <= u32::MAX {
        Some(digits_value(s) as u32)
    } else {
        None
    }
}

/// The version a text denotes: three components separated by dots.
pub open spec fn parse_version(s: Seq<char>) -> Option<Version> {
    let parts = crate::text::split_on(s, '.');
    if parts.len() != 3 {
        None
    } else {
        match (component(parts[0]), component(parts[1]), component(parts[2])) {
            (Some(a), Some(b), Some(c)) => Some(Version { major: a, minor: b, micro: c }),
            _ => None,
        }
    }
}

/// The number of a component, when it is one.
fn parse_component(s: &String) -> (r: Option<u32>)
    ensures
        r == component(s@),
{
    let cs = crate::text::chars_of(s.as_str());
    if cs.len() == 0 {
        return None;
    }
    let mut v: u64 = 0;
    let mut i: usize = 0;
    while i < cs.len()
        invariant
            i <= cs.len(),
            cs@ == s@,
            cs.len() > 0,
            v == digits_value(cs@.take(i as int)),
            v <= u32::MAX,
            forall|j: int| 0 <= j < i ==> is_digit(#[trigger] cs@[j]),
        decreases cs.len() - i,
    {
        let c = cs[i];
        if !('0' <= c && c <= '9') {
            return None;
        }
        proof {
            assert(cs@.take(i as int + 1).drop_last() =~= cs@.take(i as int));
        }
        let d: u64 = (c as u32 - '0' as u32) as u64;
        let nv: u64 = v * 10 + d;
        if nv > 4294967295 {
            proof {
                if forall|j: int| 0 <= j < cs.len() ==> is_digit(#[trigger] cs@[j]) {
                    lemma_digits_value_grows(cs@, i as int + 1);
                }
            }
            return None;
        }
        v = nv;
        i += 1;
    }
    proof {
        assert(cs@.take(cs.len() as int) =~= cs@);
    }
    Some(v as u32)
}

/// The value of digits is at least that of any prefix of them.
pub proof fn lemma_digits_value_grows(s: Seq<char>, k: int)
    requires
        0 <= k <= s.len(),
        forall|i: int| 0 <= i < s.len() ==> is_digit(#[trigger] s[i]),
    ensures
        digits_value(s) >= digits_value(s.take(k)),
        digits_value(s.take(k)) >= 0,
    decreases s.len() - k,
{
    lemma_digits_value_nonneg(s.take(k));
    if k < s.len() {
        lemma_digits_value_grows(s, k + 1);
        assert(s.take(k + 1).drop_last() =~= s.take(k));
        assert(is_digit(s[k]));
        assert(s.take(k + 1).last() == s[k]);
    } else {
        assert(s.take(k) =~= s);
    }
}

/// The value of digits is not negative.
pub proof fn lemma_digits_value_nonneg(s: Seq<char>)
    requires
        forall|i: int| 0 <= i < s.len() ==> is_digit(#[trigger] s[i]),
    ensures
        digits_value(s) >= 0,
    decreases s.len(),
{
    if s.len() > 0 {
        lemma_digits_value_nonneg(s.drop_last());
        assert(is_digit(s[s.len() - 1]));
    }
}

impl Version {
    /// Version 2.3.34, the current level of incompatible improvements.
    pub fn v2_3_34() -> (r: Version)
        ensures
            r == (Version { major: 2, minor: 3, micro: 34 }),
    {
        Version { major: 2, minor: 3, micro: 34 }
    }

    /// The version a text `major.minor.micro` denotes.
    pub fn parse(s: &str) -> (r: Option<Version>)
        ensures
            r == parse_version(s@),
    {
        let parts = crate::text::split_char(s, '.');
        if parts.len() != 3 {
            return None;
        }
        let a = parse_component(&parts[0]);
        let b = parse_component(&parts[1]);
        let c = parse_component(&parts[2]);
        match (a, b, c) {
            (Some(a), Some(b), Some(c)) => Some(Version { major: a, minor: b, micro: c }),
            _ => None,
        }
    }

    /// The version as one number: `major * 1000000 + minor * 1000 + micro`.
    pub fn to_int(&self) -> (r: u64)
        ensures
            r == self.major * 1000000 + self.minor * 1000 + self.micro,
    {
        self.major as u64 * 1000000 + self.minor as u64 * 1000 + self.micro as u64
    }
}

} // verus!
