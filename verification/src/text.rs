use vstd::prelude::*;

verus! {

/// Appends one character to a string (`String::push`).
#[verifier::external_body]
pub(crate) fn push_char(s: &mut String, c: char)
    ensures
        final(s)@ == old(s)@.push(c),
{
    s.push(c);
}

/// The characters of a string slice, in order.
pub fn chars_of(s: &str) -> (res: Vec<char>)
    ensures
        res@ == s@,
{
    let mut res: Vec<char> = Vec::new();
    for c in it: s.chars()
        invariant
            res@ == it.seq().take(it.index() as int),
    {
        res.push(c);
    }
    res
}

} // verus!

verus! {

/// The UTF-16 code units of one character (one unit inside the Basic
/// Multilingual Plane, a surrogate pair above it).
pub open spec fn char_utf16(c: char) -> Seq<u16> {
    let v = c as u32;
    if v < 0x10000 {
        seq![v as u16]
    } else {
        let w = (v - 0x10000) as u32;
        seq![(0xD800 + w / 0x400) as u16, (0xDC00 + w % 0x400) as u16]
    }
}

/// The UTF-16 encoding of a character sequence (the units that template
/// strings are measured and compared in).
pub open spec fn utf16_units(s: Seq<char>) -> Seq<u16>
    decreases s.len(),
{
    if s.len() == 0 {
        Seq::empty()
    } else {
        utf16_units(s.drop_last()) + char_utf16(s.last())
    }
}

/// A non-empty text has at least one UTF-16 code unit.
pub proof fn lemma_utf16_units_nonempty(s: Seq<char>)
    requires
        s.len() > 0,
    ensures
        utf16_units(s).len() > 0,
{
    assert(char_utf16(s.last()).len() > 0);
}

/// Lexicographic order of two code-unit sequences (a proper prefix sorts first).
pub open spec fn units_order(a: Seq<u16>, b: Seq<u16>) -> std::cmp::Ordering
    decreases a.len(),
{
    if a.len() == 0 {
        if b.len() == 0 { std::cmp::Ordering::Equal } else { std::cmp::Ordering::Less }
    } else if b.len() == 0 {
        std::cmp::Ordering::Greater
    } else if a[0] < b[0] {
        std::cmp::Ordering::Less
    } else if a[0] > b[0] {
        std::cmp::Ordering::Greater
    } else {
        units_order(a.drop_first(), b.drop_first())
    }
}

/// The UTF-16 code units of one character.
pub fn encode_char_utf16(c: char, out: &mut Vec<u16>)
    ensures
        final(out)@ == old(out)@ + char_utf16(c),
{
    let v: u32 = c as u32;
    if v < 0x10000 {
        out.push(v as u16);
        assert(out@ == old(out)@ + char_utf16(c));
    } else {
        let w: u32 = v - 0x10000;
        assert(w / 0x400 < 0x400) by {
            assert(v <= 0x10FFFF);
        }
        out.push((0xD800 + w / 0x400) as u16);
        out.push((0xDC00 + w % 0x400) as u16);
        assert(out@ == old(out)@ + char_utf16(c));
    }
}

/// The UTF-16 encoding of a string.
pub fn encode_utf16(s: &str) -> (res: Vec<u16>)
    ensures
        res@ == utf16_units(s@),
{
    let chars = chars_of(s);
    let mut res: Vec<u16> = Vec::new();
    let mut i: usize = 0;
    while i < chars.len()
        invariant
            chars@ == s@,
            i <= chars.len(),
            res@ == utf16_units(s@.take(i as int)),
        decreases chars.len() - i,
    {
        encode_char_utf16(chars[i], &mut res);
        assert(s@.take(i as int + 1).drop_last() == s@.take(i as int));
        i += 1;
    }
    assert(s@.take(i as int) == s@);
    res
}

/// The code units from index `i` on.
pub open spec fn units_from(s: Seq<u16>, i: usize) -> Seq<u16> {
    s.skip(i as int)
}

pub proof fn lemma_units_from_step(s: Seq<u16>, i: usize)
    requires
        i < s.len(),
        i < usize::MAX,
    ensures
        units_from(s, i).len() > 0,
        units_from(s, i)[0] == s[i as int],
        units_from(s, i).drop_first() == units_from(s, (i + 1) as usize),
{
    assert(units_from(s, i).drop_first() =~= units_from(s, (i + 1) as usize));
}

pub proof fn lemma_units_from_zero(s: Seq<u16>)
    ensures
        units_from(s, 0) == s,
{
    assert(units_from(s, 0) =~= s);
}

/// Lexicographic comparison of two code-unit sequences.
pub fn compare_units(a: &Vec<u16>, b: &Vec<u16>) -> (res: std::cmp::Ordering)
    ensures
        res == units_order(a@, b@),
{
    let mut i: usize = 0;
    proof {
        lemma_units_from_zero(a@);
        lemma_units_from_zero(b@);
    }
    while i < a.len() && i < b.len()
        invariant
            i <= a.len(),
            i <= b.len(),
            units_order(a@, b@) == units_order(units_from(a@, i), units_from(b@, i)),
        decreases a.len() - i,
    {
        proof {
            lemma_units_from_step(a@, i);
            lemma_units_from_step(b@, i);
        }
        if a[i] < b[i] {
            return std::cmp::Ordering::Less;
        }
        if a[i] > b[i] {
            return std::cmp::Ordering::Greater;
        }
        i += 1;
    }
    if i < a.len() {
        proof { lemma_units_from_step(a@, i); }
        std::cmp::Ordering::Greater
    } else if i < b.len() {
        proof { lemma_units_from_step(b@, i); }
        std::cmp::Ordering::Less
    } else {
        assert(units_from(a@, i).len() == 0);
        assert(units_from(b@, i).len() == 0);
        std::cmp::Ordering::Equal
    }
}

/// Lexicographic order of UTF-16 code units.
pub fn utf16_cmp(a: &str, b: &str) -> (res: std::cmp::Ordering)
    ensures
        res == units_order(utf16_units(a@), utf16_units(b@)),
{
    let au = encode_utf16(a);
    let bu = encode_utf16(b);
    compare_units(&au, &bu)
}

} // verus!

verus! {

/// Lower-case form of an ASCII character (others unchanged).
pub open spec fn ascii_lower(c: char) -> char {
    if 'A' <= c <= 'Z' {
        ((c as u32) + 32) as char
    } else {
        c
    }
}

/// First character of the Unicode lower-case mapping of `c`
/// (`char::to_lowercase`); a function of `c` alone.
pub uninterp spec fn lowercase_first(c: char) -> char;

/// Whether `c` has the Unicode `Lowercase` property (`char::is_lowercase`).
pub uninterp spec fn is_lowercase_char(c: char) -> bool;

/// `char::to_lowercase`, first character of the mapping.  The Unicode table
/// is not restated; for ASCII input the result is the ASCII lower-case form,
/// as the standard library documents.
#[verifier::external_body]
pub(crate) fn char_lowercase_first(c: char) -> (r: char)
    ensures
        r == lowercase_first(c),
        (c as u32) < 128 ==> r == ascii_lower(c),
{
    c.to_lowercase().next().unwrap_or(c)
}

/// `char::is_lowercase`.  The Unicode property table is not restated; for
/// ASCII input it holds exactly of `a`..`z`.
#[verifier::external_body]
pub(crate) fn char_is_lowercase(c: char) -> (r: bool)
    ensures
        r == is_lowercase_char(c),
        (c as u32) < 128 ==> (r <==> 'a' <= c <= 'z'),
{
    c.is_lowercase()
}

/// Whether a UTF-16 code unit is a surrogate (not a character on its own).
pub open spec fn is_surrogate(u: u16) -> bool {
    0xD800 <= u <= 0xDFFF
}

/// The character whose scalar value is `u` (meaningful when `u` is no surrogate).
pub open spec fn unit_char(u: u16) -> char {
    u as char
}

/// `char::from_u32` on a UTF-16 code unit: `None` exactly for surrogates.
#[verifier::external_body]
pub(crate) fn char_from_unit(u: u16) -> (r: Option<char>)
    ensures
        r is Some <==> !is_surrogate(u),
        r matches Some(c) ==> c == unit_char(u) && c as u32 == u as u32,
{
    char::from_u32(u as u32)
}

} // verus!

verus! {

/// Whether two strings hold the same characters.
pub fn str_eq(a: &str, b: &str) -> (r: bool)
    ensures
        r == (a@ == b@),
{
    let ac = chars_of(a);
    let bc = chars_of(b);
    if ac.len() != bc.len() {
        return false;
    }
    let mut i: usize = 0;
    while i < ac.len()
        invariant
            ac@ == a@,
            bc@ == b@,
            ac.len() == bc.len(),
            i <= ac.len(),
            forall|j: int| 0 <= j < i ==> ac@[j] == bc@[j],
        decreases ac.len() - i,
    {
        if ac[i] != bc[i] {
            return false;
        }
        i += 1;
    }
    assert(a@ =~= b@);
    true
}

/// A string holding the given characters.
pub fn string_from_chars(cs: &Vec<char>) -> (s: String)
    ensures
        s@ == cs@,
{
    let mut s = String::new();
    let mut i: usize = 0;
    while i < cs.len()
        invariant
            i <= cs.len(),
            s@ == cs@.take(i as int),
        decreases cs.len() - i,
    {
        push_char(&mut s, cs[i]);
        assert(s@ =~= cs@.take(i as int + 1));
        i += 1;
    }
    assert(s@ =~= cs@);
    s
}

/// Appends a string slice (`String::push_str`).
pub fn push_str(s: &mut String, t: &str)
    ensures
        final(s)@ == old(s)@ + t@,
{
    let tc = chars_of(t);
    let mut i: usize = 0;
    while i < tc.len()
        invariant
            tc@ == t@,
            i <= tc.len(),
            s@ == old(s)@ + t@.take(i as int),
        decreases tc.len() - i,
    {
        push_char(s, tc[i]);
        assert(s@ =~= old(s)@ + t@.take(i as int + 1));
        i += 1;
    }
    assert(t@.take(i as int) =~= t@);
}

} // verus!

verus! {

/// The pieces of `s` between occurrences of `d` (`str::split` with a
/// character pattern): an empty string gives one empty piece.
pub open spec fn split_on(s: Seq<char>, d: char) -> Seq<Seq<char>>
    decreases s.len(),
{
    if s.len() == 0 {
        seq![Seq::empty()]
    } else {
        let rest = split_on(s.drop_last(), d);
        if s.last() == d {
            rest.push(Seq::empty())
        } else {
            rest.update(rest.len() - 1, rest.last().push(s.last()))
        }
    }
}

/// Pieces joined with a separator between neighbours.
pub open spec fn join_with(parts: Seq<Seq<char>>, sep: Seq<char>) -> Seq<char>
    decreases parts.len(),
{
    if parts.len() == 0 {
        Seq::empty()
    } else if parts.len() == 1 {
        parts[0]
    } else {
        join_with(parts.drop_last(), sep) + sep + parts.last()
    }
}

/// Characters of each string in a sequence.
pub open spec fn strings_view(v: Seq<String>) -> Seq<Seq<char>> {
    v.map_values(|s: String| s@)
}

pub proof fn lemma_split_nonempty(s: Seq<char>, d: char)
    ensures
        split_on(s, d).len() >= 1,
    decreases s.len(),
{
    if s.len() > 0 {
        lemma_split_nonempty(s.drop_last(), d);
    }
}

/// `str::split` on a character.
pub fn split_char(s: &str, d: char) -> (r: Vec<String>)
    ensures
        strings_view(r@) == split_on(s@, d),
{
    let cs = chars_of(s);
    let mut r: Vec<String> = Vec::new();
    let mut cur = String::new();
    let mut i: usize = 0;
    proof {
        reveal_with_fuel(split_on, 2);
        assert(s@.take(0) =~= Seq::<char>::empty());
    }
    while i < cs.len()
        invariant
            cs@ == s@,
            i <= cs.len(),
            strings_view(r@).push(cur@) == split_on(s@.take(i as int), d),
        decreases cs.len() - i,
    {
        let c = cs[i];
        let ghost prev = s@.take(i as int);
        assert(s@.take(i as int + 1).drop_last() =~= prev);
        proof {
            lemma_split_nonempty(prev, d);
        }
        if c == d {
            let done = cur;
            r.push(done);
            cur = String::new();
            assert(strings_view(r@) =~= strings_view(r@).drop_last().push(done@));
            assert(strings_view(r@).push(cur@) =~= split_on(s@.take(i as int + 1), d));
        } else {
            let ghost before = strings_view(r@).push(cur@);
            push_char(&mut cur, c);
            assert(strings_view(r@).push(cur@) =~= before.update(
                before.len() - 1,
                before.last().push(c),
            ));
        }
        i += 1;
    }
    assert(s@.take(i as int) =~= s@);
    r.push(cur);
    assert(strings_view(r@) =~= split_on(s@, d));
    r
}

} // verus!

verus! {

/// The strings `parts[lo..hi]` joined with `sep`.
pub fn join_range(parts: &Vec<String>, lo: usize, hi: usize, sep: &str) -> (r: String)
    requires
        lo <= hi <= parts.len(),
    ensures
        r@ == join_with(strings_view(parts@).subrange(lo as int, hi as int), sep@),
{
    let mut r = String::new();
    let mut i: usize = lo;
    assert(strings_view(parts@).subrange(lo as int, lo as int) =~= Seq::<Seq<char>>::empty());
    while i < hi
        invariant
            lo <= i <= hi <= parts.len(),
            r@ == join_with(strings_view(parts@).subrange(lo as int, i as int), sep@),
        decreases hi - i,
    {
        let ghost prev = strings_view(parts@).subrange(lo as int, i as int);
        let ghost next = strings_view(parts@).subrange(lo as int, i as int + 1);
        assert(next.drop_last() =~= prev);
        if i > lo {
            push_str(&mut r, sep);
        } else {
            assert(next.len() == 1);
        }
        push_str(&mut r, parts[i].as_str());
        i += 1;
    }
    r
}

/// Whether `s` starts with `p`.
pub open spec fn has_prefix(s: Seq<char>, p: Seq<char>) -> bool {
    p.len() <= s.len() && s.take(p.len() as int) == p
}

/// Whether `p` occurs in `s`.
pub open spec fn contains_seq(s: Seq<char>, p: Seq<char>) -> bool {
    exists|i: int| 0 <= i && i + p.len() <= s.len() && #[trigger] s.subrange(i, i + p.len()) == p
}

/// Whether `p` occurs in `cs` at position `i`.
pub fn occurs_at(cs: &Vec<char>, i: usize, p: &Vec<char>) -> (r: bool)
    requires
        i <= cs.len(),
    ensures
        r == (i + p.len() <= cs.len() && cs@.subrange(i as int, i + p.len()) == p@),
{
    if p.len() > cs.len() - i {
        return false;
    }
    let mut j: usize = 0;
    while j < p.len()
        invariant
            i + p.len() <= cs.len(),
            j <= p.len(),
            forall|k: int| 0 <= k < j ==> cs@[i + k] == p@[k],
        decreases p.len() - j,
    {
        if cs[i + j] != p[j] {
            assert(cs@.subrange(i as int, i + p.len())[j as int] != p@[j as int]);
            return false;
        }
        j += 1;
    }
    assert(cs@.subrange(i as int, i + p.len()) =~= p@);
    true
}

/// `str::starts_with`.
pub fn starts_with(s: &str, p: &str) -> (r: bool)
    ensures
        r == has_prefix(s@, p@),
{
    let cs = chars_of(s);
    let ps = chars_of(p);
    let r = occurs_at(&cs, 0, &ps);
    assert(cs@.subrange(0, ps@.len() as int) =~= s@.take(ps@.len() as int));
    r
}

/// `str::contains` with a string pattern.
pub fn contains_str(s: &str, p: &str) -> (r: bool)
    ensures
        r == contains_seq(s@, p@),
{
    let cs = chars_of(s);
    let ps = chars_of(p);
    let mut i: usize = 0;
    loop
        invariant
            cs@ == s@,
            ps@ == p@,
            i <= cs.len(),
            forall|k: int|
                0 <= k < i && k + p@.len() <= s@.len() ==> #[trigger] s@.subrange(k, k + p@.len())
                    != p@,
        decreases cs.len() - i,
    {
        if occurs_at(&cs, i, &ps) {
            return true;
        }
        if i == cs.len() {
            return false;
        }
        i += 1;
    }
}

/// Index of the last occurrence of `c` in `s`.
pub open spec fn last_index_of(s: Seq<char>, c: char) -> Option<int>
    decreases s.len(),
{
    if s.len() == 0 {
        None
    } else if s.last() == c {
        Some(s.len() - 1)
    } else {
        last_index_of(s.drop_last(), c)
    }
}

/// Index of the first occurrence of `c` in `s`.
pub open spec fn first_index_of(s: Seq<char>, c: char) -> Option<int>
    decreases s.len(),
{
    if s.len() == 0 {
        None
    } else if s[0] == c {
        Some(0)
    } else {
        match first_index_of(s.drop_first(), c) {
            Some(i) => Some(i + 1),
            None => None,
        }
    }
}

pub proof fn lemma_last_index_of(s: Seq<char>, c: char)
    ensures
        last_index_of(s, c) matches Some(i) ==> 0 <= i < s.len() && s[i] == c && forall|j: int|
            i < j < s.len() ==> s[j] != c,
        last_index_of(s, c) is None ==> forall|j: int| 0 <= j < s.len() ==> s[j] != c,
    decreases s.len(),
{
    if s.len() > 0 {
        lemma_last_index_of(s.drop_last(), c);
        assert forall|j: int| 0 <= j < s.len() - 1 implies s[j] == s.drop_last()[j] by {}
    }
}

pub proof fn lemma_first_index_of(s: Seq<char>, c: char)
    ensures
        first_index_of(s, c) matches Some(i) ==> 0 <= i < s.len() && s[i] == c && forall|j: int|
            0 <= j < i ==> s[j] != c,
        first_index_of(s, c) is None ==> forall|j: int| 0 <= j < s.len() ==> s[j] != c,
    decreases s.len(),
{
    if s.len() > 0 {
        lemma_first_index_of(s.drop_first(), c);
        if s[0] != c {
            assert forall|j: int| 1 <= j < s.len() implies s[j] == s.drop_first()[j - 1] by {}
        }
    }
}

/// Index of the last occurrence of `c` in `cs`.
pub fn rfind_char(cs: &Vec<char>, c: char) -> (r: Option<usize>)
    ensures
        match last_index_of(cs@, c) {
            Some(i) => r == Some(i as usize),
            None => r is None,
        },
{
    let mut i: usize = cs.len();
    while i > 0
        invariant
            i <= cs.len(),
            forall|j: int| i <= j < cs.len() ==> cs@[j] != c,
        decreases i,
    {
        if cs[i - 1] == c {
            proof {
                lemma_last_index_of(cs@, c);
                let k = last_index_of(cs@, c)->0;
                assert(k == i - 1);
            }
            return Some(i - 1);
        }
        i -= 1;
    }
    proof {
        lemma_last_index_of(cs@, c);
    }
    None
}

/// Index of the first occurrence of `c` in `cs`.
pub fn find_char(cs: &Vec<char>, c: char) -> (r: Option<usize>)
    ensures
        match first_index_of(cs@, c) {
            Some(i) => r == Some(i as usize),
            None => r is None,
        },
{
    let mut i: usize = 0;
    while i < cs.len()
        invariant
            i <= cs.len(),
            forall|j: int| 0 <= j < i ==> cs@[j] != c,
        decreases cs.len() - i,
    {
        if cs[i] == c {
            proof {
                lemma_first_index_of(cs@, c);
                let k = first_index_of(cs@, c)->0;
                assert(k == i);
            }
            return Some(i);
        }
        i += 1;
    }
    proof {
        lemma_first_index_of(cs@, c);
    }
    None
}

/// A string of the characters `cs[lo..hi]`.
pub fn substring(cs: &Vec<char>, lo: usize, hi: usize) -> (r: String)
    requires
        lo <= hi <= cs.len(),
    ensures
        r@ == cs@.subrange(lo as int, hi as int),
{
    let mut r = String::new();
    let mut i: usize = lo;
    while i < hi
        invariant
            lo <= i <= hi <= cs.len(),
            r@ == cs@.subrange(lo as int, i as int),
        decreases hi - i,
    {
        push_char(&mut r, cs[i]);
        assert(r@ =~= cs@.subrange(lo as int, i as int + 1));
        i += 1;
    }
    r
}

} // verus!

verus! {

/// Decimal digits of a natural number (no sign, no leading zeros).
pub open spec fn decimal(n: nat) -> Seq<char>
    decreases n,
{
    if n < 10 {
        seq![digit_char(n)]
    } else {
        decimal(n / 10) + seq![digit_char(n % 10)]
    }
}

/// The digit character of a value below ten.
pub open spec fn digit_char(d: nat) -> char {
    (d + 48) as char
}

/// Decimal text of an integer, with a leading `-` when negative.
pub open spec fn int_text(v: int) -> Seq<char> {
    if v < 0 {
        seq!['-'] + decimal((-v) as nat)
    } else {
        decimal(v as nat)
    }
}

/// Decimal text of an unsigned number.
pub fn usize_text(n: usize) -> (r: String)
    ensures
        r@ == decimal(n as nat),
{
    u64_text(n as u64)
}

/// Decimal text of an unsigned 64-bit number.
pub fn u64_text(n: u64) -> (r: String)
    ensures
        r@ == decimal(n as nat),
    decreases n,
{
    if n < 10 {
        let mut r = String::new();
        push_char(&mut r, ((n as u8) + 48) as char);
        assert(r@ =~= decimal(n as nat));
        r
    } else {
        let mut r = u64_text(n / 10);
        push_char(&mut r, (((n % 10) as u8) + 48) as char);
        assert(r@ =~= decimal(n as nat));
        r
    }
}

/// Decimal text of an unsigned 128-bit number.
pub fn u128_text(n: u128) -> (r: String)
    ensures
        r@ == decimal(n as nat),
    decreases n,
{
    if n < 10 {
        let mut r = String::new();
        push_char(&mut r, ((n as u8) + 48) as char);
        assert(r@ =~= decimal(n as nat));
        r
    } else {
        let mut r = u128_text(n / 10);
        push_char(&mut r, (((n % 10) as u8) + 48) as char);
        assert(r@ =~= decimal(n as nat));
        r
    }
}

/// Decimal text of a signed 64-bit number.
pub fn i64_text(v: i64) -> (r: String)
    ensures
        r@ == int_text(v as int),
{
    if v < 0 {
        let mut r = String::new();
        push_char(&mut r, '-');
        let mag: u64 = if v == i64::MIN {
            9223372036854775808u64
        } else {
            (-v) as u64
        };
        let d = u64_text(mag);
        push_str(&mut r, d.as_str());
        assert(r@ =~= int_text(v as int));
        r
    } else {
        u64_text(v as u64)
    }
}

} // verus!
