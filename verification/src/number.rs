//! Numbers of the template language: 32- and 64-bit integers and decimals
//! (a 64-bit unscaled value with at most 18 fraction digits).
use vstd::prelude::*;

verus! {

/// Largest number of fraction digits of a decimal.
pub const MAX_SCALE: u32 = 18;

/// A number value.
#[derive(Debug, Clone, Copy, PartialEq, Eq)]
pub enum TNumber {
    Int(i32),
    Long(i64),
    /// `unscaled / 10^scale`.
    Decimal { unscaled: i64, scale: u32 },
}

/// Ten to the power `e`.
pub open spec fn pow10(e: nat) -> int
    decreases e,
{
    if e == 0 {
        1
    } else {
        10 * pow10((e - 1) as nat)
    }
}

/// Powers of ten are positive.
pub proof fn lemma_pow10_pos(e: nat)
    ensures
        pow10(e) >= 1,
    decreases e,
{
    if e > 0 {
        lemma_pow10_pos((e - 1) as nat);
    }
}

/// Powers of ten grow with the exponent.
pub proof fn lemma_pow10_mono(a: nat, b: nat)
    requires
        a <= b,
    ensures
        pow10(a) <= pow10(b),
    decreases b,
{
    lemma_pow10_pos(a);
    if a < b {
        lemma_pow10_mono(a, (b - 1) as nat);
        lemma_pow10_pos((b - 1) as nat);
    }
}

/// Powers of ten up to the 18th fit in 64 bits.
pub proof fn lemma_pow10_bound(e: nat)
    requires
        e <= 18,
    ensures
        pow10(e) <= 1_000_000_000_000_000_000,
{
    lemma_pow10_mono(e, 18);
    reveal_with_fuel(pow10, 19);
}

/// `10^(a+b) == 10^a * 10^b`.
pub proof fn lemma_pow10_add(a: nat, b: nat)
    ensures
        pow10(a + b) == pow10(a) * pow10(b),
    decreases a,
{
    if a == 0 {
        assert(a + b == b);
    } else {
        let a1 = (a - 1) as nat;
        lemma_pow10_add(a1, b);
        assert((a + b - 1) as nat == a1 + b);
        let x = pow10(a1);
        let y = pow10(b);
        assert(pow10(a + b) == 10 * pow10(a1 + b));
        assert(pow10(a) == 10 * x);
        assert(10 * (x * y) == (10 * x) * y) by (nonlinear_arith);
    }
}

impl TNumber {
    /// A number is well formed when a decimal has at most 18 fraction digits.
    pub open spec fn wf(self) -> bool {
        match self {
            TNumber::Decimal { scale, .. } => scale <= MAX_SCALE,
            _ => true,
        }
    }

    /// Unscaled integer of the number (the number times `10^scale`).
    pub open spec fn unscaled(self) -> int {
        match self {
            TNumber::Int(v) => v as int,
            TNumber::Long(v) => v as int,
            TNumber::Decimal { unscaled, .. } => unscaled as int,
        }
    }

    /// Number of fraction digits.
    pub open spec fn scale(self) -> nat {
        match self {
            TNumber::Decimal { scale, .. } => scale as nat,
            _ => 0,
        }
    }

    /// The number scaled to `e >= scale` fraction digits, as an integer.
    pub open spec fn at_scale(self, e: nat) -> int {
        self.unscaled() * pow10((e - self.scale()) as nat)
    }

    /// Whether `self < other` as rational numbers.
    pub open spec fn lt(self, other: TNumber) -> bool {
        let e = self.scale() + other.scale();
        self.at_scale(e) < other.at_scale(e)
    }

    /// Whether `self == other` as rational numbers.
    pub open spec fn num_eq(self, other: TNumber) -> bool {
        let e = self.scale() + other.scale();
        self.at_scale(e) == other.at_scale(e)
    }

    /// Sign of the number: -1, 0 or 1.
    pub open spec fn signum(self) -> int {
        if self.unscaled() < 0 {
            -1
        } else if self.unscaled() == 0 {
            0
        } else {
            1
        }
    }

    /// The number truncated toward zero.
    pub open spec fn truncated(self) -> int {
        match self {
            TNumber::Decimal { unscaled, scale } => {
                let p = pow10(scale as nat);
                let u = unscaled as int;
                if u >= 0 {
                    u / p
                } else {
                    -((-u) / p)
                }
            },
            _ => self.unscaled(),
        }
    }

    /// Whether the number has no fraction part.
    pub open spec fn is_integral(self) -> bool {
        match self {
            TNumber::Decimal { unscaled, scale } => (unscaled as int) % pow10(scale as nat) == 0,
            _ => true,
        }
    }

    /// The 64-bit integer number `v`.
    pub fn from_i64(v: i64) -> (r: TNumber)
        ensures
            r == TNumber::Long(v),
    {
        TNumber::Long(v)
    }
}

/// Ten to the power `e`, for `e <= 18`.
pub fn pow10_i128(e: u32) -> (r: i128)
    requires
        e <= 18,
    ensures
        r == pow10(e as nat),
        1 <= r <= 1_000_000_000_000_000_000,
    decreases e,
{
    proof {
        lemma_pow10_bound(e as nat);
        lemma_pow10_pos(e as nat);
    }
    if e == 0 {
        1
    } else {
        let r = pow10_i128(e - 1);
        10 * r
    }
}

fn unscaled_of(n: &TNumber) -> (r: i128)
    ensures
        r == n.unscaled(),
{
    match n {
        TNumber::Int(v) => *v as i128,
        TNumber::Long(v) => *v as i128,
        TNumber::Decimal { unscaled, .. } => *unscaled as i128,
    }
}

fn scale_of(n: &TNumber) -> (r: u32)
    ensures
        r == n.scale(),
{
    match n {
        TNumber::Decimal { scale, .. } => *scale,
        _ => 0,
    }
}

/// The two numbers scaled to a common number of fraction digits.
pub fn common_scaled(a: &TNumber, b: &TNumber) -> (r: (i128, i128))
    requires
        a.wf(),
        b.wf(),
    ensures
        r.0 == a.at_scale(a.scale() + b.scale()),
        r.1 == b.at_scale(a.scale() + b.scale()),
{
    let sa = scale_of(a);
    let sb = scale_of(b);
    let pa = pow10_i128(sb);
    let pb = pow10_i128(sa);
    let ua = unscaled_of(a);
    let ub = unscaled_of(b);
    assert(((sa + sb) - sa) as nat == sb as nat);
    assert(((sa + sb) - sb) as nat == sa as nat);
    assert(-9223372036854775808 * 1_000_000_000_000_000_000 <= ua * pa
        <= 9223372036854775807 * 1_000_000_000_000_000_000) by (nonlinear_arith)
        requires
            -9223372036854775808 <= ua <= 9223372036854775807,
            1 <= pa <= 1_000_000_000_000_000_000,
    ;
    assert(-9223372036854775808 * 1_000_000_000_000_000_000 <= ub * pb
        <= 9223372036854775807 * 1_000_000_000_000_000_000) by (nonlinear_arith)
        requires
            -9223372036854775808 <= ub <= 9223372036854775807,
            1 <= pb <= 1_000_000_000_000_000_000,
    ;
    (ua * pa, ub * pb)
}

} // verus!

verus! {

/// Order of two numbers by value.
pub open spec fn number_order(a: TNumber, b: TNumber) -> std::cmp::Ordering {
    if a.lt(b) {
        std::cmp::Ordering::Less
    } else if a.num_eq(b) {
        std::cmp::Ordering::Equal
    } else {
        std::cmp::Ordering::Greater
    }
}

/// Compares two numbers by value (as exact rationals).
pub fn compare_numbers(a: &TNumber, b: &TNumber) -> (r: std::cmp::Ordering)
    requires
        a.wf(),
        b.wf(),
    ensures
        r == number_order(*a, *b),
{
    let (x, y) = common_scaled(a, b);
    if x < y {
        std::cmp::Ordering::Less
    } else if x == y {
        std::cmp::Ordering::Equal
    } else {
        std::cmp::Ordering::Greater
    }
}

/// Sign of a number: -1, 0 or 1.
pub fn number_signum(n: &TNumber) -> (r: i32)
    ensures
        r == n.signum(),
{
    let u = unscaled_of(n);
    if u < 0 {
        -1
    } else if u == 0 {
        0
    } else {
        1
    }
}

/// The number truncated toward zero to a 64-bit integer, when it is in
/// range.
pub fn trunc_i64(n: &TNumber) -> (r: Option<i64>)
    requires
        n.wf(),
    ensures
        r == Some(n.truncated() as i64),
        -9223372036854775808 <= n.truncated() <= 9223372036854775807,
{
    match n {
        TNumber::Int(v) => Some(*v as i64),
        TNumber::Long(v) => Some(*v),
        TNumber::Decimal { unscaled, scale } => {
            let p = pow10_i128(*scale);
            let u = *unscaled as i128;
            if u >= 0 {
                assert(u / p <= u) by (nonlinear_arith)
                    requires
                        u >= 0,
                        p >= 1,
                ;
                Some((u / p) as i64)
            } else {
                let m = -u;
                assert(m / p <= m) by (nonlinear_arith)
                    requires
                        m >= 0,
                        p >= 1,
                ;
                Some((-(m / p)) as i64)
            }
        },
    }
}

/// An integer is a multiple of `p` exactly when its negation is.
pub proof fn lemma_neg_mod_zero(u: int, p: int)
    requires
        p > 0,
    ensures
        (u % p == 0) <==> ((-u) % p == 0),
{
    vstd::arithmetic::div_mod::lemma_fundamental_div_mod(u, p);
    vstd::arithmetic::div_mod::lemma_fundamental_div_mod(-u, p);
    if u % p == 0 {
        let q = u / p;
        assert(-u == (-q) * p) by (nonlinear_arith)
            requires
                u == p * q,
        ;
        vstd::arithmetic::div_mod::lemma_mod_multiples_basic(-q, p);
    }
    if (-u) % p == 0 {
        let q = (-u) / p;
        assert(u == (-q) * p) by (nonlinear_arith)
            requires
                -u == p * q,
        ;
        vstd::arithmetic::div_mod::lemma_mod_multiples_basic(-q, p);
    }
}

/// The number as a 64-bit integer when it has no fraction part.
pub fn to_int_exact(n: &TNumber) -> (r: Option<i64>)
    requires
        n.wf(),
    ensures
        n.is_integral() ==> r == Some(n.truncated() as i64),
        !n.is_integral() ==> r is None,
{
    match n {
        TNumber::Int(v) => Some(*v as i64),
        TNumber::Long(v) => Some(*v),
        TNumber::Decimal { unscaled, scale } => {
            let p = pow10_i128(*scale);
            let u = *unscaled as i128;
            let m = if u >= 0 { u } else { -u };
            proof {
                lemma_neg_mod_zero(u as int, p as int);
            }
            if m % p == 0 {
                trunc_i64(n)
            } else {
                None
            }
        },
    }
}

} // verus!

verus! {

/// Whether two numbers are equal by value.
pub fn numbers_equal(a: &TNumber, b: &TNumber) -> (r: bool)
    requires
        a.wf(),
        b.wf(),
    ensures
        r == a.num_eq(*b),
{
    let (x, y) = common_scaled(a, b);
    x == y
}

/// Whether `a < b` by value.
pub fn number_less(a: &TNumber, b: &TNumber) -> (r: bool)
    requires
        a.wf(),
        b.wf(),
    ensures
        r == a.lt(*b),
{
    let (x, y) = common_scaled(a, b);
    x < y
}

} // verus!

verus! {

/// Digits left-padded with zeros to `w` characters.
pub open spec fn zero_padded(d: Seq<char>, w: nat) -> Seq<char> {
    if d.len() >= w {
        d
    } else {
        Seq::new((w - d.len()) as nat, |i: int| '0') + d
    }
}

/// Magnitude of an integer.
pub open spec fn magnitude(u: int) -> nat {
    if u < 0 {
        (-u) as nat
    } else {
        u as nat
    }
}

/// The number written out in full, without exponent: an integer in decimal,
/// a decimal with exactly `scale` fraction digits.
pub open spec fn plain_text(n: TNumber) -> Seq<char> {
    match n {
        TNumber::Decimal { unscaled, scale } => if scale > 0 {
            let u = unscaled as int;
            let a = magnitude(u);
            let p = pow10(scale as nat);
            (if u < 0 {
                "-"@
            } else {
                ""@
            }) + crate::text::decimal(a / (p as nat)) + "."@ + zero_padded(
                crate::text::decimal(a % (p as nat)),
                scale as nat,
            )
        } else {
            crate::text::int_text(u_of(n))
        },
        _ => crate::text::int_text(u_of(n)),
    }
}

/// The unscaled integer of a number.
pub open spec fn u_of(n: TNumber) -> int {
    n.unscaled()
}

/// A number below `10^w` has at most `w` decimal digits.
pub proof fn lemma_decimal_len(n: nat, w: nat)
    requires
        w >= 1,
        n < pow10(w),
    ensures
        crate::text::decimal(n).len() <= w,
    decreases w,
{
    if n >= 10 {
        if w == 1 {
            assert(pow10(1) == 10 * pow10(0));
        } else {
            assert(pow10(w) == 10 * pow10((w - 1) as nat));
            assert(n / 10 < pow10((w - 1) as nat));
            lemma_decimal_len(n / 10, (w - 1) as nat);
        }
    }
}

impl TNumber {
    /// The number written out in full, without exponent.
    pub fn to_plain_string(&self) -> (r: String)
        ensures
            r@ == plain_text(*self),
    {
        match self {
            TNumber::Int(v) => crate::text::i64_text(*v as i64),
            TNumber::Long(v) => crate::text::i64_text(*v),
            TNumber::Decimal { unscaled, scale } => {
                if *scale == 0 {
                    return crate::text::i64_text(*unscaled);
                }
                let u = *unscaled;
                let a: u64 = if u < 0 {
                    if u == i64::MIN {
                        9223372036854775808u64
                    } else {
                        (-u) as u64
                    }
                } else {
                    u as u64
                };
                assert(a as nat == magnitude(u as int));
                let (ip, fp): (u64, u64) = if *scale <= 18 {
                    let p: u64 = pow10_i128(*scale) as u64;
                    proof {
                        assert(p as int == pow10(*scale as nat));
                    }
                    (a / p, a % p)
                } else {
                    proof {
                        lemma_pow10_mono(19, *scale as nat);
                        assert(pow10(19) == 10_000_000_000_000_000_000) by {
                            reveal_with_fuel(pow10, 20);
                        }
                        assert(a < pow10(*scale as nat));
                        vstd::arithmetic::div_mod::lemma_basic_div(a as int, pow10(*scale as nat));
                        vstd::arithmetic::div_mod::lemma_small_mod(a as nat, pow10(*scale as nat) as nat);
                    }
                    (0, a)
                };
                proof {
                    let pn = pow10(*scale as nat) as nat;
                    lemma_pow10_pos(*scale as nat);
                    assert(ip as nat == (a as nat) / pn) by {
                        if *scale > 18 {
                            vstd::arithmetic::div_mod::lemma_basic_div(a as int, pn as int);
                        }
                    }
                    assert(fp as nat == (a as nat) % pn);
                    lemma_decimal_len(fp as nat, *scale as nat);
                }
                let mut s = String::new();
                if u < 0 {
                    crate::text::push_char(&mut s, '-');
                }
                let ghost head = s@;
                let it = crate::text::u64_text(ip);
                crate::text::push_str(&mut s, it.as_str());
                crate::text::push_char(&mut s, '.');
                let ft = crate::text::u64_text(fp);
                let fcs = crate::text::chars_of(ft.as_str());
                let mut k: usize = fcs.len();
                let ghost before = s@;
                while k < *scale as usize
                    invariant
                        fcs.len() <= k <= *scale as usize,
                        s@ == before + Seq::new((k - fcs.len()) as nat, |i: int| '0'),
                    decreases *scale as usize - k,
                {
                    crate::text::push_char(&mut s, '0');
                    proof {
                        assert(before + Seq::new((k + 1 - fcs.len()) as nat, |i: int| '0') =~= (before
                            + Seq::new((k - fcs.len()) as nat, |i: int| '0')).push('0'));
                    }
                    k += 1;
                }
                crate::text::push_str(&mut s, ft.as_str());
                proof {
                    let pad = Seq::new((k - fcs.len()) as nat, |i: int| '0');
                    if fcs.len() >= *scale as usize {
                        assert(pad =~= Seq::<char>::empty());
                        assert(s@ =~= before + ft@);
                    } else {
                        assert(s@ =~= before + (pad + ft@));
                    }
                    reveal_strlit("-");
                    reveal_strlit("");
                    reveal_strlit(".");
                    assert(head =~= (if u < 0 {
                        "-"@
                    } else {
                        ""@
                    }));
                    assert(before =~= head + it@ + "."@);
                    assert(zero_padded(ft@, *scale as nat) =~= pad + ft@);
                    assert(s@ =~= plain_text(*self));
                }
                s
            },
        }
    }
}

} // verus!
