//! Fixed-point decimal amounts.
//!
//! An amount is a mantissa and a scale, standing for `mantissa / 10^scale`,
//! with the limits of `rust_decimal::Decimal` (a 96-bit mantissa and at most
//! 28 digits after the point). The arithmetic itself is done by
//! `rust_decimal`; this module states when its results are exact.
use rust_decimal::Decimal;
use vstd::prelude::*;

verus! {

/// Largest magnitude of a mantissa: 2^96 - 1.
pub const MAX_MANTISSA: i128 = 79228162514264337593543950335;

/// Largest number of digits after the decimal point.
pub const MAX_SCALE: u32 = 28;

/// 10 to the power `n`.
pub open spec fn pow10(n: nat) -> int
    decreases n,
{
    if n == 0 {
        1
    } else {
        10 * pow10((n - 1) as nat)
    }
}

/// A mantissa that a decimal amount can hold.
pub open spec fn in_range(m: int) -> bool {
    -MAX_MANTISSA <= m <= MAX_MANTISSA
}

/// A decimal amount: `mantissa / 10^scale`.
#[derive(Clone, Copy, Debug, PartialEq, Eq, Structural)]
pub struct Money {
    pub mantissa: i128,
    pub scale: u32,
}

impl Money {
    /// The amount fits the limits of a decimal.
    pub open spec fn wf(self) -> bool {
        in_range(self.mantissa as int) && self.scale <= MAX_SCALE
    }

    /// The mantissa of the same amount written with `s` digits after the
    /// point (meaningful for `s >= self.scale`).
    pub open spec fn at_scale(self, s: nat) -> int {
        self.mantissa * pow10((s - self.scale) as nat)
    }

    /// The amount as an exact whole number of units of `10^-28`.
    pub open spec fn units(self) -> int {
        self.at_scale(MAX_SCALE as nat)
    }

    /// Zero, with no digits after the point.
    pub fn zero() -> (r: Money)
        ensures
            r.wf(),
            r.units() == 0,
            r.scale == 0,
    {
        Money { mantissa: 0, scale: 0 }
    }

    /// The amount `mantissa / 10^scale`, if a decimal can hold it.
    pub fn from_parts(mantissa: i128, scale: u32) -> (r: Option<Money>)
        ensures
            r is Some <==> (in_range(mantissa as int) && scale <= MAX_SCALE),
            r matches Some(m) ==> m.mantissa == mantissa && m.scale == scale,
    {
        if -MAX_MANTISSA <= mantissa && mantissa <= MAX_MANTISSA && scale <= MAX_SCALE {
            Some(Money { mantissa, scale })
        } else {
            None
        }
    }

    /// The same amount as a whole number (no digits after the point).
    pub fn from_integer(n: i32) -> (r: Money)
        ensures
            r.wf(),
            r.mantissa == n,
            r.scale == 0,
            r.units() == n * pow10(MAX_SCALE as nat),
    {
        Money { mantissa: n as i128, scale: 0 }
    }
}

/// The exact product of `a` and `b` keeps its scale within the limits and its
/// mantissa within 96 bits.
pub open spec fn product_fits(a: Money, b: Money) -> bool {
    in_range(a.mantissa * b.mantissa) && a.scale + b.scale <= MAX_SCALE
}

/// The larger of the two scales.
pub open spec fn common_scale(a: Money, b: Money) -> nat {
    if a.scale >= b.scale {
        a.scale as nat
    } else {
        b.scale as nat
    }
}

/// Written at their common scale, both amounts and their sum keep their
/// mantissas within 96 bits.
pub open spec fn sum_fits(a: Money, b: Money) -> bool {
    let s = common_scale(a, b);
    in_range(a.at_scale(s)) && in_range(b.at_scale(s)) && in_range(a.at_scale(s) + b.at_scale(s))
}

/// Relies on `rust_decimal::Decimal::checked_mul`: the product is exact
/// when its mantissa fits in 96 bits and the scales add up to at most 28;
/// every `Decimal` keeps a 96-bit mantissa and a scale of at most 28, and
/// an exact product has at most the sum of the scales.
#[verifier::external_body]
pub(crate) fn decimal_mul(a: Money, b: Money) -> (r: Option<Money>)
    requires
        a.wf(),
        b.wf(),
    ensures
        r is Some ==> r->0.wf(),
        product_fits(a, b) ==> r is Some && r->0.scale <= a.scale + b.scale,
        product_fits(a, b) ==> r is Some && r->0.units() == a.units() * b.units() / pow10(MAX_SCALE as nat),
{
    let x = Decimal::from_i128_with_scale(a.mantissa, a.scale);
    let y = Decimal::from_i128_with_scale(b.mantissa, b.scale);
    x.checked_mul(y).map(|d| Money { mantissa: d.mantissa(), scale: d.scale() })
}

/// Relies on `rust_decimal::Decimal::checked_add`: the operands are brought
/// to the larger of the two scales, and when both and their sum then fit in
/// 96 bits the sum is exact, with a scale of at most that larger scale.
#[verifier::external_body]
pub(crate) fn decimal_add(a: Money, b: Money) -> (r: Option<Money>)
    requires
        a.wf(),
        b.wf(),
    ensures
        r is Some ==> r->0.wf(),
        sum_fits(a, b) ==> r is Some && r->0.scale <= common_scale(a, b),
        sum_fits(a, b) ==> r is Some && r->0.units() == a.units() + b.units(),
{
    let x = Decimal::from_i128_with_scale(a.mantissa, a.scale);
    let y = Decimal::from_i128_with_scale(b.mantissa, b.scale);
    x.checked_add(y).map(|d| Money { mantissa: d.mantissa(), scale: d.scale() })
}

/// Powers of ten are positive.
pub proof fn lemma_pow10_pos(n: nat)
    ensures
        pow10(n) >= 1,
    decreases n,
{
    if n > 0 {
        lemma_pow10_pos((n - 1) as nat);
    }
}

/// `10^(a + b) == 10^a * 10^b`.
pub proof fn lemma_pow10_add(a: nat, b: nat)
    ensures
        pow10(a + b) == pow10(a) * pow10(b),
    decreases a,
{
    if a > 0 {
        lemma_pow10_add((a - 1) as nat, b);
        let p = pow10((a - 1) as nat);
        let q = pow10(b);
        assert(pow10(a + b) == 10 * pow10((a - 1 + b) as nat));
        assert(10 * (p * q) == (10 * p) * q) by (nonlinear_arith);
    }
}

/// Powers of ten grow with the exponent.
pub proof fn lemma_pow10_mono(a: nat, b: nat)
    requires
        a <= b,
    ensures
        pow10(a) <= pow10(b),
{
    lemma_pow10_add(a, (b - a) as nat);
    lemma_pow10_pos(a);
    lemma_pow10_pos((b - a) as nat);
    let p = pow10(a);
    let q = pow10((b - a) as nat);
    assert(p <= p * q) by (nonlinear_arith)
        requires
            p >= 1,
            q >= 1,
    ;
}

/// The largest power of ten that a scale needs.
pub proof fn lemma_pow10_max()
    ensures
        pow10(MAX_SCALE as nat) == 10000000000000000000000000000,
{
    reveal_with_fuel(pow10, 29);
}

/// Writing an amount with more digits after the point multiplies its
/// mantissa by the matching power of ten.
pub proof fn lemma_at_scale_step(x: Money, s: nat, t: nat)
    requires
        x.scale <= s <= t,
    ensures
        x.at_scale(t) == x.at_scale(s) * pow10((t - s) as nat),
{
    let d1 = (s - x.scale) as nat;
    let d2 = (t - s) as nat;
    lemma_pow10_add(d1, d2);
    assert((t - x.scale) as nat == d1 + d2);
    let m = x.mantissa as int;
    let p = pow10(d1);
    let q = pow10(d2);
    assert(m * (p * q) == (m * p) * q) by (nonlinear_arith);
}

/// `10^n` as a machine integer, for the scales that a decimal can have.
pub fn pow10_i128(n: u32) -> (r: i128)
    requires
        n <= MAX_SCALE,
    ensures
        r == pow10(n as nat),
        r >= 1,
{
    let mut r: i128 = 1;
    let mut i: u32 = 0;
    while i < n
        invariant
            i <= n <= MAX_SCALE,
            r == pow10(i as nat),
        decreases n - i,
    {
        proof {
            lemma_pow10_mono((i + 1) as nat, MAX_SCALE as nat);
            lemma_pow10_max();
            assert(pow10((i + 1) as nat) == 10 * pow10(i as nat));
            lemma_pow10_pos(i as nat);
            assert(r * 10 <= 10000000000000000000000000000);
        }
        r = r * 10;
        i = i + 1;
    }
    proof {
        lemma_pow10_pos(n as nat);
    }
    r
}

} // verus!
