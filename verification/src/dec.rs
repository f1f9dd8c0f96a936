use vstd::prelude::*;
use rust_decimal::Decimal;
use rust_decimal::MathematicalOps;

verus! {

/// The largest mantissa a 96-bit decimal can carry: 2^96 - 1.
pub const MAX_DEC_MANTISSA: i128 = 79228162514264337593543950335;

/// The largest scale (count of fractional digits) a 96-bit decimal can carry.
pub const MAX_DEC_SCALE: u32 = 28;

/// A fixed-point decimal number, held as a plain mantissa and scale:
/// the value denoted is `m / 10^s`. It mirrors the representation of a
/// 96-bit decimal, so that every monetary quantity in a schedule is a
/// pair of integers the verifier can reason about.
#[derive(Clone, Copy, Debug, PartialEq, Eq, Structural)]
pub struct Dec {
    /// Mantissa; the sign of the value is the sign of the mantissa.
    pub m: i128,
    /// Scale: how many decimal digits of `m` lie right of the point.
    pub s: u32,
}

/// The mathematical content of a `Dec`: its mantissa and scale as
/// unbounded integers.
pub struct DecModel {
    pub m: int,
    pub s: int,
}

impl View for Dec {
    type V = DecModel;

    open spec fn view(&self) -> DecModel {
        DecModel { m: self.m as int, s: self.s as int }
    }
}

impl Dec {
    /// A `Dec` that a 96-bit decimal can represent.
    pub open spec fn wf(self) -> bool {
        &&& -(MAX_DEC_MANTISSA as int) <= self.m as int <= MAX_DEC_MANTISSA as int
        &&& self.s <= MAX_DEC_SCALE
    }

    pub fn new(m: i128, s: u32) -> (r: Dec)
        ensures
            r.m == m,
            r.s == s,
    {
        Dec { m, s }
    }

    pub fn is_wf(&self) -> (r: bool)
        ensures
            r == self.wf(),
    {
        -MAX_DEC_MANTISSA <= self.m && self.m <= MAX_DEC_MANTISSA && self.s <= MAX_DEC_SCALE
    }

    pub open spec fn spec_zero() -> Dec {
        Dec { m: 0, s: 0 }
    }
}

/// What the decimal sum of two numbers is: mantissa and scale of `a + b`
/// as a 96-bit decimal computes it, exact where it fits, rounded to the
/// nearest representable value where it does not.
pub uninterp spec fn dec_add_of(a: DecModel, b: DecModel) -> DecModel;

/// What the decimal difference `a - b` is, exact where it fits and
/// rounded where it does not.
pub uninterp spec fn dec_sub_of(a: DecModel, b: DecModel) -> DecModel;

/// What the decimal product `a * b` is, exact where it fits and rounded
/// to the representable precision where it does not.
pub uninterp spec fn dec_mul_of(a: DecModel, b: DecModel) -> DecModel;

/// What the decimal quotient `a / b` is, carried to the representable
/// precision and rounded there.
pub uninterp spec fn dec_div_of(a: DecModel, b: DecModel) -> DecModel;

/// What the decimal power `a^exp` is, for an integer exponent, as the
/// exponentiation-by-squaring over decimals computes it.
pub uninterp spec fn dec_powi_of(a: DecModel, exp: int) -> DecModel;

/// Whether the decimal sum `a + b` is representable: whether the checked
/// addition returns a value. Like the result itself, this depends on the
/// operands alone.
pub uninterp spec fn dec_add_fits(a: DecModel, b: DecModel) -> bool;

/// Whether the decimal difference `a - b` is representable.
pub uninterp spec fn dec_sub_fits(a: DecModel, b: DecModel) -> bool;

/// Whether the decimal product `a * b` is representable.
pub uninterp spec fn dec_mul_fits(a: DecModel, b: DecModel) -> bool;

/// Whether the decimal quotient `a / b` exists and is representable:
/// false on a zero divisor and on overflow.
pub uninterp spec fn dec_div_fits(a: DecModel, b: DecModel) -> bool;

/// Whether the decimal power `a^exp` exists and is representable: false
/// on overflow and on a zero base with a negative exponent.
pub uninterp spec fn dec_powi_fits(a: DecModel, exp: int) -> bool;

/// Relies on rust_decimal's `Decimal::checked_add`: `None` only on
/// overflow, and whether that happens is a function of the operands
/// alone; any result is a valid 96-bit decimal.
#[verifier::external_body]
pub(crate) fn dec_checked_add(a: Dec, b: Dec) -> (r: Option<Dec>)
    requires
        a.wf(),
        b.wf(),
    ensures
        r is Some <==> dec_add_fits(a@, b@),
        r matches Some(c) ==> c.wf() && c@ == dec_add_of(a@, b@),
{
    let x = Decimal::from_i128_with_scale(a.m, a.s);
    let y = Decimal::from_i128_with_scale(b.m, b.s);
    match x.checked_add(y) {
        Some(c) => Some(Dec { m: c.mantissa(), s: c.scale() }),
        None => None,
    }
}

/// Relies on rust_decimal's `Decimal::checked_sub`: `None` only on
/// overflow, and whether that happens is a function of the operands
/// alone; any result is a valid 96-bit decimal. When the operands share
/// one scale and the difference of their mantissas is representable, the
/// result is exactly that difference at that scale: with equal scales no
/// rescaling happens, and a magnitude under 2^96 is returned as is.
#[verifier::external_body]
pub(crate) fn dec_checked_sub(a: Dec, b: Dec) -> (r: Option<Dec>)
    requires
        a.wf(),
        b.wf(),
    ensures
        r is Some <==> dec_sub_fits(a@, b@),
        r matches Some(c) ==> c.wf() && c@ == dec_sub_of(a@, b@),
        a.s == b.s && -(MAX_DEC_MANTISSA as int) <= a.m as int - b.m as int <= MAX_DEC_MANTISSA
            as int ==> r is Some,
        r matches Some(c) ==> (a.s == b.s && -(MAX_DEC_MANTISSA as int) <= a.m as int - b.m as int
            <= MAX_DEC_MANTISSA as int ==> c.m as int == a.m as int - b.m as int && c.s == a.s),
{
    let x = Decimal::from_i128_with_scale(a.m, a.s);
    let y = Decimal::from_i128_with_scale(b.m, b.s);
    match x.checked_sub(y) {
        Some(c) => Some(Dec { m: c.mantissa(), s: c.scale() }),
        None => None,
    }
}

/// Relies on rust_decimal's `Decimal::checked_mul`: `None` only on
/// overflow, and whether that happens is a function of the operands
/// alone; any result is a valid 96-bit decimal.
#[verifier::external_body]
pub(crate) fn dec_checked_mul(a: Dec, b: Dec) -> (r: Option<Dec>)
    requires
        a.wf(),
        b.wf(),
    ensures
        r is Some <==> dec_mul_fits(a@, b@),
        r matches Some(c) ==> c.wf() && c@ == dec_mul_of(a@, b@),
{
    let x = Decimal::from_i128_with_scale(a.m, a.s);
    let y = Decimal::from_i128_with_scale(b.m, b.s);
    match x.checked_mul(y) {
        Some(c) => Some(Dec { m: c.mantissa(), s: c.scale() }),
        None => None,
    }
}

/// Relies on rust_decimal's `Decimal::checked_div`: `None` on a zero
/// divisor and on overflow; a zero dividend gives exactly zero; dividing
/// by a positive 32-bit integer always succeeds, since the quotient's
/// integer part never exceeds the dividend's mantissa and fractional
/// digits are rounded off once no more fit; any result is a valid 96-bit
/// decimal.
#[verifier::external_body]
pub(crate) fn dec_checked_div(a: Dec, b: Dec) -> (r: Option<Dec>)
    requires
        a.wf(),
        b.wf(),
    ensures
        r is Some <==> dec_div_fits(a@, b@),
        r matches Some(c) ==> c.wf() && c@ == dec_div_of(a@, b@),
        b.m == 0 ==> r is None,
        a.m == 0 && b.m != 0 ==> r == Some(Dec::spec_zero()),
        b.s == 0 && 1 <= b.m <= u32::MAX as i128 ==> r is Some,
{
    let x = Decimal::from_i128_with_scale(a.m, a.s);
    let y = Decimal::from_i128_with_scale(b.m, b.s);
    match x.checked_div(y) {
        Some(c) => Some(Dec { m: c.mantissa(), s: c.scale() }),
        None => None,
    }
}

/// Relies on rust_decimal's `MathematicalOps::checked_powi`: `None` on
/// overflow and on a zero base with a negative exponent, and whether
/// that happens is a function of the operands alone; any result is a
/// valid 96-bit decimal.
#[verifier::external_body]
pub(crate) fn dec_checked_powi(a: Dec, exp: i64) -> (r: Option<Dec>)
    requires
        a.wf(),
    ensures
        r is Some <==> dec_powi_fits(a@, exp as int),
        r matches Some(c) ==> c.wf() && c@ == dec_powi_of(a@, exp as int),
{
    let x = Decimal::from_i128_with_scale(a.m, a.s);
    match x.checked_powi(exp) {
        Some(c) => Some(Dec { m: c.mantissa(), s: c.scale() }),
        None => None,
    }
}

/// `10^n`.
pub open spec fn pow10(n: nat) -> int
    decreases n,
{
    if n == 0 {
        1
    } else {
        10 * pow10((n - 1) as nat)
    }
}

pub proof fn lemma_pow10_pos(n: nat)
    ensures
        pow10(n) >= 1,
    decreases n,
{
    if n > 0 {
        lemma_pow10_pos((n - 1) as nat);
    }
}

pub proof fn lemma_pow10_le(a: nat, b: nat)
    requires
        a <= b,
    ensures
        pow10(a) <= pow10(b),
    decreases b,
{
    lemma_pow10_pos(a);
    if a < b {
        lemma_pow10_le(a, (b - 1) as nat);
        lemma_pow10_pos((b - 1) as nat);
    }
}

/// A non-negative magnitude rounded to whole cents, halves rounded up:
/// the integer nearest `m / 10^(s-2)`.
pub open spec fn spec_rounded_cents_nonneg(m: int, s: int) -> int
    recommends
        s >= 0,
        m >= 0,
{
    if s <= 2 {
        m * pow10((2 - s) as nat)
    } else {
        let p = pow10((s - 2) as nat);
        let q = m / p;
        if 2 * (m % p) >= p {
            q + 1
        } else {
            q
        }
    }
}

/// The value rounded to whole cents, halves away from zero.
pub open spec fn spec_rounded_cents(d: DecModel) -> int
    recommends
        d.s >= 0,
{
    if d.m >= 0 {
        spec_rounded_cents_nonneg(d.m, d.s)
    } else {
        -spec_rounded_cents_nonneg(-d.m, d.s)
    }
}

fn rounded_cents_nonneg(m: i128, s: u32) -> (c: i128)
    requires
        0 <= m <= MAX_DEC_MANTISSA,
        s <= MAX_DEC_SCALE,
    ensures
        c == spec_rounded_cents_nonneg(m as int, s as int),
        0 <= c,
{
    if s <= 2 {
        let mut p: i128 = 1;
        let mut j: u32 = 0;
        let k = 2 - s;
        while j < k
            invariant
                j <= k <= 2,
                p == pow10(j as nat),
                1 <= p <= 100,
            decreases k - j,
        {
            proof {
                lemma_pow10_le((j + 1) as nat, 2);
                assert(pow10(2) == 100) by {
                    reveal_with_fuel(pow10, 3);
                }
            }
            p = p * 10;
            j = j + 1;
        }
        proof {
            assert(m * p <= 79228162514264337593543950335i128 * 100 && m * p
                >= 0) by (nonlinear_arith)
                requires
                    0 <= m <= 79228162514264337593543950335i128,
                    1 <= p <= 100,
            ;
        }
        m * p
    } else {
        let mut p: i128 = 1;
        let mut j: u32 = 0;
        let k = s - 2;
        while j < k
            invariant
                j <= k <= 26,
                p == pow10(j as nat),
                1 <= p <= 100000000000000000000000000,
            decreases k - j,
        {
            proof {
                lemma_pow10_le((j + 1) as nat, 26);
                assert(pow10(26) == 100000000000000000000000000) by {
                    reveal_with_fuel(pow10, 27);
                }
            }
            p = p * 10;
            j = j + 1;
        }
        let q = m / p;
        let r = m % p;
        if 2 * r >= p {
            q + 1
        } else {
            q
        }
    }
}

impl Dec {
    /// The amount in whole cents, rounded half away from zero: the
    /// schedule itself is never rounded mid-computation, so this is for
    /// comparing and reporting amounts, rounding noise included.
    pub fn rounded_cents(&self) -> (c: i128)
        requires
            self.wf(),
        ensures
            c == spec_rounded_cents(self@),
    {
        if self.m >= 0 {
            rounded_cents_nonneg(self.m, self.s)
        } else {
            -rounded_cents_nonneg(-self.m, self.s)
        }
    }
}

/// The values denoted by `a` and `b` sum to the value denoted by `c`:
/// `a.m / 10^a.s + b.m / 10^b.s == c.m / 10^c.s`, stated without division.
pub open spec fn dec_val_sum(a: DecModel, b: DecModel, c: DecModel) -> bool {
    &&& a.s >= 0
    &&& b.s >= 0
    &&& c.s >= 0
    &&& (a.m * pow10(b.s as nat) + b.m * pow10(a.s as nat)) * pow10(c.s as nat)
        == c.m * (pow10(a.s as nat) * pow10(b.s as nat))
}

/// At one shared scale, mantissas that sum exactly make values that sum
/// exactly.
pub proof fn lemma_val_sum_same_scale(a: DecModel, b: DecModel, c: DecModel)
    requires
        a.s >= 0,
        b.s == a.s,
        c.s == a.s,
        a.m + b.m == c.m,
    ensures
        dec_val_sum(a, b, c),
{
    let p = pow10(a.s as nat);
    assert((a.m * p + b.m * p) * p == c.m * (p * p)) by (nonlinear_arith)
        requires
            a.m + b.m == c.m,
    ;
}

/// A value is equal to itself plus zero, whatever the scales involved.
pub proof fn lemma_val_sum_zero_left(z: DecModel, b: DecModel, c: DecModel)
    requires
        z.m == 0,
        z.s >= 0,
        b.s >= 0,
        b == c,
    ensures
        dec_val_sum(z, b, c),
{
    let pz = pow10(z.s as nat);
    let pb = pow10(b.s as nat);
    assert((z.m * pb + b.m * pz) * pb == b.m * (pz * pb)) by (nonlinear_arith)
        requires
            z.m == 0,
    ;
}

} // verus!
