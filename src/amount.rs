//! Decimal money amounts, held as a mantissa and a decimal scale.

use rust_decimal::Decimal;
use vstd::arithmetic::power::pow;
use vstd::prelude::*;

verus! {

/// The largest magnitude of a mantissa: 2^96 - 1.
pub const MAX_MANTISSA: i128 = 79228162514264337593543950335;

/// The largest number of digits after the decimal point.
pub const MAX_SCALE: u32 = 28;

/// A signed decimal number `mantissa / 10^scale`.
#[derive(Clone, Copy, Debug)]
pub struct Amount {
    pub mantissa: i128,
    pub scale: u32,
}

/// What `Decimal::checked_add` gives on two decimals, as (mantissa, scale).
pub uninterp spec fn decimal_sum(a_mantissa: i128, a_scale: u32, b_mantissa: i128, b_scale: u32) -> Option<(i128, u32)>;

/// What `Decimal::checked_sub` gives on two decimals, as (mantissa, scale).
pub uninterp spec fn decimal_difference(a_mantissa: i128, a_scale: u32, b_mantissa: i128, b_scale: u32) -> Option<(i128, u32)>;

/// The decimal digit for `d` in 0..10.
pub open spec fn digit(d: int) -> char {
    seq!['0', '1', '2', '3', '4', '5', '6', '7', '8', '9'][d]
}

/// `n` in decimal, without leading zeros.
pub open spec fn decimal_digits(n: nat) -> Seq<char>
    decreases n,
{
    if n < 10 {
        seq![digit(n as int)]
    } else {
        decimal_digits(n / 10).push(digit((n % 10) as int))
    }
}

/// The digits of a magnitude (none for zero), led by zeros up to `scale` digits.
pub open spec fn padded_digits(magnitude: nat, scale: nat) -> Seq<char> {
    let d = if magnitude == 0 { Seq::<char>::empty() } else { decimal_digits(magnitude) };
    let zeros: nat = if scale > d.len() { (scale - d.len()) as nat } else { 0 };
    Seq::new(zeros, |i: int| '0') + d
}

/// `mantissa / 10^scale` in full decimal precision: a minus sign where it is
/// negative, the whole part ("0" where it has no digits), and where the scale
/// is positive a point and exactly `scale` fraction digits.
pub open spec fn decimal_text(mantissa: i128, scale: u32) -> Seq<char> {
    let magnitude: nat = if mantissa < 0 { (-mantissa) as nat } else { mantissa as nat };
    let p = padded_digits(magnitude, scale as nat);
    let whole = p.subrange(0, p.len() - scale);
    let fraction = p.subrange(p.len() - scale, p.len() as int);
    let sign = if mantissa < 0 { seq!['-'] } else { Seq::<char>::empty() };
    let point = if scale == 0 { Seq::<char>::empty() } else { seq!['.'] + fraction };
    sign + (if whole.len() == 0 { seq!['0'] } else { whole }) + point
}

/// `10^(MAX_SCALE - scale)`: the number of smallest units in one step of the
/// last digit at that scale.
pub open spec fn unit_step(scale: nat) -> int {
    pow(10, (MAX_SCALE - scale) as nat)
}

/// Whether an exact value, in smallest units, can be held at the given scale.
pub open spec fn fits_at(units: int, scale: nat) -> bool {
    -MAX_MANTISSA * unit_step(scale) <= units <= MAX_MANTISSA * unit_step(scale)
}

pub open spec fn max_scale(a: Amount, b: Amount) -> nat {
    if a.scale >= b.scale { a.scale as nat } else { b.scale as nat }
}

/// Both operands and the exact result are representable at the larger of the
/// two scales, so decimal addition or subtraction loses nothing.
pub open spec fn exact_at_common_scale(a: Amount, b: Amount, result_units: int) -> bool {
    let s = max_scale(a, b);
    fits_at(a.units(), s) && fits_at(b.units(), s) && fits_at(result_units, s)
}

/// An optional (mantissa, scale) pair as an optional amount.
pub open spec fn amount_of(p: Option<(i128, u32)>) -> Option<Amount> {
    match p {
        Some((m, s)) => Some(Amount { mantissa: m, scale: s }),
        None => None,
    }
}

impl Amount {
    /// Mantissa within 96 bits and scale at most 28, as for every `Decimal`.
    pub open spec fn wf(self) -> bool {
        self.scale <= MAX_SCALE && -MAX_MANTISSA <= self.mantissa <= MAX_MANTISSA
    }

    /// The value in smallest units, 10^-28 each: every amount is an exact
    /// multiple of them.
    pub open spec fn units(self) -> int {
        self.mantissa * unit_step(self.scale as nat)
    }

    /// Zero, with scale zero.
    pub fn zero() -> (r: Amount)
        ensures
            r.wf(),
            r.mantissa == 0,
            r.scale == 0,
            r.units() == 0,
    {
        Amount { mantissa: 0, scale: 0 }
    }

    /// The amount `mantissa / 10^scale`, or `None` where it is out of range.
    pub fn new(mantissa: i128, scale: u32) -> (r: Option<Amount>)
        ensures
            r is Some <==> (scale <= MAX_SCALE && -MAX_MANTISSA <= mantissa <= MAX_MANTISSA),
            r matches Some(a) ==> a.mantissa == mantissa && a.scale == scale && a.wf(),
    {
        if scale <= MAX_SCALE && -MAX_MANTISSA <= mantissa && mantissa <= MAX_MANTISSA {
            Some(Amount { mantissa, scale })
        } else {
            None
        }
    }

    /// Whether this amount is strictly smaller in value than `other`.
    pub fn is_less_than(&self, other: &Amount) -> (r: bool)
        requires
            self.wf(),
            other.wf(),
        ensures
            r == (self.units() < other.units()),
    {
        decimal_less_than(self, other)
    }

    /// The decimal sum, or `None` where `Decimal` overflows.
    pub fn checked_add(&self, other: &Amount) -> (r: Option<Amount>)
        requires
            self.wf(),
            other.wf(),
        ensures
            r == amount_of(decimal_sum(self.mantissa, self.scale, other.mantissa, other.scale)),
            r matches Some(x) ==> x.wf(),
            r matches Some(x) ==> exact_at_common_scale(*self, *other, self.units() + other.units()) ==> x.units() == self.units() + other.units(),
            r is None ==> !exact_at_common_scale(*self, *other, self.units() + other.units()),
    {
        decimal_add(self, other)
    }

    /// The decimal difference `self - other`, or `None` where `Decimal` overflows.
    pub fn checked_sub(&self, other: &Amount) -> (r: Option<Amount>)
        requires
            self.wf(),
            other.wf(),
        ensures
            r == amount_of(decimal_difference(self.mantissa, self.scale, other.mantissa, other.scale)),
            r matches Some(x) ==> x.wf(),
            r matches Some(x) ==> exact_at_common_scale(*self, *other, self.units() - other.units()) ==> x.units() == self.units() - other.units(),
            r is None ==> !exact_at_common_scale(*self, *other, self.units() - other.units()),
    {
        decimal_sub(self, other)
    }

    /// The amount in full decimal precision, as `Decimal` writes it.
    pub fn to_text(&self) -> (r: String)
        requires
            self.wf(),
        ensures
            r@ == decimal_text(self.mantissa, self.scale),
    {
        decimal_to_text(self)
    }
}

/// Relies on `Decimal::from_i128_with_scale` (no panic for a mantissa within
/// 96 bits and a scale up to 28) and on `Decimal`'s `Ord`, which compares by
/// value across scales.
#[verifier::external_body]
fn decimal_less_than(a: &Amount, b: &Amount) -> (r: bool)
    requires
        a.wf(),
        b.wf(),
    ensures
        r == (a.units() < b.units()),
{
    Decimal::from_i128_with_scale(a.mantissa, a.scale) < Decimal::from_i128_with_scale(b.mantissa, b.scale)
}

/// Relies on `Decimal::checked_add`: its result always has a 96-bit mantissa and
/// a scale up to 28, and it is exact where both operands and the sum fit in 96
/// bits at the larger scale.
#[verifier::external_body]
fn decimal_add(a: &Amount, b: &Amount) -> (r: Option<Amount>)
    requires
        a.wf(),
        b.wf(),
    ensures
        r == amount_of(decimal_sum(a.mantissa, a.scale, b.mantissa, b.scale)),
        r matches Some(x) ==> x.wf(),
        r matches Some(x) ==> exact_at_common_scale(*a, *b, a.units() + b.units()) ==> x.units() == a.units() + b.units(),
        r is None ==> !exact_at_common_scale(*a, *b, a.units() + b.units()),
{
    let x = Decimal::from_i128_with_scale(a.mantissa, a.scale);
    let y = Decimal::from_i128_with_scale(b.mantissa, b.scale);
    x.checked_add(y).map(|d| Amount { mantissa: d.mantissa(), scale: d.scale() })
}

/// Relies on `Decimal::checked_sub`: its result always has a 96-bit mantissa and
/// a scale up to 28, and it is exact where both operands and the difference fit
/// in 96 bits at the larger scale.
#[verifier::external_body]
fn decimal_sub(a: &Amount, b: &Amount) -> (r: Option<Amount>)
    requires
        a.wf(),
        b.wf(),
    ensures
        r == amount_of(decimal_difference(a.mantissa, a.scale, b.mantissa, b.scale)),
        r matches Some(x) ==> x.wf(),
        r matches Some(x) ==> exact_at_common_scale(*a, *b, a.units() - b.units()) ==> x.units() == a.units() - b.units(),
        r is None ==> !exact_at_common_scale(*a, *b, a.units() - b.units()),
{
    let x = Decimal::from_i128_with_scale(a.mantissa, a.scale);
    let y = Decimal::from_i128_with_scale(b.mantissa, b.scale);
    x.checked_sub(y).map(|d| Amount { mantissa: d.mantissa(), scale: d.scale() })
}

/// Relies on `Decimal`'s `Display` with no precision given: the sign, then the
/// mantissa's digits with a point placed `scale` digits from the right.
#[verifier::external_body]
fn decimal_to_text(a: &Amount) -> (r: String)
    requires
        a.wf(),
    ensures
        r@ == decimal_text(a.mantissa, a.scale),
{
    Decimal::from_i128_with_scale(a.mantissa, a.scale).to_string()
}

} // verus!
