//! Exact decimal quantities, backed by `bigdecimal::BigDecimal`.

use bigdecimal::BigDecimal;
use bigdecimal::Zero;
use vstd::prelude::*;

verus! {

#[verifier::external_type_specification]
#[verifier::external_body]
pub struct ExBigDecimal(BigDecimal);

/// The number that a decimal stands for: its digits times ten to the power
/// of minus its scale.
pub uninterp spec fn decimal_value(d: BigDecimal) -> real;

/// The scale of a decimal: how many of its digits stand after the point.
pub uninterp spec fn decimal_scale(d: BigDecimal) -> int;

/// Largest scale, in either direction, that an [`Amount`] may have.
pub const MAX_SCALE: i64 = 16384;

/// Whether the scale of `d` is within [`MAX_SCALE`] of zero.
pub open spec fn scale_in_range(d: BigDecimal) -> bool {
    -MAX_SCALE <= decimal_scale(d) <= MAX_SCALE
}

/// Whether the scale of `r` lies between those of `a` and `b`.
pub open spec fn scale_between(r: BigDecimal, a: BigDecimal, b: BigDecimal) -> bool {
    let sa = decimal_scale(a);
    let sb = decimal_scale(b);
    let sr = decimal_scale(r);
    (sa <= sr || sb <= sr) && (sr <= sa || sr <= sb)
}

/// `Zero::zero` of `BigDecimal`: the digits 0 at scale 0.
#[verifier::external_body]
fn decimal_zero() -> (r: BigDecimal)
    ensures
        decimal_value(r) == 0real,
        decimal_scale(r) == 0,
{
    BigDecimal::zero()
}

/// `From<i64>` of `BigDecimal`: the integer as digits, at scale 0.
#[verifier::external_body]
fn decimal_from_i64(n: i64) -> (r: BigDecimal)
    ensures
        decimal_value(r) == n as real,
        decimal_scale(r) == 0,
{
    BigDecimal::from(n)
}

/// `BigDecimal::fractional_digit_count`, which hands out the scale.
#[verifier::external_body]
fn decimal_scale_of(d: &BigDecimal) -> (r: i64)
    ensures
        r == decimal_scale(*d),
{
    d.fractional_digit_count()
}

/// `Clone` of `BigDecimal`: the same digits at the same scale.
#[verifier::external_body]
fn decimal_clone(d: &BigDecimal) -> (r: BigDecimal)
    ensures
        r == *d,
{
    d.clone()
}

/// `&BigDecimal + &BigDecimal`. The sum is exact: the operand of smaller
/// scale is brought to the larger one by appending zeros, never rounded.
/// The result's scale lies between the operands' scales. Scales so far
/// apart that their difference overflows are kept out.
#[verifier::external_body]
fn decimal_add(a: &BigDecimal, b: &BigDecimal) -> (r: BigDecimal)
    requires
        scale_in_range(*a),
        scale_in_range(*b),
    ensures
        decimal_value(r) == decimal_value(*a) + decimal_value(*b),
        scale_between(r, *a, *b),
{
    a + b
}

/// `&BigDecimal - &BigDecimal`. The difference is exact, as the sum is, and
/// the result's scale lies between the operands' scales.
#[verifier::external_body]
fn decimal_sub(a: &BigDecimal, b: &BigDecimal) -> (r: BigDecimal)
    requires
        scale_in_range(*a),
        scale_in_range(*b),
    ensures
        decimal_value(r) == decimal_value(*a) - decimal_value(*b),
        scale_between(r, *a, *b),
{
    a - b
}

/// `Neg` of `&BigDecimal`: the digits change sign, the scale stays.
#[verifier::external_body]
fn decimal_neg(a: &BigDecimal) -> (r: BigDecimal)
    ensures
        decimal_value(r) == -decimal_value(*a),
        decimal_scale(r) == decimal_scale(*a),
{
    -a
}

/// `<=` of `BigDecimal`, which orders decimals by the numbers they stand
/// for, whatever their scales.
#[verifier::external_body]
fn decimal_le(a: &BigDecimal, b: &BigDecimal) -> (r: bool)
    requires
        scale_in_range(*a),
        scale_in_range(*b),
    ensures
        r == (decimal_value(*a) <= decimal_value(*b)),
{
    a <= b
}

/// An exact decimal quantity of money or shares, of either sign.
///
/// Its view is the real number it stands for. The scale of the decimal
/// inside is bounded by [`MAX_SCALE`], so that sums and differences stay
/// cheap to align.
pub struct Amount {
    dec: BigDecimal,
}

impl View for Amount {
    type V = real;

    closed spec fn view(&self) -> real {
        decimal_value(self.dec)
    }
}

impl Amount {
    #[verifier::type_invariant]
    closed spec fn scale_bounded(self) -> bool {
        scale_in_range(self.dec)
    }

    /// The amount zero.
    pub fn zero() -> (r: Amount)
        ensures
            r@ == 0real,
    {
        Amount { dec: decimal_zero() }
    }

    /// The whole number `n` as an amount.
    pub fn from_units(n: i64) -> (r: Amount)
        ensures
            r@ == n as real,
    {
        Amount { dec: decimal_from_i64(n) }
    }

    /// Takes a decimal as an amount, unless its scale is out of range.
    pub fn from_decimal(d: BigDecimal) -> (r: Option<Amount>)
        ensures
            r.is_some() <==> scale_in_range(d),
            r matches Some(a) ==> a@ == decimal_value(d),
    {
        let s: i64 = decimal_scale_of(&d);
        if -MAX_SCALE <= s && s <= MAX_SCALE {
            Some(Amount { dec: d })
        } else {
            None
        }
    }

    /// The decimal that this amount holds.
    pub fn to_decimal(&self) -> (r: BigDecimal)
        ensures
            decimal_value(r) == self@,
            scale_in_range(r),
    {
        proof {
            use_type_invariant(self);
        }
        decimal_clone(&self.dec)
    }

    /// `self + other`, exactly.
    pub fn plus(&self, other: &Amount) -> (r: Amount)
        ensures
            r@ == self@ + other@,
    {
        proof {
            use_type_invariant(self);
            use_type_invariant(other);
        }
        Amount { dec: decimal_add(&self.dec, &other.dec) }
    }

    /// `self - other`, exactly.
    pub fn minus(&self, other: &Amount) -> (r: Amount)
        ensures
            r@ == self@ - other@,
    {
        proof {
            use_type_invariant(self);
            use_type_invariant(other);
        }
        Amount { dec: decimal_sub(&self.dec, &other.dec) }
    }

    /// `-self`.
    pub fn negated(&self) -> (r: Amount)
        ensures
            r@ == -self@,
    {
        proof {
            use_type_invariant(self);
        }
        Amount { dec: decimal_neg(&self.dec) }
    }

    /// Whether `self <= other`.
    pub fn at_most(&self, other: &Amount) -> (r: bool)
        ensures
            r == (self@ <= other@),
    {
        proof {
            use_type_invariant(self);
            use_type_invariant(other);
        }
        decimal_le(&self.dec, &other.dec)
    }

    /// Whether the amount is zero or more.
    pub fn is_non_negative(&self) -> (r: bool)
        ensures
            r == (self@ >= 0real),
    {
        proof {
            use_type_invariant(self);
        }
        let zero = decimal_zero();
        decimal_le(&zero, &self.dec)
    }

    /// Whether the amount is more than zero.
    pub fn is_positive(&self) -> (r: bool)
        ensures
            r == (self@ > 0real),
    {
        proof {
            use_type_invariant(self);
        }
        let zero = decimal_zero();
        !decimal_le(&self.dec, &zero)
    }
}

impl Clone for Amount {
    fn clone(&self) -> (r: Amount)
        ensures
            r@ == self@,
    {
        proof {
            use_type_invariant(self);
        }
        Amount { dec: decimal_clone(&self.dec) }
    }
}

} // verus!
