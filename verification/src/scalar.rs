use rustc_apfloat::Float;
use vstd::prelude::*;

verus! {

/// Bit pattern of the IEEE 754 double `0.0`.
pub const POS_ZERO_BITS: u64 = 0x0000_0000_0000_0000;

/// Bit pattern of the IEEE 754 double `-0.0`.
pub const NEG_ZERO_BITS: u64 = 0x8000_0000_0000_0000;

/// Bit pattern of the IEEE 754 double `1.0`.
pub const ONE_BITS: u64 = 0x3FF0_0000_0000_0000;

/// Bit pattern of the IEEE 754 double `-1.0`.
pub const NEG_ONE_BITS: u64 = 0xBFF0_0000_0000_0000;

/// A real number, carried as the bit pattern of an IEEE 754 double.
///
/// Holding the bits as a plain integer lets the whole expression engine be
/// verified structurally: two values are equal exactly when their bit
/// patterns are. Arithmetic on these values is performed by the trusted
/// primitives below, whose results are named, uninterpreted functions of the
/// operand bits.
#[derive(Debug, Clone, Copy, PartialEq, Eq)]
pub struct Real {
    pub bits: u64,
}

/// Whether a bit pattern is a floating-point zero (either `0.0` or `-0.0`);
/// exactly the bit patterns that the IEEE comparison with zero accepts.
pub open spec fn is_zero_bits(b: u64) -> bool {
    b == POS_ZERO_BITS || b == NEG_ZERO_BITS
}

/// A result over reals, seen as a result over their bit patterns.
pub open spec fn lift_real(r: Result<Real, crate::errors::InvalidExpression>) -> Result<
    u64,
    crate::errors::InvalidExpression,
> {
    match r {
        Ok(v) => Ok(v.bits),
        Err(e) => Err(e),
    }
}

/// The zero value, `0.0`.
pub open spec fn zero_real() -> Real {
    Real { bits: POS_ZERO_BITS }
}

/// The unit value, `1.0`.
pub open spec fn one_real() -> Real {
    Real { bits: ONE_BITS }
}

/// The value `-1.0`.
pub open spec fn neg_one_real() -> Real {
    Real { bits: NEG_ONE_BITS }
}

impl Real {
    /// Builds a real from the bit pattern of an IEEE 754 double.
    pub fn from_bits(bits: u64) -> (r: Real)
        ensures
            r.bits == bits,
    {
        Real { bits }
    }

    /// The bit pattern of this value as an IEEE 754 double.
    pub fn to_bits(&self) -> (b: u64)
        ensures
            b == self.bits,
    {
        self.bits
    }

    /// Whether this value is a floating-point zero (`0.0` or `-0.0`).
    pub fn is_zero(&self) -> (r: bool)
        ensures
            r == is_zero_bits(self.bits),
    {
        self.bits == POS_ZERO_BITS || self.bits == NEG_ZERO_BITS
    }

    /// The real `0.0`.
    pub fn zero() -> (r: Real)
        ensures
            r == zero_real(),
    {
        Real { bits: POS_ZERO_BITS }
    }

    /// The real `1.0`.
    pub fn one() -> (r: Real)
        ensures
            r == one_real(),
    {
        Real { bits: ONE_BITS }
    }

    /// The real `-1.0`.
    pub fn neg_one() -> (r: Real)
        ensures
            r == neg_one_real(),
    {
        Real { bits: NEG_ONE_BITS }
    }
}

/// The bit pattern that IEEE 754 double addition (round to nearest, ties to
/// even) returns on the given operand bit patterns.
pub uninterp spec fn add_bits(a: u64, b: u64) -> u64;

/// The bit pattern that IEEE 754 double subtraction returns on the given
/// operand bit patterns.
pub uninterp spec fn sub_bits(a: u64, b: u64) -> u64;

/// The bit pattern that IEEE 754 double multiplication returns on the given
/// operand bit patterns.
pub uninterp spec fn mul_bits(a: u64, b: u64) -> u64;

/// The bit pattern that IEEE 754 double division returns on the given
/// operand bit patterns.
pub uninterp spec fn div_bits(a: u64, b: u64) -> u64;

/// The bit pattern that IEEE 754 double negation returns on the given
/// operand bit pattern.
pub uninterp spec fn neg_bits(a: u64) -> u64;

/// The bit pattern of the double nearest to the given unsigned integer.
pub uninterp spec fn bits_of_usize(n: usize) -> u64;

/// The characters of the decimal rendering of the double with the given bit
/// pattern.
pub uninterp spec fn decimal_of(b: u64) -> Seq<char>;

/// Relies on `rustc_apfloat::ieee::Double` addition, which implements IEEE
/// 754 double addition (round to nearest, ties to even) on bit patterns.
#[verifier::external_body]
pub(crate) fn real_add(a: Real, b: Real) -> (r: Real)
    ensures
        r.bits == add_bits(a.bits, b.bits),
{
    let x = rustc_apfloat::ieee::Double::from_bits(a.bits as u128);
    let y = rustc_apfloat::ieee::Double::from_bits(b.bits as u128);
    Real { bits: (x + y).value.to_bits() as u64 }
}

/// Relies on `rustc_apfloat::ieee::Double` subtraction, which implements
/// IEEE 754 double subtraction on bit patterns.
#[verifier::external_body]
pub(crate) fn real_sub(a: Real, b: Real) -> (r: Real)
    ensures
        r.bits == sub_bits(a.bits, b.bits),
{
    let x = rustc_apfloat::ieee::Double::from_bits(a.bits as u128);
    let y = rustc_apfloat::ieee::Double::from_bits(b.bits as u128);
    Real { bits: (x - y).value.to_bits() as u64 }
}

/// Relies on `rustc_apfloat::ieee::Double` multiplication, which implements
/// IEEE 754 double multiplication on bit patterns.
#[verifier::external_body]
pub(crate) fn real_mul(a: Real, b: Real) -> (r: Real)
    ensures
        r.bits == mul_bits(a.bits, b.bits),
{
    let x = rustc_apfloat::ieee::Double::from_bits(a.bits as u128);
    let y = rustc_apfloat::ieee::Double::from_bits(b.bits as u128);
    Real { bits: (x * y).value.to_bits() as u64 }
}

/// Relies on `rustc_apfloat::ieee::Double` division, which implements IEEE
/// 754 double division on bit patterns. It never panics; a zero denominator
/// yields an infinity or NaN bit pattern.
#[verifier::external_body]
pub(crate) fn real_div(a: Real, b: Real) -> (r: Real)
    ensures
        r.bits == div_bits(a.bits, b.bits),
{
    let x = rustc_apfloat::ieee::Double::from_bits(a.bits as u128);
    let y = rustc_apfloat::ieee::Double::from_bits(b.bits as u128);
    Real { bits: (x / y).value.to_bits() as u64 }
}

/// Relies on `rustc_apfloat::ieee::Double` negation, which flips the sign of
/// a double's bit pattern as IEEE 754 negation does.
#[verifier::external_body]
pub(crate) fn real_neg(a: Real) -> (r: Real)
    ensures
        r.bits == neg_bits(a.bits),
{
    let x = rustc_apfloat::ieee::Double::from_bits(a.bits as u128);
    Real { bits: (-x).to_bits() as u64 }
}

/// Relies on `rustc_apfloat::ieee::Double::from_u128`, which rounds an
/// unsigned integer to the nearest double, deterministically in the integer
/// alone.
#[verifier::external_body]
pub(crate) fn real_of_usize(n: usize) -> (r: Real)
    ensures
        r.bits == bits_of_usize(n),
{
    let x = rustc_apfloat::ieee::Double::from_u128(n as u128);
    Real { bits: x.value.to_bits() as u64 }
}

/// Relies on the `Display` rendering of `rustc_apfloat::ieee::Double`: the
/// text depends on the value's bit pattern alone.
#[verifier::external_body]
pub(crate) fn real_decimal(a: Real) -> (r: String)
    ensures
        r@ == decimal_of(a.bits),
{
    let x = rustc_apfloat::ieee::Double::from_bits(a.bits as u128);
    format!("{}", x)
}

} // verus!
