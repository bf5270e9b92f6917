//! Signed fixed-point quantities with 80 integer bits and 48 fractional bits.
//!
//! A quantity is held as the 128-bit two's-complement integer `value`; it
//! stands for the number `value / 2^48`. Sums and comparisons are computed on
//! that integer directly. Products, quotients and roundings are computed by
//! the `fixed` crate; what it returns is stated here over plain integers.

use fixed::types::I80F48;
use vstd::prelude::*;

verus! {

/// `2^48`, the integer that stands for the number one.
pub const ONE_BITS: i128 = 281_474_976_710_656i128;

/// `2^48` as a mathematical integer.
pub open spec fn one() -> int {
    281_474_976_710_656int
}

/// Whether `x` is the raw integer of some quantity.
pub open spec fn fits(x: int) -> bool {
    i128::MIN <= x <= i128::MAX
}

/// `n / d` rounded toward zero.
pub open spec fn trunc_div(n: int, d: int) -> int
    recommends
        d != 0,
{
    if n >= 0 {
        if d > 0 {
            n / d
        } else {
            -(n / (-d))
        }
    } else {
        if d > 0 {
            -((-n) / d)
        } else {
            (-n) / (-d)
        }
    }
}

/// Raw integer of the product of two quantities: the exact product, rounded
/// toward minus infinity to a multiple of `2^-48`.
pub open spec fn mul_bits(a: int, b: int) -> int {
    (a * b) / one()
}

/// Raw integer of the quotient of two quantities: the exact quotient, rounded
/// toward zero to a multiple of `2^-48`.
pub open spec fn div_bits(a: int, b: int) -> int
    recommends
        b != 0,
{
    trunc_div(a * one(), b)
}

/// Raw integer of the largest whole number not above the quantity.
pub open spec fn floor_bits(a: int) -> int {
    (a / one()) * one()
}

/// Raw integer of the smallest whole number not below the quantity.
pub open spec fn ceil_bits(a: int) -> int {
    if a % one() == 0 {
        a
    } else {
        (a / one() + 1) * one()
    }
}

/// The product as a quantity, where it is one.
pub open spec fn spec_checked_mul(a: int, b: int) -> Option<i128> {
    if fits(mul_bits(a, b)) {
        Some(mul_bits(a, b) as i128)
    } else {
        None
    }
}

/// The quotient as a quantity, where the divisor is not zero and it is one.
pub open spec fn spec_checked_div(a: int, b: int) -> Option<i128> {
    if b != 0 && fits(div_bits(a, b)) {
        Some(div_bits(a, b) as i128)
    } else {
        None
    }
}

/// The quantity rounded up to a whole number, where that is a quantity.
pub open spec fn spec_checked_ceil(a: int) -> Option<i128> {
    if fits(ceil_bits(a)) {
        Some(ceil_bits(a) as i128)
    } else {
        None
    }
}

/// The whole part of the quantity, where it is a `u64`.
pub open spec fn spec_to_u64(a: int) -> Option<u64> {
    if 0 <= a / one() <= u64::MAX {
        Some((a / one()) as u64)
    } else {
        None
    }
}

/// The sum reduced modulo `2^128` into the range of a quantity.
pub open spec fn wrapping_sum(a: int, b: int) -> int {
    if a + b > i128::MAX {
        a + b - 0x1_0000_0000_0000_0000_0000_0000_0000_0000
    } else if a + b < i128::MIN {
        a + b + 0x1_0000_0000_0000_0000_0000_0000_0000_0000
    } else {
        a + b
    }
}

/// `I80F48::checked_mul` of the `fixed` crate, on raw integers. It forms the
/// exact 256-bit product, shifts it right by 48 bits (rounding toward minus
/// infinity) and reports overflow when the result leaves 128 bits.
#[verifier::external_body]
fn fixed_checked_mul(a: i128, b: i128) -> (r: Option<i128>)
    ensures
        r == spec_checked_mul(a as int, b as int),
{
    match I80F48::from_bits(a).checked_mul(I80F48::from_bits(b)) {
        Some(p) => Some(p.to_bits()),
        None => None,
    }
}

/// `I80F48::checked_div` of the `fixed` crate, on raw integers. It returns
/// `None` for a zero divisor; otherwise it divides the dividend, shifted left
/// by 48 bits in 256-bit arithmetic, by the divisor, rounding toward zero, and
/// reports overflow when the quotient leaves 128 bits.
#[verifier::external_body]
fn fixed_checked_div(a: i128, b: i128) -> (r: Option<i128>)
    ensures
        r == spec_checked_div(a as int, b as int),
{
    match I80F48::from_bits(a).checked_div(I80F48::from_bits(b)) {
        Some(q) => Some(q.to_bits()),
        None => None,
    }
}

/// `I80F48::checked_floor` of the `fixed` crate, on raw integers: the next
/// whole number toward minus infinity. With 80 integer bits it never
/// overflows, so the result is never `None`.
#[verifier::external_body]
fn fixed_checked_floor(a: i128) -> (r: Option<i128>)
    ensures
        r == Some(floor_bits(a as int) as i128),
{
    match I80F48::from_bits(a).checked_floor() {
        Some(f) => Some(f.to_bits()),
        None => None,
    }
}

/// `I80F48::checked_ceil` of the `fixed` crate, on raw integers: the next
/// whole number toward plus infinity, or `None` when that is above the
/// largest quantity.
#[verifier::external_body]
fn fixed_checked_ceil(a: i128) -> (r: Option<i128>)
    ensures
        r == spec_checked_ceil(a as int),
{
    match I80F48::from_bits(a).checked_ceil() {
        Some(c) => Some(c.to_bits()),
        None => None,
    }
}

/// `I80F48::checked_to_num::<u64>` of the `fixed` crate, on raw integers: it
/// drops the fractional bits (rounding toward minus infinity) and returns
/// `None` when the whole part is negative or does not fit 64 bits.
#[verifier::external_body]
fn fixed_checked_to_u64(a: i128) -> (r: Option<u64>)
    ensures
        r == spec_to_u64(a as int),
{
    I80F48::from_bits(a).checked_to_num::<u64>()
}

/// The whole number below a quantity is a quantity.
pub proof fn lemma_floor_fits(a: int)
    requires
        fits(a),
    ensures
        fits(floor_bits(a)),
        floor_bits(a) <= a,
{
    let b = one();
    vstd::arithmetic::div_mod::lemma_fundamental_div_mod(a, b);
    vstd::arithmetic::div_mod::lemma_mod_bound(a, b);
    assert((a / b) * b == b * (a / b)) by (nonlinear_arith);
    assert(i128::MIN as int == -0x8000_0000_0000_0000_0000 * b);
    vstd::arithmetic::div_mod::lemma_div_is_ordered(i128::MIN as int, a, b);
    assert((i128::MIN as int) / b == -0x8000_0000_0000_0000_0000) by {
        vstd::arithmetic::div_mod::lemma_div_multiples_vanish(-0x8000_0000_0000_0000_0000, b);
        assert(b * -0x8000_0000_0000_0000_0000 == i128::MIN as int);
    }
    assert((a / b) * b >= -0x8000_0000_0000_0000_0000 * b) by (nonlinear_arith)
        requires
            a / b >= -0x8000_0000_0000_0000_0000,
            b > 0,
    ;
}

/// A fixed-point quantity as accounts store it.
#[derive(Debug, Clone, Copy, PartialEq, Eq, Structural)]
pub struct WrappedI80F48 {
    /// The raw integer: the quantity times `2^48`.
    pub value: i128,
}

impl View for WrappedI80F48 {
    type V = int;

    open spec fn view(&self) -> int {
        self.value as int
    }
}

impl Default for WrappedI80F48 {
    fn default() -> (w: Self)
        ensures
            w@ == 0,
    {
        WrappedI80F48 { value: 0i128 }
    }
}

impl WrappedI80F48 {
    /// The quantity zero.
    pub fn zero() -> (w: Self)
        ensures
            w@ == 0,
    {
        WrappedI80F48 { value: 0i128 }
    }

    /// The quantity with the given raw integer.
    pub fn from_bits(value: i128) -> (w: Self)
        ensures
            w@ == value,
    {
        WrappedI80F48 { value }
    }

    /// The whole number `val` as a quantity.
    pub fn from_u64(val: u64) -> (w: Self)
        ensures
            w@ == val as int * one(),
    {
        assert(val as int * one() <= 0xFFFF_FFFF_FFFF_FFFF * one()) by (nonlinear_arith)
            requires
                val <= 0xFFFF_FFFF_FFFF_FFFF,
        ;
        WrappedI80F48 { value: (val as i128) * ONE_BITS }
    }

    /// The whole number `val` as a quantity.
    pub fn from_i64(val: i64) -> (w: Self)
        ensures
            w@ == val as int * one(),
    {
        assert(-0x8000_0000_0000_0000 * one() <= val as int * one() <= 0x7FFF_FFFF_FFFF_FFFF
            * one()) by (nonlinear_arith)
            requires
                -0x8000_0000_0000_0000 <= val <= 0x7FFF_FFFF_FFFF_FFFF,
        ;
        WrappedI80F48 { value: (val as i128) * ONE_BITS }
    }

    /// The sum, or `None` where it is no quantity.
    pub fn checked_add(&self, rhs: WrappedI80F48) -> (r: Option<WrappedI80F48>)
        ensures
            r.is_some() == fits(self@ + rhs@),
            r.is_some() ==> r.unwrap()@ == self@ + rhs@,
    {
        match self.value.checked_add(rhs.value) {
            Some(s) => Some(WrappedI80F48 { value: s }),
            None => None,
        }
    }

    /// The difference, or `None` where it is no quantity.
    pub fn checked_sub(&self, rhs: WrappedI80F48) -> (r: Option<WrappedI80F48>)
        ensures
            r.is_some() == fits(self@ - rhs@),
            r.is_some() ==> r.unwrap()@ == self@ - rhs@,
    {
        match self.value.checked_sub(rhs.value) {
            Some(s) => Some(WrappedI80F48 { value: s }),
            None => None,
        }
    }

    /// The sum, wrapped around at the ends of the range.
    pub fn wrapping_add(&self, rhs: WrappedI80F48) -> (r: WrappedI80F48)
        ensures
            r@ == wrapping_sum(self@, rhs@),
    {
        WrappedI80F48 { value: self.value.wrapping_add(rhs.value) }
    }

    /// The product rounded down to a multiple of `2^-48`, or `None` where it
    /// is no quantity.
    pub fn checked_mul(&self, rhs: WrappedI80F48) -> (r: Option<WrappedI80F48>)
        ensures
            r.is_some() == fits(mul_bits(self@, rhs@)),
            r.is_some() ==> r.unwrap()@ == mul_bits(self@, rhs@),
    {
        match fixed_checked_mul(self.value, rhs.value) {
            Some(p) => Some(WrappedI80F48 { value: p }),
            None => None,
        }
    }

    /// The quotient rounded toward zero to a multiple of `2^-48`, or `None`
    /// where the divisor is zero or the quotient is no quantity.
    pub fn checked_div(&self, rhs: WrappedI80F48) -> (r: Option<WrappedI80F48>)
        ensures
            r.is_some() == (rhs@ != 0 && fits(div_bits(self@, rhs@))),
            r.is_some() ==> r.unwrap()@ == div_bits(self@, rhs@),
    {
        match fixed_checked_div(self.value, rhs.value) {
            Some(q) => Some(WrappedI80F48 { value: q }),
            None => None,
        }
    }

    /// The largest whole number not above the quantity.
    pub fn floor(&self) -> (r: WrappedI80F48)
        ensures
            r@ == floor_bits(self@),
    {
        proof {
            lemma_floor_fits(self@);
        }
        match fixed_checked_floor(self.value) {
            Some(f) => WrappedI80F48 { value: f },
            None => WrappedI80F48 { value: self.value },
        }
    }

    /// The smallest whole number not below the quantity, or `None` where it
    /// is above the largest quantity.
    pub fn checked_ceil(&self) -> (r: Option<WrappedI80F48>)
        ensures
            r.is_some() == fits(ceil_bits(self@)),
            r.is_some() ==> r.unwrap()@ == ceil_bits(self@),
    {
        match fixed_checked_ceil(self.value) {
            Some(c) => Some(WrappedI80F48 { value: c }),
            None => None,
        }
    }

    /// The whole part of the quantity, or `None` where it is negative or
    /// above `u64::MAX`.
    pub fn checked_to_u64(&self) -> (r: Option<u64>)
        ensures
            r == spec_to_u64(self@),
    {
        fixed_checked_to_u64(self.value)
    }

    /// Whether the quantity is zero.
    pub fn is_zero(&self) -> (r: bool)
        ensures
            r == (self@ == 0),
    {
        self.value == 0
    }

    /// Whether the quantity is at least `rhs`.
    pub fn ge(&self, rhs: WrappedI80F48) -> (r: bool)
        ensures
            r == (self@ >= rhs@),
    {
        self.value >= rhs.value
    }

    /// Whether the quantity is above `rhs`.
    pub fn gt(&self, rhs: WrappedI80F48) -> (r: bool)
        ensures
            r == (self@ > rhs@),
    {
        self.value > rhs.value
    }
}

} // verus!
