//! Arbitrary-precision integer arithmetic, consumed as a primitive
//! capability through `num_bigint::BigInt`.
//!
//! Every value of `BigInt` is modelled in specifications by the
//! mathematical integer it holds, named by `big_value`.  Each operation the
//! progression logic needs is wrapped once, with a contract over
//! `big_value` that matches what `num_bigint`'s source does.  `BigInt`'s
//! `/` and `%` truncate toward zero, so their contracts are stated through
//! the truncating spec functions `div_trunc` and `rem_trunc`.
//!
//! The module also carries the one string-building wrapper the canonical
//! text rendering needs.

use vstd::prelude::*;
use num_bigint::BigInt;
use num_integer::Integer;
use num_traits::{Signed, ToPrimitive, Zero};

verus! {

#[verifier::external_type_specification]
#[verifier::external_body]
pub struct ExBigInt(BigInt);

/// The mathematical integer a `BigInt` holds.
pub uninterp spec fn big_value(b: BigInt) -> int;

/// The decimal text that formatting an integer produces.
pub uninterp spec fn decimal_of(v: int) -> Seq<char>;

/// Division truncating toward zero, as `BigInt`'s `/` computes it.
/// (Verus's own `/` on `int` is Euclidean; the two agree when the
/// dividend is non-negative and the divisor positive.)
pub open spec fn div_trunc(a: int, b: int) -> int
    recommends
        b != 0,
{
    if a >= 0 {
        if b > 0 {
            a / b
        } else {
            -(a / -b)
        }
    } else {
        if b > 0 {
            -(-a / b)
        } else {
            -a / -b
        }
    }
}

/// Remainder of truncating division; its sign follows the dividend.
pub open spec fn rem_trunc(a: int, b: int) -> int
    recommends
        b != 0,
{
    a - b * div_trunc(a, b)
}

/// The absolute value of an integer.
pub open spec fn abs_int(a: int) -> int {
    if a >= 0 {
        a
    } else {
        -a
    }
}

/// Relies on `<BigInt as From<i64>>::from`: the result holds the given value.
#[verifier::external_body]
pub fn big_from_i64(x: i64) -> (r: BigInt)
    ensures
        big_value(r) == x as int,
{
    BigInt::from(x)
}

/// Relies on `<BigInt as Clone>::clone`: the copy holds the same value.
#[verifier::external_body]
pub fn big_clone(a: &BigInt) -> (r: BigInt)
    ensures
        big_value(r) == big_value(*a),
{
    a.clone()
}

/// Relies on `<BigInt as PartialEq>::eq`: equality of the held values.
#[verifier::external_body]
pub fn big_eq(a: &BigInt, b: &BigInt) -> (r: bool)
    ensures
        r <==> big_value(*a) == big_value(*b),
{
    a == b
}

/// Relies on `<BigInt as PartialOrd>::lt`: order of the held values.
#[verifier::external_body]
pub fn big_lt(a: &BigInt, b: &BigInt) -> (r: bool)
    ensures
        r <==> big_value(*a) < big_value(*b),
{
    a < b
}

/// Relies on `<&BigInt as Add>::add`: exact integer addition.
#[verifier::external_body]
pub fn big_add(a: &BigInt, b: &BigInt) -> (r: BigInt)
    ensures
        big_value(r) == big_value(*a) + big_value(*b),
{
    a + b
}

/// Relies on `<&BigInt as Sub>::sub`: exact integer subtraction.
#[verifier::external_body]
pub fn big_sub(a: &BigInt, b: &BigInt) -> (r: BigInt)
    ensures
        big_value(r) == big_value(*a) - big_value(*b),
{
    a - b
}

/// Relies on `<&BigInt as Mul>::mul`: exact integer multiplication.
#[verifier::external_body]
pub fn big_mul(a: &BigInt, b: &BigInt) -> (r: BigInt)
    ensures
        big_value(r) == big_value(*a) * big_value(*b),
{
    a * b
}

/// Relies on `<&BigInt as Neg>::neg`: exact integer negation.
#[verifier::external_body]
pub fn big_neg(a: &BigInt) -> (r: BigInt)
    ensures
        big_value(r) == -big_value(*a),
{
    -a
}

/// Relies on `<BigInt as Signed>::abs`: the absolute value.
#[verifier::external_body]
pub fn big_abs(a: &BigInt) -> (r: BigInt)
    ensures
        big_value(r) == abs_int(big_value(*a)),
{
    a.abs()
}

/// Relies on `<&BigInt as Div>::div`: quotient of truncating division
/// (`div_rem` in `num_bigint` truncates toward zero).  Panics on a zero
/// divisor, so that input is excluded.
#[verifier::external_body]
pub fn big_div(a: &BigInt, b: &BigInt) -> (r: BigInt)
    requires
        big_value(*b) != 0,
    ensures
        big_value(r) == div_trunc(big_value(*a), big_value(*b)),
{
    a / b
}

/// Relies on `<&BigInt as Rem>::rem`: remainder of truncating division,
/// its sign following the dividend.  Panics on a zero divisor, so that
/// input is excluded.
#[verifier::external_body]
pub fn big_rem(a: &BigInt, b: &BigInt) -> (r: BigInt)
    requires
        big_value(*b) != 0,
    ensures
        big_value(r) == rem_trunc(big_value(*a), big_value(*b)),
{
    a % b
}

/// Relies on `<BigInt as Integer>::is_multiple_of`: divisibility of the
/// magnitudes; with a zero divisor it holds only of zero.
#[verifier::external_body]
pub fn big_is_multiple_of(a: &BigInt, b: &BigInt) -> (r: bool)
    ensures
        big_value(*b) != 0 ==> (r <==> abs_int(big_value(*a)) % abs_int(big_value(*b)) == 0),
        big_value(*b) == 0 ==> (r <==> big_value(*a) == 0),
{
    a.is_multiple_of(b)
}

/// Relies on `<BigInt as Zero>::is_zero`.
#[verifier::external_body]
pub fn big_is_zero(a: &BigInt) -> (r: bool)
    ensures
        r <==> big_value(*a) == 0,
{
    a.is_zero()
}

/// Relies on `<BigInt as Signed>::is_positive`: the sign is `Plus`.
#[verifier::external_body]
pub fn big_is_positive(a: &BigInt) -> (r: bool)
    ensures
        r <==> big_value(*a) > 0,
{
    a.is_positive()
}

/// Relies on `<BigInt as Signed>::is_negative`: the sign is `Minus`.
#[verifier::external_body]
pub fn big_is_negative(a: &BigInt) -> (r: bool)
    ensures
        r <==> big_value(*a) < 0,
{
    a.is_negative()
}

/// Relies on `<BigInt as ToPrimitive>::to_usize`: the value itself when
/// it fits in `usize`, nothing otherwise.
#[verifier::external_body]
pub fn big_to_usize(a: &BigInt) -> (r: Option<usize>)
    ensures
        match r {
            Some(n) => n as int == big_value(*a),
            None => !(0 <= big_value(*a) <= usize::MAX as int),
        },
{
    a.to_usize()
}

/// Relies on `<BigInt as Display>`: the decimal rendering of the held
/// value, a function of that value alone.
#[verifier::external_body]
pub fn big_to_decimal(a: &BigInt) -> (r: String)
    ensures
        r@ == decimal_of(big_value(*a)),
{
    format!("{}", a)
}

/// Relies on `String::push_str`: appends the given text.
#[verifier::external_body]
pub fn str_append(s: &mut String, t: &str)
    ensures
        final(s)@ == old(s)@ + t@,
{
    s.push_str(t)
}

} // verus!
