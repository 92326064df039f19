//! Exact fixed-point helpers: ratios of integers with 18 decimal places and
//! `a * num / den` products formed at double width.

use cosmwasm_std::{CheckedMultiplyRatioError, Isqrt, Uint128, Uint256};
use crate::error::PoolError;
use vstd::arithmetic::div_mod::{lemma_fundamental_div_mod, lemma_fundamental_div_mod_converse};
use vstd::prelude::*;

verus! {

/// Scale of a `Decimal`: one whole unit is this many atomics.
pub const DECIMAL_FRACTIONAL: u128 = 1_000_000_000_000_000_000;

/// The square of `DECIMAL_FRACTIONAL`, used to invert a `Decimal`.
pub const DECIMAL_FRACTIONAL_SQUARED: u128 = 1_000_000_000_000_000_000_000_000_000_000_000_000;

/// `a * num / den`, rounded down.
pub open spec fn mul_div(a: int, num: int, den: int) -> int {
    a * num / den
}

/// A fraction of at most one of `a` is at most `a`.
pub proof fn lemma_mul_div_at_most(a: int, num: int, den: int)
    requires
        a >= 0,
        0 <= num <= den,
        den > 0,
    ensures
        0 <= mul_div(a, num, den) <= a,
{
    assert(0 <= a * num <= a * den) by (nonlinear_arith)
        requires
            a >= 0,
            0 <= num <= den,
    ;
    vstd::arithmetic::div_mod::lemma_div_is_ordered(0, a * num, den);
    vstd::arithmetic::div_mod::lemma_div_is_ordered(a * num, a * den, den);
    assert(a * den / den == a) by (nonlinear_arith)
        requires
            den > 0,
    ;
}

#[verifier::external_type_specification]
#[verifier::external_body]
pub struct ExCheckedMultiplyRatioError(CheckedMultiplyRatioError);

/// Relies on `cosmwasm_std::Uint128::checked_multiply_ratio`: `a * num / den` rounded down,
/// formed through a 256-bit product, failing only when the quotient does not fit in `u128`
/// (a zero denominator, its other failure, is excluded here).
#[verifier::external_body]
fn checked_multiply_ratio(a: u128, num: u128, den: u128) -> (r: Result<u128, CheckedMultiplyRatioError>)
    requires
        den > 0,
    ensures
        r.is_ok() <==> mul_div(a as int, num as int, den as int) <= u128::MAX,
        r.is_ok() ==> r.unwrap() == mul_div(a as int, num as int, den as int),
{
    match Uint128::new(a).checked_multiply_ratio(num, den) {
        Ok(v) => Ok(v.u128()),
        Err(e) => Err(e),
    }
}

/// `a * num / den` rounded down, or `None` when it does not fit in `u128`.
pub fn multiply_ratio(a: u128, num: u128, den: u128) -> (r: Option<u128>)
    requires
        den > 0,
    ensures
        r.is_some() <==> mul_div(a as int, num as int, den as int) <= u128::MAX,
        r.is_some() ==> r.unwrap() == mul_div(a as int, num as int, den as int),
{
    match checked_multiply_ratio(a, num, den) {
        Ok(v) => Some(v),
        Err(_) => None,
    }
}

/// Relies on `cosmwasm_std::Uint128::full_mul` and `cosmwasm_std::Isqrt::isqrt`: the integer
/// square root of the exact 256-bit product `a * b`, which always fits in `u128`.
#[verifier::external_body]
pub(crate) fn isqrt_of_product(a: u128, b: u128) -> (r: u128)
    ensures
        r * r <= a * b,
        a * b < (r + 1) * (r + 1),
{
    let root = Uint128::new(a).full_mul(b).isqrt();
    Uint128::try_from(root).unwrap().u128()
}

/// A non-negative number with 18 decimal places, `atomics / 10^18`.
#[derive(Clone, Copy, Debug, PartialEq, Eq, Structural)]
pub struct Decimal {
    pub atomics: u128,
}

impl Decimal {
    /// The decimal whose atomics are `atomics`.
    pub fn raw(atomics: u128) -> (r: Decimal)
        ensures
            r.atomics == atomics,
    {
        Decimal { atomics }
    }

    pub fn zero() -> (r: Decimal)
        ensures
            r.atomics == 0,
    {
        Decimal { atomics: 0 }
    }

    pub fn one() -> (r: Decimal)
        ensures
            r.atomics == DECIMAL_FRACTIONAL,
    {
        Decimal { atomics: DECIMAL_FRACTIONAL }
    }

    /// `x / 100`.
    pub fn percent(x: u64) -> (r: Decimal)
        ensures
            r.atomics == x * 10_000_000_000_000_000,
    {
        Decimal { atomics: (x as u128) * 10_000_000_000_000_000 }
    }

    /// `x / 1000`.
    pub fn permille(x: u64) -> (r: Decimal)
        ensures
            r.atomics == x * 1_000_000_000_000_000,
    {
        Decimal { atomics: (x as u128) * 1_000_000_000_000_000 }
    }

    /// `num / den`, truncated to 18 decimal places; `None` when it exceeds the range.
    pub fn checked_from_ratio(num: u128, den: u128) -> (r: Option<Decimal>)
        requires
            den > 0,
        ensures
            r.is_some() <==> mul_div(num as int, DECIMAL_FRACTIONAL as int, den as int) <= u128::MAX,
            r.is_some() ==> r.unwrap().atomics == mul_div(num as int, DECIMAL_FRACTIONAL as int, den as int),
    {
        match multiply_ratio(num, DECIMAL_FRACTIONAL, den) {
            Some(a) => Some(Decimal { atomics: a }),
            None => None,
        }
    }

    /// `num / den`, truncated to 18 decimal places.
    pub fn from_ratio(num: u128, den: u128) -> (r: Decimal)
        requires
            den > 0,
            mul_div(num as int, DECIMAL_FRACTIONAL as int, den as int) <= u128::MAX,
        ensures
            r.atomics == mul_div(num as int, DECIMAL_FRACTIONAL as int, den as int),
    {
        match multiply_ratio(num, DECIMAL_FRACTIONAL, den) {
            Some(a) => Decimal { atomics: a },
            None => Decimal { atomics: 0 },
        }
    }

    pub fn is_zero(&self) -> (r: bool)
        ensures
            r == (self.atomics == 0),
    {
        self.atomics == 0
    }

    /// `1 / self`, truncated to 18 decimal places; `None` for zero.
    pub fn inv(&self) -> (r: Option<Decimal>)
        ensures
            self.atomics == 0 ==> r.is_none(),
            self.atomics != 0 ==> r == Some(
                Decimal { atomics: (DECIMAL_FRACTIONAL_SQUARED / self.atomics) as u128 },
            ),
    {
        if self.atomics == 0 {
            None
        } else {
            Some(Decimal { atomics: DECIMAL_FRACTIONAL_SQUARED / self.atomics })
        }
    }
}

/// Multiplication of an integer amount by a fractional factor, rounded down.
pub trait DecMul<T>: Sized {
    /// Whether the product fits in `Self`.
    spec fn dec_mul_fits(self, rhs: T) -> bool;

    /// The product, rounded down.
    spec fn dec_mul_spec(self, rhs: T) -> Self;

    fn dec_mul(self, rhs: T) -> (r: Self)
        requires
            self.dec_mul_fits(rhs),
        ensures
            r == self.dec_mul_spec(rhs),
    ;
}

impl DecMul<Decimal> for u128 {
    open spec fn dec_mul_fits(self, rhs: Decimal) -> bool {
        mul_div(self as int, rhs.atomics as int, DECIMAL_FRACTIONAL as int) <= u128::MAX
    }

    open spec fn dec_mul_spec(self, rhs: Decimal) -> u128 {
        mul_div(self as int, rhs.atomics as int, DECIMAL_FRACTIONAL as int) as u128
    }

    fn dec_mul(self, rhs: Decimal) -> (r: u128) {
        if self == 0 || rhs.atomics == 0 {
            return 0;
        }
        match multiply_ratio(self, rhs.atomics, DECIMAL_FRACTIONAL) {
            Some(v) => v,
            None => 0,
        }
    }
}

/// `10^n`.
pub open spec fn pow10(n: nat) -> nat
    decreases n,
{
    if n == 0 {
        1
    } else {
        10 * pow10((n - 1) as nat)
    }
}

/// The largest power of ten that fits in `u128` is `10^38`.
pub const MAX_PRECISION: u32 = 38;

proof fn lemma_pow10_bounded(n: nat)
    requires
        n <= MAX_PRECISION,
    ensures
        1 <= pow10(n) <= pow10(MAX_PRECISION as nat),
        pow10(MAX_PRECISION as nat) == 100_000_000_000_000_000_000_000_000_000_000_000_000,
    decreases MAX_PRECISION - n,
{
    reveal_with_fuel(pow10, 39);
    if n < MAX_PRECISION {
        lemma_pow10_bounded(n + 1);
        lemma_pow10_positive(n);
    }
    lemma_pow10_positive(n);
}

proof fn lemma_pow10_positive(n: nat)
    ensures
        pow10(n) >= 1,
    decreases n,
{
    if n > 0 {
        lemma_pow10_positive((n - 1) as nat);
    }
}

/// `10^precision`, for a precision of at most 38 decimal places.
pub fn pow10_exec(precision: u32) -> (r: u128)
    requires
        precision <= MAX_PRECISION,
    ensures
        r == pow10(precision as nat),
{
    let mut v: u128 = 1;
    let mut i: u32 = 0;
    while i < precision
        invariant
            i <= precision <= MAX_PRECISION,
            v == pow10(i as nat),
        decreases precision - i,
    {
        proof {
            lemma_pow10_bounded((i + 1) as nat);
            assert(pow10((i + 1) as nat) == 10 * pow10(i as nat));
        }
        v = v * 10;
        i = i + 1;
    }
    v
}

/// Whether `10^a <= 10^b` for `a <= b`.
proof fn lemma_pow10_monotonic(a: nat, b: nat)
    requires
        a <= b,
    ensures
        1 <= pow10(a) <= pow10(b),
    decreases b - a,
{
    lemma_pow10_positive(a);
    if a < b {
        lemma_pow10_monotonic(a, (b - 1) as nat);
        lemma_pow10_positive((b - 1) as nat);
    }
}

/// `2^128`, one word of a `U256`.
pub open spec fn word() -> int {
    u128::MAX + 1
}

/// `2^256`, the range of a `U256`.
pub open spec fn wide_limit() -> int {
    word() * word()
}

/// An unsigned 256-bit integer as two 128-bit words, `hi * 2^128 + lo`.
#[derive(Clone, Copy, Debug, PartialEq, Eq, Structural)]
pub struct U256 {
    pub hi: u128,
    pub lo: u128,
}

/// The `U256` of value `v`, for `0 <= v < 2^256`.
pub open spec fn u256_of(v: int) -> U256 {
    U256 { hi: (v / word()) as u128, lo: (v % word()) as u128 }
}

impl U256 {
    pub open spec fn value(self) -> int {
        self.hi * word() + self.lo
    }

    pub fn from_u128(x: u128) -> (r: U256)
        ensures
            r.value() == x,
    {
        U256 { hi: 0, lo: x }
    }

    pub fn zero() -> (r: U256)
        ensures
            r.value() == 0,
    {
        U256 { hi: 0, lo: 0 }
    }

    /// The largest `U256`, `2^256 - 1`.
    pub fn max() -> (r: U256)
        ensures
            r.value() == wide_limit() - 1,
    {
        proof {
            assert(u128::MAX * word() + u128::MAX == word() * word() - 1) by (nonlinear_arith);
        }
        U256 { hi: u128::MAX, lo: u128::MAX }
    }

    pub fn is_zero(&self) -> (r: bool)
        ensures
            r == (self.value() == 0),
    {
        proof {
            lemma_u256_value(*self);
        }
        self.hi == 0 && self.lo == 0
    }
}

/// A `U256`'s value lies in `[0, 2^256)`, it fits in `u128` exactly when its high word is
/// zero, and it is the one `U256` of that value.
pub proof fn lemma_u256_value(w: U256)
    ensures
        0 <= w.value() < wide_limit(),
        w.value() <= u128::MAX <==> w.hi == 0,
        u256_of(w.value()) == w,
{
    assert(0 <= w.hi * word() <= u128::MAX * word()) by (nonlinear_arith)
        requires
            0 <= w.hi <= u128::MAX,
    ;
    assert(u128::MAX * word() + u128::MAX < word() * word()) by (nonlinear_arith);
    if w.hi > 0 {
        assert(w.hi * word() >= word()) by (nonlinear_arith)
            requires
                w.hi >= 1,
        ;
    }
    lemma_fundamental_div_mod_converse(w.value(), word(), w.hi as int, w.lo as int);
}

/// The `U256` of a value in range has that value.
pub proof fn lemma_u256_of(v: int)
    requires
        0 <= v < wide_limit(),
    ensures
        u256_of(v).value() == v,
{
    lemma_fundamental_div_mod(v, word());
    vstd::arithmetic::div_mod::lemma_div_pos_is_pos(v, word());
    assert(v / word() < word()) by {
        vstd::arithmetic::div_mod::lemma_div_is_ordered(v, wide_limit() - 1, word());
        assert((word() * word() - 1) / word() == word() - 1) by {
            lemma_fundamental_div_mod_converse(word() * word() - 1, word(), word() - 1, word() - 1);
        }
    }
    assert(word() * (v / word()) == (v / word()) * word()) by (nonlinear_arith);
}

/// Relies on `cosmwasm_std::Uint256::checked_multiply_ratio`: `a * num / den` rounded down,
/// formed through a 512-bit product, failing only when the quotient does not fit in 256
/// bits (a zero denominator, its other failure, is excluded here).
#[verifier::external_body]
fn checked_multiply_ratio_256(a: U256, num: U256, den: U256) -> (r: Result<U256, CheckedMultiplyRatioError>)
    requires
        den.value() > 0,
    ensures
        r.is_ok() <==> mul_div(a.value(), num.value(), den.value()) < wide_limit(),
        r matches Ok(v) ==> v.value() == mul_div(a.value(), num.value(), den.value()),
{
    let a = Uint256::from_be_bytes([a.hi.to_be_bytes(), a.lo.to_be_bytes()].concat().try_into().unwrap());
    let num = Uint256::from_be_bytes([num.hi.to_be_bytes(), num.lo.to_be_bytes()].concat().try_into().unwrap());
    let den = Uint256::from_be_bytes([den.hi.to_be_bytes(), den.lo.to_be_bytes()].concat().try_into().unwrap());
    match a.checked_multiply_ratio(num, den) {
        Ok(v) => {
            let b = v.to_be_bytes();
            Ok(U256 { hi: u128::from_be_bytes(b[..16].try_into().unwrap()), lo: u128::from_be_bytes(b[16..].try_into().unwrap()) })
        },
        Err(e) => Err(e),
    }
}

/// `a * num / den` rounded down, or `None` when it does not fit in 256 bits.
pub fn multiply_ratio_256(a: U256, num: U256, den: U256) -> (r: Option<U256>)
    requires
        den.value() > 0,
    ensures
        r.is_some() <==> mul_div(a.value(), num.value(), den.value()) < wide_limit(),
        r matches Some(v) ==> v.value() == mul_div(a.value(), num.value(), den.value()),
{
    match checked_multiply_ratio_256(a, num, den) {
        Ok(v) => Some(v),
        Err(_) => None,
    }
}

/// A quotient whose numerator fits in 256 bits fits too.
proof fn lemma_mul_div_below(a: int, num: int, den: int, bound: int)
    requires
        a >= 0,
        num >= 0,
        den >= 1,
        a * num < bound,
    ensures
        0 <= mul_div(a, num, den) < bound,
{
    assert(a * num >= 0) by (nonlinear_arith)
        requires
            a >= 0,
            num >= 0,
    ;
    vstd::arithmetic::div_mod::lemma_div_pos_is_pos(a * num, den);
    vstd::arithmetic::div_mod::lemma_div_is_ordered_by_denominator(a * num, 1, den);
}

/// A non-negative number with 18 decimal places over 256-bit atomics, `atomics / 10^18`.
#[derive(Clone, Copy, Debug, PartialEq, Eq, Structural)]
pub struct Decimal256 {
    pub atomics: U256,
}

impl Decimal256 {
    pub fn raw(atomics: U256) -> (r: Decimal256)
        ensures
            r.atomics == atomics,
    {
        Decimal256 { atomics }
    }

    pub fn one() -> (r: Decimal256)
        ensures
            r.atomics.value() == DECIMAL_FRACTIONAL,
    {
        Decimal256 { atomics: U256::from_u128(DECIMAL_FRACTIONAL) }
    }

    /// `num / den`, truncated to 18 decimal places; it always fits.
    pub fn from_ratio(num: u128, den: u128) -> (r: Decimal256)
        requires
            den > 0,
        ensures
            r.atomics.value() == mul_div(num as int, DECIMAL_FRACTIONAL as int, den as int),
    {
        proof {
            assert(num * DECIMAL_FRACTIONAL < wide_limit()) by (nonlinear_arith)
                requires
                    num <= u128::MAX,
            ;
            lemma_mul_div_below(num as int, DECIMAL_FRACTIONAL as int, den as int, wide_limit());
        }
        match multiply_ratio_256(U256::from_u128(num), U256::from_u128(DECIMAL_FRACTIONAL), U256::from_u128(den)) {
            Some(a) => Decimal256 { atomics: a },
            None => Decimal256 { atomics: U256::zero() },
        }
    }
}

impl DecMul<Decimal256> for U256 {
    open spec fn dec_mul_fits(self, rhs: Decimal256) -> bool {
        mul_div(self.value(), rhs.atomics.value(), DECIMAL_FRACTIONAL as int) < wide_limit()
    }

    open spec fn dec_mul_spec(self, rhs: Decimal256) -> U256 {
        u256_of(mul_div(self.value(), rhs.atomics.value(), DECIMAL_FRACTIONAL as int))
    }

    fn dec_mul(self, rhs: Decimal256) -> (r: U256) {
        if self.is_zero() || rhs.atomics.is_zero() {
            proof {
                lemma_u256_of(0);
                lemma_u256_value(U256 { hi: 0, lo: 0 });
            }
            return U256 { hi: 0, lo: 0 };
        }
        match multiply_ratio_256(self, rhs.atomics, U256::from_u128(DECIMAL_FRACTIONAL)) {
            Some(v) => {
                proof {
                    lemma_u256_value(v);
                }
                v
            },
            None => U256 { hi: 0, lo: 0 },
        }
    }
}

/// An integer amount with `precision` decimal places as a `Decimal256`: `x / 10^precision`
/// truncated to 18 decimal places. It always fits. Precisions beyond 38 are left out, as
/// `10^precision` then exceeds `u128`.
pub fn to_decimal_at(x: u128, precision: u32) -> (r: Decimal256)
    requires
        precision <= MAX_PRECISION,
    ensures
        r.atomics.value() == mul_div(x as int, DECIMAL_FRACTIONAL as int, pow10(precision as nat) as int),
{
    proof {
        lemma_pow10_bounded(precision as nat);
    }
    let scale = pow10_exec(precision);
    Decimal256::from_ratio(x, scale)
}

/// `10^precision` as a `U256`, where it fits.
fn pow10_wide(precision: u32) -> (r: U256)
    requires
        pow10(precision as nat) < wide_limit(),
    ensures
        r.value() == pow10(precision as nat),
{
    let mut v = U256::from_u128(1);
    let mut i: u32 = 0;
    while i < precision
        invariant
            i <= precision,
            pow10(precision as nat) < wide_limit(),
            v.value() == pow10(i as nat),
        decreases precision - i,
    {
        proof {
            lemma_pow10_monotonic((i + 1) as nat, precision as nat);
            assert(pow10((i + 1) as nat) == 10 * pow10(i as nat));
            assert(mul_div(v.value(), 10, 1) == pow10((i + 1) as nat));
        }
        v = match multiply_ratio_256(v, U256::from_u128(10), U256::from_u128(1)) {
            Some(n) => n,
            None => v,
        };
        i = i + 1;
    }
    v
}

/// A `Decimal256` as an integer amount with `precision` decimal places, rounded down:
/// `d * 10^precision`; `Overflow` when it does not fit in `u128`, never wrapped. The
/// product `10^precision * atomics` must fit in 256 bits.
pub fn to_uint(d: Decimal256, precision: u32) -> (r: Result<u128, PoolError>)
    requires
        pow10(precision as nat) < wide_limit(),
        pow10(precision as nat) * d.atomics.value() < wide_limit(),
    ensures
        r.is_ok() <==> mul_div(pow10(precision as nat) as int, d.atomics.value(), DECIMAL_FRACTIONAL as int)
            <= u128::MAX,
        r matches Ok(v) ==> v == mul_div(
            pow10(precision as nat) as int,
            d.atomics.value(),
            DECIMAL_FRACTIONAL as int,
        ),
        r matches Err(e) ==> e == PoolError::Overflow,
{
    let multiplier = pow10_wide(precision);
    proof {
        lemma_u256_value(d.atomics);
        lemma_mul_div_below(multiplier.value(), d.atomics.value(), DECIMAL_FRACTIONAL as int, wide_limit());
    }
    match multiply_ratio_256(multiplier, d.atomics, U256::from_u128(DECIMAL_FRACTIONAL)) {
        Some(q) => {
            proof {
                lemma_u256_value(q);
            }
            if q.hi != 0 {
                Err(PoolError::Overflow)
            } else {
                Ok(q.lo)
            }
        },
        None => Err(PoolError::Overflow),
    }
}

/// A whole integer as a `Decimal`, where it fits.
pub fn to_decimal(x: u128) -> (r: Decimal)
    requires
        x * DECIMAL_FRACTIONAL <= u128::MAX,
    ensures
        r.atomics == x * DECIMAL_FRACTIONAL,
{
    proof {
        assert(mul_div(x as int, DECIMAL_FRACTIONAL as int, 1) == x * DECIMAL_FRACTIONAL);
    }
    Decimal::from_ratio(x, 1)
}

} // verus!
