//! Facts about rounded division that the conversions rest on.

use vstd::prelude::*;
use vstd::arithmetic::div_mod::{lemma_fundamental_div_mod, lemma_fundamental_div_mod_converse,
    lemma_mod_bound};
use vstd::arithmetic::mul::{lemma_mul_inequality, lemma_mul_is_associative,
    lemma_mul_is_commutative, lemma_mul_is_distributive_add_other_way,
    lemma_mul_strict_inequality};

verus! {

/// The quotient rounded down is the one whole number whose multiple of the
/// divisor lies at or below the dividend and less than a divisor below it.
pub proof fn lemma_floor_bounds(x: int, d: int)
    requires
        d >= 1,
    ensures
        (x / d) * d <= x < (x / d) * d + d,
{
    lemma_fundamental_div_mod(x, d);
    lemma_mod_bound(x, d);
    lemma_mul_is_commutative(d, x / d);
}

/// A whole number whose multiple of the divisor lies at or below the
/// dividend and less than a divisor below it is the quotient rounded down.
pub proof fn lemma_floor_is(x: int, d: int, q: int)
    requires
        d >= 1,
        q * d <= x < q * d + d,
    ensures
        x / d == q,
        x % d == x - q * d,
{
    lemma_fundamental_div_mod_converse(x, d, q, x - q * d);
}

/// The quotient rounded up, `(x + d - 1) / d`, is the least whole number
/// whose multiple of the divisor reaches the dividend.
pub proof fn lemma_ceil_bounds(x: int, d: int)
    requires
        d >= 1,
    ensures
        ((x + d - 1) / d) * d - d < x <= ((x + d - 1) / d) * d,
{
    lemma_floor_bounds(x + d - 1, d);
}

/// A whole number whose multiple of the divisor reaches the dividend, and
/// not by a whole divisor or more, is the quotient rounded up.
pub proof fn lemma_ceil_is(x: int, d: int, q: int)
    requires
        d >= 1,
        q * d - d < x <= q * d,
    ensures
        (x + d - 1) / d == q,
{
    lemma_floor_is(x + d - 1, d, q);
}

/// Multiplying both sides by a number that is not negative keeps `<=`.
pub proof fn lemma_scale_le(a: int, b: int, c: int)
    requires
        a <= b,
        c >= 0,
    ensures
        a * c <= b * c,
{
    lemma_mul_inequality(a, b, c);
}

/// Multiplying both sides by a positive number keeps `<`.
pub proof fn lemma_scale_lt(a: int, b: int, c: int)
    requires
        a < b,
        c > 0,
    ensures
        a * c < b * c,
{
    lemma_mul_strict_inequality(a, b, c);
}

/// `(a + 1) * c` is `a * c + c`.
pub proof fn lemma_next_multiple(a: int, c: int)
    ensures
        (a + 1) * c == a * c + c,
        (a - 1) * c == a * c - c,
{
    lemma_mul_is_distributive_add_other_way(c, a, 1);
    lemma_mul_is_distributive_add_other_way(c, a, -1);
}

/// `(a * b) * c` is `a * (b * c)` and `(a * c) * b`.
pub proof fn lemma_regroup(a: int, b: int, c: int)
    ensures
        (a * b) * c == a * (b * c),
        (a * b) * c == (a * c) * b,
{
    lemma_mul_is_associative(a, b, c);
    lemma_mul_is_commutative(b, c);
    lemma_mul_is_associative(a, c, b);
}

/// A product of two numbers below the bounds of a 64-bit and a 32-bit
/// unsigned integer fits in 96 bits.
pub proof fn lemma_product_fits(a: int, b: int)
    requires
        0 <= a <= 0xffff_ffff_ffff_ffff,
        0 <= b <= 0xffff_ffff,
    ensures
        0 <= a * b <= 0xffff_ffff_ffff_ffff * 0xffff_ffff,
{
    lemma_mul_inequality(0, a, b);
    lemma_mul_inequality(a, 0xffff_ffff_ffff_ffff, b);
    lemma_mul_is_commutative(0xffff_ffff_ffff_ffff, b);
    lemma_mul_inequality(b, 0xffff_ffff, 0xffff_ffff_ffff_ffff);
    lemma_mul_is_commutative(0xffff_ffff, 0xffff_ffff_ffff_ffff);
}

} // verus!
