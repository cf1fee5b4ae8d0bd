//! Decimal arithmetic on unscaled integers: precision, rescaling with
//! rounding, and the policy on overflow.

use crate::digits::{lemma_pow10_increases, lemma_pow10_values, pow10};
use vstd::arithmetic::div_mod::lemma_fundamental_div_mod;
use vstd::prelude::*;

verus! {

/// The largest precision a decimal can have.
pub const MAX_PRECISION: u8 = 38;

/// What becomes of a value that does not fit.
#[derive(Debug, Clone, Copy, PartialEq, Eq, Structural)]
pub enum OverflowPolicy {
    /// The value becomes null.
    Lenient,
    /// The evaluation of the batch fails with an arithmetic overflow.
    Strict,
}

impl Default for OverflowPolicy {
    /// Overflow is signalled unless the caller asks for nulls.
    fn default() -> (p: OverflowPolicy)
        ensures
            p == OverflowPolicy::Strict,
    {
        OverflowPolicy::Strict
    }
}

/// Whether a precision and a scale describe a decimal type.
pub open spec fn valid_type(precision: nat, scale: nat) -> bool {
    1 <= precision <= MAX_PRECISION && scale <= precision
}

/// Whether an unscaled integer has at most `precision` digits.
pub open spec fn fits(v: int, precision: nat) -> bool {
    -pow10(precision) < v < pow10(precision)
}

/// The magnitude of an integer.
pub open spec fn magnitude(v: int) -> nat {
    if v < 0 {
        (-v) as nat
    } else {
        v as nat
    }
}

/// `v / d` rounded to the nearest integer, a half away from zero.
pub open spec fn divide_rounding(v: int, d: nat) -> int {
    let a = magnitude(v);
    let q = a / d;
    let m = if 2 * (a % d) >= d {
        q + 1
    } else {
        q
    };
    if v < 0 {
        -m
    } else {
        m as int
    }
}

/// The unscaled integer at scale `to` of the decimal whose unscaled integer
/// at scale `from` is `v`: digits are appended, or dropped with rounding.
pub open spec fn rescale(v: int, from: nat, to: nat) -> int {
    if to >= from {
        v * pow10((to - from) as nat)
    } else {
        divide_rounding(v, pow10((from - to) as nat))
    }
}

/// Whether some value that was present came out null.
pub open spec fn any_lost(input: Seq<Option<int>>, output: Seq<Option<int>>) -> bool {
    exists|i: int| 0 <= i < input.len() && input[i] is Some && (#[trigger] output[i]) is None
}

/// Ten to the power `n`.
pub fn pow10_of(n: u8) -> (p: u128)
    requires
        n <= MAX_PRECISION,
    ensures
        p == pow10(n as nat),
        0 < p <= 100_000_000_000_000_000_000_000_000_000_000_000_000,
{
    let mut p: u128 = 1;
    let mut i: u8 = 0;
    proof {
        lemma_pow10_values();
    }
    while i < n
        invariant
            i <= n <= MAX_PRECISION,
            p == pow10(i as nat),
            pow10(38) == 100_000_000_000_000_000_000_000_000_000_000_000_000,
        decreases n - i,
    {
        proof {
            lemma_pow10_increases((i + 1) as nat, 38);
        }
        p = p * 10;
        i += 1;
    }
    proof {
        lemma_pow10_increases(n as nat, 38);
    }
    p
}

/// The magnitude of an integer.
pub fn magnitude_of(v: i128) -> (a: u128)
    ensures
        a == magnitude(v as int),
        a <= 0x8000_0000_0000_0000_0000_0000_0000_0000,
{
    if v < 0 {
        (-(v + 1)) as u128 + 1
    } else {
        v as u128
    }
}

/// Whether an unscaled integer has at most `precision` digits.
pub fn fits_in(v: i128, precision: u8) -> (r: bool)
    requires
        precision <= MAX_PRECISION,
    ensures
        r == fits(v as int, precision as nat),
{
    magnitude_of(v) < pow10_of(precision)
}

/// The integer with the given magnitude and the sign of `v`.
fn with_sign_of(v: i128, m: u128) -> (r: i128)
    requires
        m < 0x8000_0000_0000_0000_0000_0000_0000_0000,
    ensures
        r == (if v < 0 {
            -(m as int)
        } else {
            m as int
        }),
{
    if v < 0 {
        -(m as i128)
    } else {
        m as i128
    }
}

/// Appends `k` zero digits to `v` and checks the result against
/// `precision`.
fn scale_up_checked(v: i128, k: u8, precision: u8) -> (r: Option<i128>)
    requires
        k <= MAX_PRECISION,
        precision <= MAX_PRECISION,
    ensures
        fits(v * pow10(k as nat), precision as nat) ==> r == Some((v * pow10(k as nat)) as i128)
            && r->0 == v * pow10(k as nat),
        !fits(v * pow10(k as nat), precision as nat) ==> r is None,
{
    let a: u128 = magnitude_of(v);
    let limit: u128 = pow10_of(precision);
    let factor: u128 = pow10_of(k);
    proof {
        lemma_magnitude_of_product(v as int, factor as nat);
    }
    if k > precision {
        proof {
            lemma_pow10_increases(precision as nat, k as nat);
            assert(a >= 1 ==> a * factor >= factor) by (nonlinear_arith)
                requires
                    factor > 0,
            ;
            assert(a == 0 ==> a * factor == 0) by (nonlinear_arith);
        }
        if a == 0 {
            Some(0)
        } else {
            None
        }
    } else {
        let room: u128 = pow10_of(precision - k);
        proof {
            crate::digits::lemma_pow10_adds(k as nat, (precision - k) as nat);
            assert(limit == factor * room);
            assert(a < room <==> a * factor < factor * room) by (nonlinear_arith)
                requires
                    factor > 0,
            ;
        }
        if a < room {
            let scaled: u128 = a * factor;
            Some(with_sign_of(v, scaled))
        } else {
            None
        }
    }
}

/// Drops `k` digits of `v`, rounding a half away from zero, and checks the
/// result against `precision`.
fn scale_down_checked(v: i128, k: u8, precision: u8) -> (r: Option<i128>)
    requires
        1 <= k <= MAX_PRECISION,
        precision <= MAX_PRECISION,
    ensures
        fits(divide_rounding(v as int, pow10(k as nat)), precision as nat) ==> r == Some(
            divide_rounding(v as int, pow10(k as nat)) as i128,
        ) && r->0 == divide_rounding(v as int, pow10(k as nat)),
        !fits(divide_rounding(v as int, pow10(k as nat)), precision as nat) ==> r is None,
{
    let a: u128 = magnitude_of(v);
    let limit: u128 = pow10_of(precision);
    let d: u128 = pow10_of(k);
    proof {
        lemma_pow10_increases(1, k as nat);
        lemma_pow10_values();
    }
    let q: u128 = a / d;
    let rem: u128 = a % d;
    proof {
        lemma_fundamental_div_mod(a as int, d as int);
        assert(10 * q <= a) by (nonlinear_arith)
            requires
                a == d * q + rem,
                d >= 10,
                rem >= 0,
                q >= 0,
        ;
    }
    let m: u128 = if 2 * rem >= d {
        q + 1
    } else {
        q
    };
    if m < limit {
        Some(with_sign_of(v, m))
    } else {
        None
    }
}

/// Rescales `v` from scale `from` to scale `to` and checks the result
/// against `precision`: the rescaled integer, or `None` where it has more
/// digits than `precision`.
pub fn rescale_checked(v: i128, from: u8, to: u8, precision: u8) -> (r: Option<i128>)
    requires
        from <= MAX_PRECISION,
        to <= MAX_PRECISION,
        precision <= MAX_PRECISION,
    ensures
        fits(rescale(v as int, from as nat, to as nat), precision as nat) ==> r == Some(
            rescale(v as int, from as nat, to as nat) as i128,
        ) && r->0 == rescale(v as int, from as nat, to as nat),
        !fits(rescale(v as int, from as nat, to as nat), precision as nat) ==> r is None,
{
    if to >= from {
        scale_up_checked(v, to - from, precision)
    } else {
        scale_down_checked(v, from - to, precision)
    }
}

/// The magnitude of a product with a positive factor.
pub proof fn lemma_magnitude_of_product(v: int, f: nat)
    requires
        f > 0,
    ensures
        magnitude(v * f) == magnitude(v) * f,
        v < 0 ==> v * f < 0,
        v >= 0 ==> v * f >= 0,
{
    if v < 0 {
        assert(v * f < 0) by (nonlinear_arith)
            requires
                v < 0,
                f > 0,
        ;
        assert(-(v * f) == (-v) * f) by (nonlinear_arith);
    } else {
        assert(v * f >= 0) by (nonlinear_arith)
            requires
                v >= 0,
                f > 0,
        ;
    }
}

} // verus!
