//! Powers of ten and decimal digits.

use vstd::prelude::*;

verus! {

/// Ten to the power `n`.
pub open spec fn pow10(n: nat) -> nat
    decreases n,
{
    if n == 0 {
        1
    } else {
        10 * pow10((n - 1) as nat)
    }
}

/// A power of ten is positive, and a higher power is larger.
pub proof fn lemma_pow10_increases(a: nat, b: nat)
    requires
        a <= b,
    ensures
        0 < pow10(a) <= pow10(b),
    decreases b,
{
    if b == 0 {
    } else if a == b {
        lemma_pow10_increases(0, (b - 1) as nat);
    } else {
        lemma_pow10_increases(a, (b - 1) as nat);
    }
}

/// The powers of ten up to the thirty-eighth.
pub proof fn lemma_pow10_values()
    ensures
        pow10(0) == 1,
        pow10(1) == 10,
        pow10(2) == 100,
        pow10(17) == 100_000_000_000_000_000,
        pow10(18) == 1_000_000_000_000_000_000,
        pow10(19) == 10_000_000_000_000_000_000,
        pow10(38) == 100_000_000_000_000_000_000_000_000_000_000_000_000,
{
    reveal_with_fuel(pow10, 20);
    assert(pow10(19) == 10_000_000_000_000_000_000);
    assert(pow10(38) == pow10(19) * pow10(19)) by {
        lemma_pow10_adds(19, 19);
    }
}

/// Powers of ten multiply by adding exponents.
pub proof fn lemma_pow10_adds(a: nat, b: nat)
    ensures
        pow10(a + b) == pow10(a) * pow10(b),
    decreases a,
{
    if a == 0 {
        assert(pow10(0) == 1);
        assert(1 * pow10(b) == pow10(b));
    } else {
        lemma_pow10_adds((a - 1) as nat, b);
        let x = pow10((a - 1) as nat);
        let y = pow10(b);
        assert(pow10(a) == 10 * x);
        assert(pow10(a + b) == 10 * pow10((a - 1 + b) as nat));
        assert(10 * (x * y) == (10 * x) * y) by (nonlinear_arith);
    }
}

} // verus!
