//! Integers as little-endian bytes.

use vstd::arithmetic::div_mod::{lemma_fundamental_div_mod, lemma_fundamental_div_mod_converse};
use vstd::prelude::*;

verus! {

/// 256 to the power `n`.
pub open spec fn pow256(n: nat) -> nat
    decreases n,
{
    if n == 0 {
        1
    } else {
        256 * pow256((n - 1) as nat)
    }
}

/// The powers of 256 that integer widths use.
pub proof fn lemma_pow256_values()
    ensures
        pow256(0) == 1,
        pow256(1) == 0x100,
        pow256(2) == 0x1_0000,
        pow256(4) == 0x1_0000_0000,
        pow256(8) == 0x1_0000_0000_0000_0000,
        pow256(15) == 0x1_0000_0000_0000_0000_0000_0000_0000_00,
        pow256(16) == 0x1_0000_0000_0000_0000_0000_0000_0000_0000,
{
    reveal_with_fuel(pow256, 17);
}

/// A lower power of 256 is no larger than a higher one.
pub proof fn lemma_pow256_increases(a: nat, b: nat)
    requires
        a <= b,
    ensures
        0 < pow256(a) <= pow256(b),
    decreases b,
{
    if b == 0 {
    } else if a == b {
        lemma_pow256_increases(0, (b - 1) as nat);
    } else {
        lemma_pow256_increases(a, (b - 1) as nat);
    }
}

/// The `w` low bytes of `u`, the lowest first.
pub open spec fn le_bytes(u: nat, w: nat) -> Seq<u8>
    decreases w,
{
    if w == 0 {
        Seq::empty()
    } else {
        seq![(u % 256) as u8] + le_bytes(u / 256, (w - 1) as nat)
    }
}

/// An integer in two's complement on `w` bytes, the lowest byte first.
pub open spec fn int_bytes(v: int, w: nat) -> Seq<u8> {
    le_bytes((v % (pow256(w) as int)) as nat, w)
}

pub proof fn lemma_le_bytes_len(u: nat, w: nat)
    ensures
        le_bytes(u, w).len() == w,
    decreases w,
{
    if w > 0 {
        lemma_le_bytes_len(u / 256, (w - 1) as nat);
    }
}

fn pow256_of(w: usize) -> (m: u128)
    requires
        w <= 15,
    ensures
        m == pow256(w as nat),
        m > 0,
{
    let mut m: u128 = 1;
    let mut i: usize = 0;
    while i < w
        invariant
            i <= w <= 15,
            m == pow256(i as nat),
            m > 0,
        decreases w - i,
    {
        proof {
            lemma_pow256_increases((i + 1) as nat, 15);
            lemma_pow256_values();
        }
        m = m * 256;
        i += 1;
    }
    m
}

/// The two's complement of `v` on `w` bytes as an unsigned number.
fn wrapped(v: i128, w: usize) -> (u: u128)
    requires
        1 <= w <= 16,
    ensures
        u == (v as int) % (pow256(w as nat) as int),
{
    if w == 16 {
        proof {
            lemma_pow256_values();
        }
        if v >= 0 {
            proof {
                lemma_fundamental_div_mod_converse(v as int, pow256(16) as int, 0, v as int);
            }
            v as u128
        } else {
            let a: u128 = (-(v + 1)) as u128;
            let u: u128 = u128::MAX - a;
            proof {
                lemma_fundamental_div_mod_converse(v as int, pow256(16) as int, -1, u as int);
            }
            u
        }
    } else {
        let m: u128 = pow256_of(w);
        if v >= 0 {
            (v as u128) % m
        } else {
            let a: u128 = (-(v + 1)) as u128;
            let r: u128 = a % m;
            let u: u128 = m - 1 - r;
            proof {
                let q = (a / m) as int;
                lemma_fundamental_div_mod(a as int, m as int);
                assert(a == m * q + r);
                assert(v == (-(q + 1)) * m + u) by (nonlinear_arith)
                    requires
                        a == m * q + r,
                        v == -(a + 1),
                        u == m - 1 - r,
                ;
                lemma_fundamental_div_mod_converse(v as int, m as int, -(q + 1), u as int);
            }
            u
        }
    }
}

/// An integer in two's complement on `w` bytes, the lowest byte first.
pub fn signed_le_bytes(v: i128, w: usize) -> (out: Vec<u8>)
    requires
        1 <= w <= 16,
    ensures
        out@ == int_bytes(v as int, w as nat),
        out.len() == w,
{
    let start: u128 = wrapped(v, w);
    let mut u: u128 = start;
    let mut out: Vec<u8> = Vec::new();
    let mut i: usize = 0;
    assert(Seq::<u8>::empty() + le_bytes(u as nat, w as nat) =~= le_bytes(u as nat, w as nat));
    while i < w
        invariant
            i <= w,
            out.len() == i,
            le_bytes(start as nat, w as nat) == out@ + le_bytes(u as nat, (w - i) as nat),
        decreases w - i,
    {
        let b: u8 = (u % 256) as u8;
        let ghost before = out@;
        out.push(b);
        proof {
            let rest = le_bytes((u / 256) as nat, (w - i - 1) as nat);
            assert(before + (seq![b] + rest) =~= before.push(b) + rest);
        }
        u = u / 256;
        i += 1;
    }
    assert(out@ + Seq::<u8>::empty() =~= out@);
    out
}

} // verus!
