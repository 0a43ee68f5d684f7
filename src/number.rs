//! Number literals as doubles.
//!
//! A literal is a decimal integer of at most 2^53, which a double holds
//! exactly; its double is built here from the IEEE-754 layout.
use vstd::prelude::*;
use vstd::arithmetic::power2::{pow2, lemma_pow2_adds, lemma_pow2_unfold, lemma_pow2_strictly_increases};

verus! {

/// The largest literal: 2^53.
pub const MAX_LITERAL: u64 = 9007199254740992;

/// The exponent of the highest set bit of `v`.
pub open spec fn log2(v: nat) -> nat
    decreases v,
{
    if v < 2 {
        0
    } else {
        1 + log2(v / 2)
    }
}

/// The bit pattern of the double whose value is the integer `v`, for
/// `v <= 2^53`: exponent `1023 + log2(v)` in bits 52 to 62, and the bits of
/// `v` below its highest one, shifted up to fill the 52-bit fraction.
pub open spec fn double_bits(v: nat) -> nat {
    if v == 0 {
        0
    } else {
        let e = log2(v);
        ((1023 + e) * pow2(52) + (v - pow2(e)) * pow2((52 - e) as nat)) as nat
    }
}

proof fn lemma_log2(v: nat)
    requires
        v >= 1,
    ensures
        pow2(log2(v)) <= v < pow2(log2(v) + 1),
    decreases v,
{
    if v < 2 {
        lemma_pow2_unfold(1);
        vstd::arithmetic::power2::lemma2_to64();
    } else {
        lemma_log2(v / 2);
        lemma_pow2_unfold(log2(v));
        lemma_pow2_unfold(log2(v) + 1);
    }
}

/// The bits of the double equal to the integer `v`.
pub fn double_of_int(v: u64) -> (r: u64)
    requires
        v <= MAX_LITERAL,
    ensures
        r as nat == double_bits(v as nat),
{
    if v == 0 {
        return 0;
    }
    // find the highest set bit: top == 2^e <= v < 2^(e+1)
    let mut e: u64 = 0;
    let mut top: u64 = 1;
    proof {
        vstd::arithmetic::power2::lemma2_to64();
        lemma_log2(v as nat);
    }
    while top <= v / 2
        invariant
            1 <= v <= MAX_LITERAL,
            top == pow2(e as nat),
            1 <= top <= v,
            e <= 53,
            log2(v as nat) >= e,
            pow2(log2(v as nat)) <= v < pow2(log2(v as nat) + 1),
        decreases v - top,
    {
        proof {
            lemma_pow2_unfold((e + 1) as nat);
            if log2(v as nat) == e as nat {
                assert(v < 2 * top);
            }
            if e + 1 > 53 {
                lemma_pow2_strictly_increases(53, (e + 1) as nat);
                vstd::arithmetic::power2::lemma2_to64_rest();
            }
        }
        top = top * 2;
        e = e + 1;
    }
    proof {
        lemma_pow2_unfold((e + 1) as nat);
        if log2(v as nat) > e as nat + 1 {
            lemma_pow2_strictly_increases((e + 1) as nat, log2(v as nat));
        }
        assert(log2(v as nat) == e as nat);
    }
    // the fraction: the bits below the highest one, moved up to bit 51
    let shift: u64 = if e <= 52 { 52 - e } else { 0 };
    let mut scale: u64 = 1;
    let mut k: u64 = 0;
    while k < shift
        invariant
            shift + e <= 53,
            e <= 52 ==> shift + e == 52,
            k <= shift,
            scale == pow2(k as nat),
            top == pow2(e as nat),
            1 <= top <= v <= MAX_LITERAL,
            v < 2 * top,
            log2(v as nat) == e as nat,
        decreases shift - k,
    {
        proof {
            lemma_pow2_unfold((k + 1) as nat);
            vstd::arithmetic::power2::lemma2_to64_rest();
            if k + 1 < 52 {
                lemma_pow2_strictly_increases((k + 1) as nat, 52);
            }
        }
        scale = scale * 2;
        k = k + 1;
    }
    proof {
        vstd::arithmetic::power2::lemma2_to64_rest();
        lemma_pow2_adds(e as nat, k as nat);
        assert((v - top) * scale <= top * scale) by (nonlinear_arith)
            requires
                (v - top) < top,
                scale >= 1,
        ;
        if e == 53 {
            assert(v == top);
        } else {
            assert(top * scale == pow2(52));
        }
        assert(pow2(52) == 4503599627370496);
        if e == 53 {
            assert((v - top) * scale == 0);
        } else {
            assert(scale == pow2((52 - e) as nat));
        }
    }
    let frac = (v - top) * scale;
    (1023 + e) * 4503599627370496 + frac
}

} // verus!
