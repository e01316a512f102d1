//! From a colour channel to the byte that an image file stores for it.
//!
//! A channel is a binary64 number held as its bit pattern. Its byte is found
//! as binary64 arithmetic finds it: the channel is multiplied by 255, the
//! product is rounded to 53 significant bits with ties going to the even
//! neighbour, the result is kept within 0 and 255, and then rounded to the
//! nearest integer with halves going up. A product too small to keep 53
//! significant bits in binary64 has the byte 0 however it is rounded.

use vstd::arithmetic::div_mod::lemma_div_denominator;
use vstd::arithmetic::power2::{
    lemma2_to64, lemma2_to64_rest, lemma_pow2_pos, lemma_pow2_strictly_increases,
    lemma_pow2_unfold, pow2,
};
use vstd::prelude::*;

verus! {

/// The largest byte value of a channel.
pub const MAX_CHANNEL: i64 = 255;

/// Two to the power 52: the weight of the hidden bit of a significand.
pub const HIDDEN_BIT: u64 = 0x10_0000_0000_0000;

/// Two to the power 53: a significand is below it.
pub const SIGNIFICAND_LIMIT: u64 = 0x20_0000_0000_0000;

/// Two to the power 63: the sign bit of a bit pattern.
pub const SIGN_BIT: u64 = 0x8000_0000_0000_0000;

/// Whether the sign bit is set. Negative zero counts as negative.
pub open spec fn is_negative(bits: u64) -> bool {
    bits >= SIGN_BIT
}

/// The eleven exponent bits.
pub open spec fn exponent_field(bits: u64) -> nat {
    ((bits / HIDDEN_BIT) % 2048) as nat
}

/// The fifty-two fraction bits.
pub open spec fn fraction_field(bits: u64) -> nat {
    (bits % HIDDEN_BIT) as nat
}

/// Not a number: all exponent bits set and a fraction that is not zero.
pub open spec fn is_nan(bits: u64) -> bool {
    exponent_field(bits) == 2047 && fraction_field(bits) != 0
}

/// Plus or minus infinity.
pub open spec fn is_infinite(bits: u64) -> bool {
    exponent_field(bits) == 2047 && fraction_field(bits) == 0
}

/// The significand `m` of a finite number, whose magnitude is
/// `m * 2^scale`.
pub open spec fn significand(bits: u64) -> nat {
    if exponent_field(bits) == 0 {
        fraction_field(bits)
    } else {
        HIDDEN_BIT as nat + fraction_field(bits)
    }
}

/// The power of two that scales the significand of a finite number.
pub open spec fn scale(bits: u64) -> int {
    if exponent_field(bits) == 0 {
        -1074
    } else {
        exponent_field(bits) - 1075
    }
}

/// The number of low bits that a natural number has to give up to become a
/// significand.
pub open spec fn excess_bits(p: nat) -> nat
    decreases p,
{
    if p < SIGNIFICAND_LIMIT {
        0
    } else {
        1 + excess_bits(p / 2)
    }
}

/// The integer nearest to `p / unit`; halfway between two integers it is the
/// even one.
pub open spec fn round_half_even(p: nat, unit: nat) -> nat
    recommends
        unit > 0,
{
    let below = p / unit;
    let rest = p % unit;
    if 2 * rest > unit || (2 * rest == unit && below % 2 == 1) {
        below + 1
    } else {
        below
    }
}

/// The integer nearest to the fraction `num / den`, halves going up.
pub open spec fn round_half_up(num: int, den: int) -> int
    recommends
        den > 0,
{
    (2 * num + den) / (2 * den)
}

/// The byte of the positive number `m * 2^q`: 255 times the number, rounded
/// to 53 significant bits and then to an integer of at most 255.
pub open spec fn nearest_byte(m: nat, q: int) -> int {
    let product = 255 * m;
    let dropped = excess_bits(product);
    let kept = round_half_even(product, pow2(dropped));
    let e = q + dropped;
    if kept == 0 {
        0
    } else if e >= 0 {
        255
    } else {
        let rounded = round_half_up(kept as int, pow2((-e) as nat) as int);
        if rounded > 255 {
            255
        } else {
            rounded
        }
    }
}

/// The byte of a channel: 0 for a number that is negative, zero or not a
/// number, 255 for plus infinity, and else the nearest byte to 255 times the
/// channel.
pub open spec fn byte_of(bits: u64) -> int {
    if is_nan(bits) || is_negative(bits) {
        0
    } else if is_infinite(bits) {
        255
    } else {
        nearest_byte(significand(bits), scale(bits))
    }
}

/// A larger exponent gives a power of two that is no smaller.
proof fn lemma_pow2_monotone(a: nat, b: nat)
    requires
        a <= b,
    ensures
        pow2(a) <= pow2(b),
{
    if a < b {
        lemma_pow2_strictly_increases(a, b);
    }
}

/// Two to the power `k`, for a `k` that leaves room in 64 bits.
fn power_of_two(k: u64) -> (p: u64)
    requires
        k < 64,
    ensures
        p == pow2(k as nat),
{
    let mut p: u64 = 1;
    let mut i: u64 = 0;
    proof {
        lemma2_to64();
    }
    while i < k
        invariant
            i <= k < 64,
            p == pow2(i as nat),
        decreases k - i,
    {
        proof {
            lemma_pow2_unfold((i + 1) as nat);
            lemma_pow2_monotone((i + 1) as nat, 63);
            lemma2_to64_rest();
        }
        p = p * 2;
        i = i + 1;
    }
    p
}

/// A kept significand far below one half has the byte 0.
proof fn lemma_tiny(kept: nat, k: nat)
    requires
        kept <= SIGNIFICAND_LIMIT,
        56 <= k,
    ensures
        round_half_up(kept as int, pow2(k) as int) == 0,
{
    lemma_pow2_monotone(56, k);
    lemma2_to64_rest();
    let p = pow2(k) as int;
    assert(0 <= 2 * kept + p < 2 * p);
    assert((2 * kept + p) / (2 * p) == 0) by (nonlinear_arith)
        requires
            0 <= 2 * kept + p < 2 * p,
    ;
}

/// Rounding to the nearest integer gives no negative number.
proof fn lemma_rounded_up_is_not_negative(kept: nat, k: nat)
    ensures
        0 <= round_half_up(kept as int, pow2(k) as int),
{
    lemma_pow2_pos(k);
    let p = pow2(k) as int;
    assert(0 <= (2 * kept + p) / (2 * p)) by (nonlinear_arith)
        requires
            0 <= kept,
            0 < p,
    ;
}

/// The byte of every channel lies between 0 and 255.
pub proof fn lemma_byte_in_range(bits: u64)
    ensures
        0 <= byte_of(bits) <= MAX_CHANNEL,
{
    let m = significand(bits);
    let product = 255 * m;
    let dropped = excess_bits(product);
    let kept = round_half_even(product, pow2(dropped));
    let e = scale(bits) + dropped;
    if e < 0 {
        lemma_rounded_up_is_not_negative(kept, (-e) as nat);
    }
}

/// The product of a significand and 255, rounded to 53 significant bits:
/// the bits that stay and the number of bits that were dropped.
fn rounded_product(m: u64) -> (res: (u64, u64))
    requires
        m < SIGNIFICAND_LIMIT,
    ensures
        res.1 == excess_bits(255 * m as nat),
        res.0 == round_half_even(255 * m as nat, pow2(res.1 as nat)),
        res.0 <= SIGNIFICAND_LIMIT,
        res.1 <= 8,
{
    let product: u64 = 255 * m;
    let mut below: u64 = product;
    let mut unit: u64 = 1;
    let mut dropped: u64 = 0;
    proof {
        lemma2_to64();
    }
    while below >= SIGNIFICAND_LIMIT
        invariant
            product == 255 * m,
            m < SIGNIFICAND_LIMIT,
            unit == pow2(dropped as nat),
            unit >= 1,
            below == product / unit,
            below * unit <= product,
            excess_bits(product as nat) == dropped + excess_bits(below as nat),
            dropped <= 8,
        decreases below,
    {
        proof {
            lemma_div_denominator(product as int, unit as int, 2);
            lemma_pow2_unfold((dropped + 1) as nat);
            assert((below / 2) * (unit * 2) <= below * unit) by (nonlinear_arith)
                requires
                    unit >= 1,
                    below >= 0,
            ;
            assert(unit < 256) by (nonlinear_arith)
                requires
                    below >= 0x20_0000_0000_0000,
                    below * unit <= 255 * 0x20_0000_0000_0000,
                    unit >= 1,
            ;
            if dropped >= 8 {
                lemma_pow2_monotone(8, dropped as nat);
                lemma2_to64();
            }
        }
        below = below / 2;
        unit = unit * 2;
        dropped = dropped + 1;
    }
    let rest: u64 = product % unit;
    let kept: u64 = if 2 * rest > unit || (2 * rest == unit && below % 2 == 1) {
        below + 1
    } else {
        below
    };
    (kept, dropped)
}

/// Scales a channel by 255, keeps it within 0 and 255 and rounds it to the
/// nearest integer.
pub fn byte_clamp(x: u64) -> (b: i64)
    ensures
        b == byte_of(x),
        0 <= b <= MAX_CHANNEL,
{
    let exponent: u64 = (x / HIDDEN_BIT) % 2048;
    let fraction: u64 = x % HIDDEN_BIT;
    if x >= SIGN_BIT {
        return 0;
    }
    if exponent == 2047 {
        if fraction != 0 {
            return 0;
        }
        return 255;
    }
    let m: u64 = if exponent == 0 {
        fraction
    } else {
        HIDDEN_BIT + fraction
    };
    let (kept, dropped) = rounded_product(m);
    if kept == 0 {
        return 0;
    }
    // The power of two that scales what was kept is `exponent + dropped`
    // less the bias of 1075, or of 1074 for a number without a hidden bit.
    let bias: u64 = if exponent == 0 {
        1074
    } else {
        1075
    };
    if exponent + dropped >= bias {
        return 255;
    }
    let k: u64 = bias - exponent - dropped;
    if k >= 56 {
        proof {
            lemma_tiny(kept as nat, k as nat);
        }
        return 0;
    }
    let unit: u64 = power_of_two(k);
    proof {
        lemma_pow2_monotone(k as nat, 55);
        lemma_pow2_pos(k as nat);
        lemma2_to64_rest();
        lemma_rounded_up_is_not_negative(kept as nat, k as nat);
    }
    let rounded: u64 = (2 * kept + unit) / (2 * unit);
    if rounded > 255 {
        255
    } else {
        rounded as i64
    }
}

} // verus!
