//! Machine measurements are single-precision IEEE-754 numbers. The library
//! carries them as their bit patterns (what `f32::to_bits` gives) and works
//! on those bits where a decision depends on a measurement.

use vstd::prelude::*;
use vstd::arithmetic::power2::*;
use vstd::bits::*;
use vstd::string::*;
use crate::text::{decimal, decimal_string};

verus! {

/// The sign bit of a single-precision bit pattern.
pub open spec fn sign_bit_set(bits: u32) -> bool {
    bits >= 0x8000_0000
}

/// The biased exponent field (8 bits) of a single-precision bit pattern.
pub open spec fn exponent_field(bits: u32) -> nat {
    ((bits / 0x80_0000) % 0x100) as nat
}

/// The fraction field (23 bits) of a single-precision bit pattern.
pub open spec fn fraction_field(bits: u32) -> nat {
    (bits % 0x80_0000) as nat
}

/// The whole number that Rust's saturating cast `x as u8` gives for the
/// single-precision number `x` with these bits: NaN and every negative
/// number give 0, +infinity and numbers of at least 256 give 255, and any
/// other number is truncated toward zero. A normal number with exponent
/// field `e` and fraction `f` is `(f + 2^23) * 2^(e - 150)`; below an
/// exponent field of 127 the number is below one.
pub open spec fn whole_part_u8(bits: u32) -> u8 {
    let e = exponent_field(bits);
    let f = fraction_field(bits);
    if e == 255 && f != 0 {
        0
    } else if sign_bit_set(bits) {
        0
    } else if e == 255 {
        255
    } else if e < 127 {
        0
    } else if e > 134 {
        255
    } else {
        ((f + 0x80_0000) / pow2((150 - e) as nat)) as u8
    }
}

/// The bits denote exactly the whole number `d`: `+0.0` for zero, and
/// otherwise a positive normal number `(f + 2^23) / 2^(150 - e)` equal to `d`.
pub open spec fn denotes_whole(bits: u32, d: nat) -> bool {
    if d == 0 {
        bits == 0
    } else {
        &&& !sign_bit_set(bits)
        &&& 127 <= exponent_field(bits) <= 150
        &&& fraction_field(bits) + 0x80_0000 == d * pow2((150 - exponent_field(bits)) as nat)
    }
}

/// `x as u8` for the single-precision number `x` whose bits are given.
pub fn whole_u8_of_bits(bits: u32) -> (r: u8)
    ensures
        r == whole_part_u8(bits),
{
    let e: u32 = (bits >> 23u32) & 0xffu32;
    let f: u32 = bits & 0x7f_ffffu32;
    assert(e == (bits / 0x80_0000) % 0x100) by (bit_vector)
        requires
            e == (bits >> 23u32) & 0xffu32,
    ;
    assert(f == bits % 0x80_0000) by (bit_vector)
        requires
            f == bits & 0x7f_ffffu32,
    ;
    if e == 255 && f != 0 {
        0
    } else if bits >= 0x8000_0000 {
        0
    } else if e == 255 {
        255
    } else if e < 127 {
        0
    } else if e > 134 {
        255
    } else {
        let shift: u32 = 150 - e;
        let m: u32 = f | 0x80_0000u32;
        assert(m == f + 0x80_0000) by (bit_vector)
            requires
                m == f | 0x80_0000u32,
                f < 0x80_0000,
        ;
        let q: u32 = m >> shift;
        proof {
            lemma_u32_shr_is_div(m, shift);
            lemma2_to64();
            assert(pow2(shift as nat) >= 0x1_0000);
            assert(m < 0x100_0000);
            assert(q < 0x100) by (nonlinear_arith)
                requires
                    q as nat == (m as nat) / pow2(shift as nat),
                    pow2(shift as nat) >= 0x1_0000,
                    m < 0x100_0000,
            ;
        }
        q as u8
    }
}

/// The single-precision pattern of a whole number `d` in `[2^k, 2^(k+1))`.
pub open spec fn whole_pattern(d: u32, k: u32) -> u32 {
    (((127 + k) as u32) << 23u32) | (((d - (1u32 << k)) as u32) << ((23 - k) as u32))
}

proof fn lemma_bits_of_whole(d: u32, k: u32)
    requires
        k <= 7,
        (1u32 << k) <= d,
        d < (1u32 << ((k + 1) as u32)),
    ensures
        whole_pattern(d, k) < 0x8000_0000,
        whole_pattern(d, k) / 0x80_0000 % 0x100 == 127 + k,
        whole_pattern(d, k) % 0x80_0000 + 0x80_0000 == d << ((23 - k) as u32),
{
    let b = whole_pattern(d, k);
    assert(b < 0x8000_0000 && b / 0x80_0000 % 0x100 == 127 + k && b % 0x80_0000 + 0x80_0000 == d
        << ((23 - k) as u32)) by (bit_vector)
        requires
            b == (((127 + k) as u32) << 23u32) | (((d - (1u32 << k)) as u32) << ((23 - k) as u32)),
            k <= 7,
            (1u32 << k) <= d,
            d < (1u32 << ((k + 1) as u32)),
    ;
}

/// The bits of `d as f32`: the single-precision number equal to `d`.
pub fn bits_of_whole(d: u8) -> (bits: u32)
    ensures
        denotes_whole(bits, d as nat),
{
    if d == 0 {
        return 0;
    }
    let x: u32 = d as u32;
    let mut k: u32 = 7;
    assert(x < (1u32 << 8u32)) by (bit_vector)
        requires
            x < 256,
    ;
    while x >> k == 0
        invariant
            1 <= x < 256,
            k <= 7,
            x < (1u32 << ((k + 1) as u32)),
        decreases k,
    {
        assert(x >> k == 0 && k <= 7 && x >= 1 ==> k >= 1 && x < (1u32 << k)) by (bit_vector);
        assert(k >= 1 ==> ((k - 1) as u32 + 1) as u32 == k);
        k = k - 1;
    }
    assert(x >> k != 0 && k <= 7 ==> (1u32 << k) <= x) by (bit_vector);
    let bits: u32 = ((127 + k) << 23u32) | ((x - (1u32 << k)) << (23 - k));
    proof {
        assert(bits == whole_pattern(x, k));
        lemma_bits_of_whole(x, k);
        lemma2_to64();
        if k > 0 {
            lemma_pow2_strictly_increases((23 - k) as nat, 23);
        }
        assert(x * pow2((23 - k) as nat) <= u32::MAX) by (nonlinear_arith)
            requires
                x < 256,
                pow2((23 - k) as nat) <= 0x80_0000,
        ;
        lemma_u32_shl_is_mul(x, (23 - k) as u32);
        assert(exponent_field(bits) == 127 + k);
        assert(150 - exponent_field(bits) == 23 - k);
    }
    bits
}

/// Converting a whole number to single precision and back with `as u8`
/// gives the number back.
pub proof fn lemma_whole_round_trip(bits: u32, d: u8)
    requires
        denotes_whole(bits, d as nat),
    ensures
        whole_part_u8(bits) == d,
{
    if d != 0 {
        let e = exponent_field(bits);
        let f = fraction_field(bits);
        let p = pow2((150 - e) as nat);
        lemma2_to64();
        assert(f < 0x80_0000);
        assert(e != 255);
        if e < 127 {
            assert(false);
        } else if e > 134 {
            assert(p <= 0x8000);
            assert(f + 0x80_0000 <= 255 * 0x8000) by (nonlinear_arith)
                requires
                    f + 0x80_0000 == d * p,
                    p <= 0x8000,
                    d <= 255,
            ;
            assert(false);
        } else {
            assert(p > 0);
            assert((f + 0x80_0000) / p == d as nat) by (nonlinear_arith)
                requires
                    f + 0x80_0000 == d * p,
                    p > 0,
            ;
        }
    }
}

/// Two patterns that denote the same whole number are the same pattern.
pub proof fn lemma_whole_pattern_unique(b1: u32, b2: u32, d: nat)
    requires
        denotes_whole(b1, d),
        denotes_whole(b2, d),
    ensures
        b1 == b2,
{
    if d != 0 {
        let e1 = exponent_field(b1);
        let e2 = exponent_field(b2);
        let f1 = fraction_field(b1);
        let f2 = fraction_field(b2);
        assert(f1 < 0x80_0000 && f2 < 0x80_0000);
        if e1 < e2 {
            lemma_pow2_strictly_increases((150 - e2) as nat, (150 - e1) as nat);
            lemma_pow2_adds((150 - e2) as nat, 1);
            lemma2_to64();
            lemma_pow2_strictly_increases((150 - e2 + 1) as nat, (150 - e1 + 1) as nat);
            assert(pow2((150 - e1) as nat) >= 2 * pow2((150 - e2) as nat)) by {
                if (150 - e1) as nat > (150 - e2 + 1) as nat {
                    lemma_pow2_strictly_increases((150 - e2 + 1) as nat, (150 - e1) as nat);
                }
            }
            assert(d * pow2((150 - e1) as nat) >= 2 * (d * pow2((150 - e2) as nat))) by (nonlinear_arith)
                requires
                    pow2((150 - e1) as nat) >= 2 * pow2((150 - e2) as nat),
                    d >= 1,
            ;
            assert(false);
        } else if e2 < e1 {
            lemma_pow2_strictly_increases((150 - e1) as nat, (150 - e2) as nat);
            lemma_pow2_adds((150 - e1) as nat, 1);
            lemma2_to64();
            assert(pow2((150 - e2) as nat) >= 2 * pow2((150 - e1) as nat)) by {
                if (150 - e2) as nat > (150 - e1 + 1) as nat {
                    lemma_pow2_strictly_increases((150 - e1 + 1) as nat, (150 - e2) as nat);
                }
            }
            assert(d * pow2((150 - e2) as nat) >= 2 * (d * pow2((150 - e1) as nat))) by (nonlinear_arith)
                requires
                    pow2((150 - e2) as nat) >= 2 * pow2((150 - e1) as nat),
                    d >= 1,
            ;
            assert(false);
        }
        assert(f1 == f2);
        assert(b1 == (b1 / 0x80_0000) * 0x80_0000 + b1 % 0x80_0000);
        assert(b2 == (b2 / 0x80_0000) * 0x80_0000 + b2 % 0x80_0000);
        assert(b1 / 0x80_0000 < 0x100);
        assert(b2 / 0x80_0000 < 0x100);
    }
}

/// The single-precision pattern of the whole number `d` (the one pattern
/// that denotes it).
pub open spec fn whole_bits(d: u8) -> u32 {
    choose|b: u32| denotes_whole(b, d as nat)
}

proof fn lemma_pattern_denotes(d: u32, k: u32)
    requires
        k <= 7,
        (1u32 << k) <= d,
        d < (1u32 << ((k + 1) as u32)),
    ensures
        denotes_whole(whole_pattern(d, k), d as nat),
{
    let bits = whole_pattern(d, k);
    lemma_bits_of_whole(d, k);
    lemma2_to64();
    assert(d < 256) by (bit_vector)
        requires
            k <= 7,
            d < (1u32 << ((k + 1) as u32)),
    ;
    if k > 0 {
        lemma_pow2_strictly_increases((23 - k) as nat, 23);
    }
    assert(d * pow2((23 - k) as nat) <= u32::MAX) by (nonlinear_arith)
        requires
            d < 256,
            pow2((23 - k) as nat) <= 0x80_0000,
    ;
    lemma_u32_shl_is_mul(d, (23 - k) as u32);
    assert(exponent_field(bits) == 127 + k);
    assert(d != 0) by (bit_vector)
        requires
            (1u32 << k) <= d,
            k <= 7,
    ;
}

/// Every whole number below 256 has a single-precision pattern, and
/// `whole_bits` is it.
pub proof fn lemma_whole_bits_denotes(d: u8)
    ensures
        denotes_whole(whole_bits(d), d as nat),
{
    if d == 0 {
        assert(denotes_whole(0u32, 0));
    } else {
        let x = d as u32;
        let k: u32 = if x >= 128 {
            7
        } else if x >= 64 {
            6
        } else if x >= 32 {
            5
        } else if x >= 16 {
            4
        } else if x >= 8 {
            3
        } else if x >= 4 {
            2
        } else if x >= 2 {
            1
        } else {
            0
        };
        assert((1u32 << k) <= x && x < (1u32 << ((k + 1) as u32))) by (bit_vector)
            requires
                1 <= x < 256,
                k == if x >= 128 {
                    7u32
                } else if x >= 64 {
                    6u32
                } else if x >= 32 {
                    5u32
                } else if x >= 16 {
                    4u32
                } else if x >= 8 {
                    3u32
                } else if x >= 4 {
                    2u32
                } else if x >= 2 {
                    1u32
                } else {
                    0u32
                },
        ;
        lemma_pattern_denotes(x, k);
    }
}

/// A measurement as a machine or the frontend gives it: its single-precision
/// bits and the text Rust writes for it.
pub struct Reading {
    pub bits: u32,
    pub text: String,
}

/// A reading seen as its bits and the characters of its text.
pub struct ReadingView {
    pub bits: u32,
    pub text: Seq<char>,
}

impl View for Reading {
    type V = ReadingView;

    open spec fn view(&self) -> ReadingView {
        ReadingView { bits: self.bits, text: self.text@ }
    }
}

impl Clone for Reading {
    fn clone(&self) -> (r: Self)
        ensures
            r == *self,
    {
        Reading { bits: self.bits, text: self.text.clone() }
    }
}

impl Reading {
    /// The reading `0.0`.
    pub fn zero() -> (r: Reading)
        ensures
            r.bits == 0,
            r.text@ == "0"@,
    {
        Reading { bits: 0, text: String::from_str("0") }
    }

    /// The reading of the whole number `d`, as `d as f32` gives it.
    pub fn whole(d: u8) -> (r: Reading)
        ensures
            r.bits == whole_bits(d),
            denotes_whole(r.bits, d as nat),
            r.text@ == decimal(d as nat),
    {
        let bits = bits_of_whole(d);
        proof {
            let c = whole_bits(d);
            assert(denotes_whole(c, d as nat));
            lemma_whole_pattern_unique(bits, c, d as nat);
        }
        Reading { bits, text: decimal_string(d as usize) }
    }
}

} // verus!
