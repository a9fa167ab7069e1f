//! Conversion of a timeout's `seconds` value into the runtime's fixed tick
//! representation.
//!
//! The upper representation carries seconds as the bits of an IEEE 754
//! single-precision number; the runtime counts centisecond ticks. Only a
//! positive finite number of seconds is accepted. The conversion itself is
//! exact integer arithmetic on the bit fields — sign, exponent, mantissa —
//! so no floating-point operation is ever performed: the value
//! `mantissa * 2^(exponent - 150)` seconds becomes
//! `floor(mantissa * 100 * 2^(exponent - 150))` ticks, saturated at
//! `u32::MAX`.
use vstd::arithmetic::div_mod::lemma_basic_div_specific_divisor;
use vstd::arithmetic::power2::{lemma2_to64, lemma_pow2_pos, lemma_pow2_strictly_increases, pow2};
use vstd::bits::{lemma_u64_shl_is_mul, lemma_u64_shr_is_div};
use vstd::prelude::*;

verus! {

/// Ticks of the runtime clock per second of program time.
pub const TICKS_PER_SECOND: u32 = 100;

/// The exponent field of an `f32` bit pattern.
pub open spec fn f32_exp(bits: u32) -> u32 {
    (bits >> 23) & 0xff
}

/// The mantissa (fraction) field of an `f32` bit pattern.
pub open spec fn f32_frac(bits: u32) -> u32 {
    bits & 0x7f_ffff
}

/// Whether the bit pattern denotes a positive, finite, nonzero number:
/// sign bit clear, not a zero, and not an infinity or NaN.
pub open spec fn is_positive_seconds(bits: u32) -> bool {
    &&& bits != 0
    &&& bits >> 31 == 0
    &&& f32_exp(bits) != 0xff
}

/// The tick count a positive finite `f32` bit pattern denotes:
/// `floor(seconds * TICKS_PER_SECOND)`, saturated at `u32::MAX`. A
/// subnormal number of seconds is under one tick and becomes zero.
pub open spec fn ticks_of_bits(bits: u32) -> u32 {
    let exp = f32_exp(bits) as int;
    let frac = f32_frac(bits) as int;
    if exp == 0 {
        0u32
    } else {
        let t = (frac + 0x80_0000) * (TICKS_PER_SECOND as int);
        if exp >= 150 {
            let v = t * pow2((exp - 150) as nat);
            if v > u32::MAX as int {
                u32::MAX
            } else {
                v as u32
            }
        } else {
            (t / pow2((150 - exp) as nat) as int) as u32
        }
    }
}

/// Converts a positive finite number of seconds, given as `f32` bits, to
/// ticks. Pure integer arithmetic on the bit fields.
pub fn seconds_to_ticks(bits: u32) -> (r: u32)
    requires
        is_positive_seconds(bits),
    ensures
        r == ticks_of_bits(bits),
{
    let exp = (bits >> 23) & 0xff;
    let frac = bits & 0x7f_ffff;
    proof {
        assert(bits & 0x7f_ffff <= 0x7f_ffff) by (bit_vector);
        assert(TICKS_PER_SECOND == 100);
    }
    if exp == 0 {
        return 0;
    }
    let t: u64 = (frac as u64 + 0x80_0000) * 100;
    proof {
        assert(0x80_0000 * 100 <= t <= 0xff_ffff * 100);
    }
    if exp >= 150 {
        let s = exp - 150;
        if s >= 3 {
            proof {
                let p = pow2(s as nat);
                lemma2_to64();
                if s > 3 {
                    lemma_pow2_strictly_increases(3, s as nat);
                }
                assert(p >= 8);
                assert(t * p >= 838860800 * 8) by (nonlinear_arith)
                    requires
                        t >= 838860800,
                        p >= 8,
                ;
            }
            u32::MAX
        } else {
            proof {
                lemma2_to64();
                assert(pow2(s as nat) <= 4);
                assert(t * pow2(s as nat) <= 0xff_ffff * 100 * 4) by (nonlinear_arith)
                    requires
                        t <= 0xff_ffff * 100,
                        pow2(s as nat) <= 4,
                ;
                lemma_u64_shl_is_mul(t, s as u64);
            }
            let v: u64 = t << (s as u64);
            if v > u32::MAX as u64 {
                u32::MAX
            } else {
                v as u32
            }
        }
    } else {
        let s = 150 - exp;
        if s >= 32 {
            proof {
                lemma2_to64();
                if s > 32 {
                    lemma_pow2_strictly_increases(32, s as nat);
                }
                assert(pow2(s as nat) >= 0x1_0000_0000);
                lemma_basic_div_specific_divisor(pow2(s as nat) as int);
                assert(t < pow2(s as nat));
            }
            0
        } else {
            proof {
                lemma_u64_shr_is_div(t, s as u64);
                lemma_pow2_pos(s as nat);
                assert(t as nat / pow2(s as nat) <= t as nat) by (nonlinear_arith)
                    requires
                        pow2(s as nat) >= 1,
                ;
            }
            let v: u64 = t >> (s as u64);
            v as u32
        }
    }
}

} // verus!
