use vstd::prelude::*;
use vstd::arithmetic::power2::{pow2, lemma_pow2_unfold, lemma_pow2_pos, lemma_pow2_strictly_increases, lemma2_to64};
use crate::bytes::{be_at, read_be_u64};

verus! {

/// Bias of the 15-bit exponent of an 80-bit extended float.
pub const EXPONENT_BIAS: u16 = 16383;

/// An IEEE-854 80-bit extended float, split into its fields: the value is
/// `(-1)^negative * mantissa * 2^(exponent - 16383 - 63)`. The mantissa
/// carries its leading integer bit explicitly.
#[derive(Debug, Clone, Copy, PartialEq, Eq, Structural)]
pub struct Extended {
    pub negative: bool,
    /// The biased exponent, below `2^15`.
    pub exponent: u16,
    pub mantissa: u64,
}

/// The power of two by which the mantissa is scaled: `exponent - 16383 - 63`.
pub open spec fn scale_exponent(exponent: int) -> int {
    exponent - EXPONENT_BIAS - 63
}

/// `mantissa * 2^s`, truncated toward zero.
pub open spec fn scaled_floor(mantissa: int, s: int) -> int {
    if s >= 0 {
        mantissa * (pow2(s as nat) as int)
    } else {
        mantissa / (pow2((-s) as nat) as int)
    }
}

/// The value of an extended float truncated to a `u32`: negative values
/// give 0, values past `u32::MAX` give `u32::MAX`.
pub open spec fn truncated_u32(negative: bool, exponent: int, mantissa: int) -> int {
    if negative {
        0
    } else {
        let v = scaled_floor(mantissa, scale_exponent(exponent));
        if v > u32::MAX { u32::MAX as int } else { v }
    }
}

/// The fields of the ten bytes of `d` from position `p`.
pub open spec fn extended_fields(d: Seq<u8>, p: int) -> Extended {
    Extended {
        negative: d[p] >= 0x80,
        exponent: ((d[p] % 0x80) * 256 + d[p + 1]) as u16,
        mantissa: be_at(d, p + 2, 8) as u64,
    }
}

impl Extended {
    /// The value truncated to a whole number in `u32`, as a sample rate in Hz.
    pub open spec fn truncated(self) -> int {
        truncated_u32(self.negative, self.exponent as int, self.mantissa as int)
    }

    /// The value truncated toward zero and saturated to `u32`; negative
    /// values give 0.
    pub fn to_u32_saturating(&self) -> (r: u32)
        ensures
            r as int == self.truncated(),
    {
        if self.negative {
            return 0;
        }
        let s: i32 = self.exponent as i32 - 16446;
        let m = self.mantissa;
        if s >= 0 {
            if m == 0 {
                proof {
                    assert(scaled_floor(0, s as int) == 0) by (nonlinear_arith)
                        requires s >= 0;
                }
                return 0;
            }
            if s >= 32 {
                proof {
                    lemma2_to64();
                    if s > 32 {
                        lemma_pow2_strictly_increases(32, s as nat);
                    }
                    let p = pow2(s as nat);
                    assert(m as int * p >= p) by (nonlinear_arith)
                        requires m >= 1, p >= 0;
                }
                return u32::MAX;
            }
            let p = pow2_u64(s as u32);
            proof {
                lemma_pow2_pos(s as nat);
            }
            let limit: u64 = 0xFFFF_FFFF / p;
            if m > limit {
                proof {
                    assert(m as int * p > 0xFFFF_FFFF) by (nonlinear_arith)
                        requires m >= limit + 1, limit == 0xFFFF_FFFFint / (p as int), p > 0;
                }
                u32::MAX
            } else {
                proof {
                    assert(m as int * p <= 0xFFFF_FFFF) by (nonlinear_arith)
                        requires m <= limit, limit == 0xFFFF_FFFFint / (p as int), p > 0;
                }
                (m * p) as u32
            }
        } else {
            let d: i32 = -s;
            if d >= 64 {
                proof {
                    lemma2_to64();
                    if d > 64 {
                        lemma_pow2_strictly_increases(64, d as nat);
                    }
                    vstd::arithmetic::div_mod::lemma_basic_div(m as int, pow2(d as nat) as int);
                }
                return 0;
            }
            let p = pow2_u64(d as u32);
            proof {
                lemma_pow2_pos(d as nat);
                assert(m / p <= m) by (nonlinear_arith)
                    requires p > 0;
            }
            let v = m / p;
            if v > 0xFFFF_FFFF { u32::MAX } else { v as u32 }
        }
    }
}

/// `2^e` for an exponent below 64.
fn pow2_u64(e: u32) -> (r: u64)
    requires
        e < 64,
    ensures
        r as int == pow2(e as nat),
{
    let mut r: u64 = 1;
    let mut i: u32 = 0;
    proof {
        vstd::arithmetic::power2::lemma_pow2(0);
        vstd::arithmetic::power::lemma_pow0(2);
    }
    while i < e
        invariant
            i <= e < 64,
            r as int == pow2(i as nat),
        decreases e - i,
    {
        proof {
            lemma_pow2_unfold((i + 1) as nat);
            lemma2_to64();
            lemma_pow2_strictly_increases((i + 1) as nat, 64);
        }
        r = r * 2;
        i = i + 1;
    }
    r
}

/// Splits ten bytes of `data` from `pos` into the fields of an extended float.
pub(crate) fn extended_at(data: &[u8], pos: usize) -> (r: Extended)
    requires
        pos + 10 <= data@.len(),
    ensures
        r == extended_fields(data@, pos as int),
{
    let b0 = data[pos];
    let b1 = data[pos + 1];
    Extended {
        negative: b0 >= 0x80,
        exponent: (b0 % 0x80) as u16 * 256 + b1 as u16,
        mantissa: read_be_u64(data, pos + 2),
    }
}

/// Decodes an 80-bit extended float: bit 79 is the sign, bits 78 to 64 the
/// biased exponent, bits 63 to 0 the mantissa.
pub fn decode_extended(bytes: &[u8]) -> (r: Extended)
    requires
        bytes@.len() == 10,
    ensures
        r == extended_fields(bytes@, 0),
        r.exponent < 0x8000,
{
    extended_at(bytes, 0)
}

} // verus!
