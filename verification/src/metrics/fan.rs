//! SMC numeric decoding. SMC values come as a four-character type code plus
//! raw bytes; fan speeds are read as whole RPM, rounded half away from zero,
//! and only values in 0..=20000 are believed.
use vstd::prelude::*;
use vstd::arithmetic::power2::{pow2, lemma_pow2_pos, lemma_pow2_strictly_increases, lemma_pow2_unfold};
use crate::format::{pow2_exec, lemma_pow2_table};

verus! {

/// Big-endian value of four bytes.
pub open spec fn be_u32(b: Seq<u8>) -> nat {
    b[0] as nat * 0x100_0000 + b[1] as nat * 0x1_0000 + b[2] as nat * 0x100 + b[3] as nat
}

/// Little-endian value of four bytes.
pub open spec fn le_u32(b: Seq<u8>) -> nat {
    b[3] as nat * 0x100_0000 + b[2] as nat * 0x1_0000 + b[1] as nat * 0x100 + b[0] as nat
}

/// Big-endian value of two bytes.
pub open spec fn be_u16(b: Seq<u8>) -> nat {
    b[0] as nat * 0x100 + b[1] as nat
}

/// A four-character SMC key as the big-endian `u32` the SMC uses.
pub fn fourcc(key: [u8; 4]) -> (r: u32)
    ensures
        r as nat == be_u32(key@),
{
    key[0] as u32 * 0x100_0000 + key[1] as u32 * 0x1_0000 + key[2] as u32 * 0x100 + key[3] as u32
}

/// A four-character SMC data type label as a big-endian `u32`.
pub fn type_code(label: [u8; 4]) -> (r: u32)
    ensures
        r as nat == be_u32(label@),
{
    fourcc(label)
}

/// `flt `: little-endian IEEE single.
pub const TYPE_FLT: u32 = 0x666c_7420;
/// `fpe2`: unsigned fixed point with two fraction bits.
pub const TYPE_FPE2: u32 = 0x6670_6532;
/// `ui8 `.
pub const TYPE_UI8: u32 = 0x7569_3820;
/// `ui16`: big-endian.
pub const TYPE_UI16: u32 = 0x7569_3136;
/// `ui32`: big-endian.
pub const TYPE_UI32: u32 = 0x7569_3332;
/// `sp78`: signed fixed point with eight fraction bits.
pub const TYPE_SP78: u32 = 0x7370_3738;

/// Whole RPM from the bits of an IEEE single: `None` for NaN, infinities and
/// values outside 0..=20000; otherwise rounded half away from zero.
pub open spec fn f32_rpm(bits: nat) -> Option<u16> {
    let sign = bits / 0x8000_0000;
    let exp = (bits / 0x80_0000) % 256;
    let frac = bits % 0x80_0000;
    if exp == 255 {
        None
    } else if sign == 1 {
        // -0.0 is inside 0..=20000 and rounds to 0; anything else negative is not
        if exp == 0 && frac == 0 { Some(0) } else { None }
    } else {
        let m: nat = if exp == 0 { frac } else { frac + 0x80_0000 };
        if exp >= 150 {
            let v = m * pow2((exp - 150) as nat);
            if v <= 20000 { Some(v as u16) } else { None }
        } else {
            let d = pow2(if exp == 0 { 149 } else { (150 - exp) as nat });
            if m <= 20000 * d { Some(((m + d / 2) / d) as u16) } else { None }
        }
    }
}

/// Fan speed from an SMC reading, by data type (falling back on the byte
/// size for plain integers).
pub open spec fn rpm_spec(data_type: u32, bytes: Seq<u8>, size: nat) -> Option<u16> {
    if size == 0 || bytes.len() == 0 {
        None
    } else if data_type == TYPE_FLT {
        if bytes.len() >= 4 { f32_rpm(le_u32(bytes)) } else { None }
    } else if data_type == TYPE_FPE2 {
        if bytes.len() >= 2 { Some(((be_u16(bytes) + 2) / 4) as u16) } else { None }
    } else if data_type == TYPE_UI8 || size == 1 {
        Some(bytes[0] as u16)
    } else if data_type == TYPE_UI16 || size == 2 {
        if bytes.len() >= 2 && be_u16(bytes) <= 20000 { Some(be_u16(bytes) as u16) } else { None }
    } else if data_type == TYPE_UI32 || size == 4 {
        if bytes.len() >= 4 && be_u32(bytes) <= 20000 { Some(be_u32(bytes) as u16) } else { None }
    } else if data_type == TYPE_SP78 {
        if bytes.len() >= 2 && be_u16(bytes) < 0x8000 {
            Some(((be_u16(bytes) + 128) / 256) as u16)
        } else {
            None
        }
    } else {
        None
    }
}

fn decode_f32_rpm(bits: u32) -> (r: Option<u16>)
    ensures
        r == f32_rpm(bits as nat),
{
    let sign = bits / 0x8000_0000;
    let exp = (bits / 0x80_0000) % 256;
    let frac = bits % 0x80_0000;
    if exp == 255 {
        return None;
    }
    if sign == 1 {
        return if exp == 0 && frac == 0 { Some(0) } else { None };
    }
    let m: u64 = if exp == 0 { frac as u64 } else { frac as u64 + 0x80_0000 };
    proof {
        lemma_pow2_table();
    }
    if exp >= 150 {
        let e = exp - 150;
        if e >= 15 {
            proof {
                vstd::arithmetic::power2::lemma2_to64();
                if e > 15 {
                    lemma_pow2_strictly_increases(15, e as nat);
                }
                assert(m as nat * pow2(e as nat) >= 0x80_0000 * 0x8000) by (nonlinear_arith)
                    requires m >= 0x80_0000, pow2(e as nat) >= 0x8000;
            }
            return None;
        }
        let p = pow2_exec(e);
        proof {
            vstd::arithmetic::power2::lemma2_to64();
            if e < 15 {
                lemma_pow2_strictly_increases(e as nat, 15);
            }
            assert(m as nat * p as nat <= 0x100_0000 * 0x8000) by (nonlinear_arith)
                requires m < 0x100_0000, p <= 0x8000;
        }
        let v = m * (p as u64);
        return if v <= 20000 { Some(v as u16) } else { None };
    }
    let k: u32 = if exp == 0 { 149 } else { 150 - exp };
    if k >= 40 {
        proof {
            lemma_pow2_unfold(k as nat);
            if k > 40 {
                lemma_pow2_strictly_increases(40, k as nat);
            }
            if k > 40 {
                lemma_pow2_strictly_increases(39, (k - 1) as nat);
            }
            vstd::arithmetic::power2::lemma2_to64_rest();
            let d = pow2(k as nat);
            assert(d / 2 == pow2((k - 1) as nat));
            assert(m < d / 2);
            assert((m as nat + d / 2) / d == 0) by (nonlinear_arith)
                requires m as nat + d / 2 < d, d > 0;
            assert(m <= 20000 * d) by (nonlinear_arith)
                requires m < d / 2, d > 0;
        }
        return Some(0);
    }
    let d = pow2_exec(k);
    proof {
        lemma_pow2_pos(k as nat);
        vstd::arithmetic::power2::lemma2_to64_rest();
        if k < 40 {
            lemma_pow2_strictly_increases(k as nat, 40);
        }
    }
    let d = d as u64;
    if m <= 20000 * d {
        let q = (m + d / 2) / d;
        proof {
            assert(q <= 20000) by (nonlinear_arith)
                requires q as nat == (m as nat + d as nat / 2) / (d as nat), m <= 20000 * d, d >= 2;
        }
        Some(q as u16)
    } else {
        None
    }
}

/// Decodes an SMC reading as a fan speed in RPM.
pub fn decode_rpm(data_type: u32, bytes: &[u8], size: usize) -> (r: Option<u16>)
    ensures
        r == rpm_spec(data_type, bytes@, size as nat),
{
    let n = bytes.len();
    if size == 0 || n == 0 {
        return None;
    }
    if data_type == TYPE_FLT {
        if n < 4 {
            return None;
        }
        let bits = bytes[3] as u32 * 0x100_0000 + bytes[2] as u32 * 0x1_0000 + bytes[1] as u32 * 0x100
            + bytes[0] as u32;
        return decode_f32_rpm(bits);
    }
    if data_type == TYPE_FPE2 {
        if n < 2 {
            return None;
        }
        let raw = bytes[0] as u32 * 0x100 + bytes[1] as u32;
        return Some(((raw + 2) / 4) as u16);
    }
    if data_type == TYPE_UI8 || size == 1 {
        return Some(bytes[0] as u16);
    }
    if data_type == TYPE_UI16 || size == 2 {
        if n < 2 {
            return None;
        }
        let v = bytes[0] as u32 * 0x100 + bytes[1] as u32;
        return if v <= 20000 { Some(v as u16) } else { None };
    }
    if data_type == TYPE_UI32 || size == 4 {
        if n < 4 {
            return None;
        }
        let v = bytes[0] as u32 * 0x100_0000 + bytes[1] as u32 * 0x1_0000 + bytes[2] as u32 * 0x100
            + bytes[3] as u32;
        return if v <= 20000 { Some(v as u16) } else { None };
    }
    if data_type == TYPE_SP78 {
        if n < 2 {
            return None;
        }
        let raw = bytes[0] as u32 * 0x100 + bytes[1] as u32;
        return if raw < 0x8000 { Some(((raw + 128) / 256) as u16) } else { None };
    }
    None
}

/// SMC key of fan `index` with a two-letter suffix, e.g. `F0Ac`; the digit
/// saturates at 255.
pub open spec fn fan_key_spec(index: u8, suffix: [u8; 2]) -> nat {
    let digit: nat = if 48 + index > 255 { 255 } else { (48 + index) as nat };
    70 * 0x100_0000 + digit * 0x1_0000 + suffix@[0] as nat * 0x100 + suffix@[1] as nat
}

/// Builds the SMC key of a fan reading.
pub fn fan_key(index: u8, suffix: [u8; 2]) -> (r: u32)
    ensures
        r as nat == fan_key_spec(index, suffix),
{
    let digit = 48u8.saturating_add(index);
    fourcc([70u8, digit, suffix[0], suffix[1]])
}

/// A decoded SMC number: the bits of an IEEE single, or an integer over a
/// power-of-two divisor.
#[derive(Debug, Clone, Copy, PartialEq, Eq, Structural)]
pub enum SmcValue {
    FloatBits(u32),
    Fixed { raw: i64, divisor: u32 },
}

/// How an SMC reading of type `data_type` (`size` bytes announced, `b`
/// read) decodes: `flt ` as little-endian single bits, `fpe2` as big-endian
/// quarters, `ui8 `/`ui16`/`ui32` (or a one, two or four byte size) as
/// big-endian whole numbers, `sp78` as signed 256ths.
pub open spec fn smc_value_spec(data_type: u32, b: Seq<u8>, size: nat) -> Option<SmcValue> {
    if size == 0 || b.len() == 0 {
        None
    } else if data_type == TYPE_FLT {
        if b.len() < 4 { None } else { Some(SmcValue::FloatBits(le_u32(b) as u32)) }
    } else if data_type == TYPE_FPE2 {
        if b.len() < 2 { None } else { Some(SmcValue::Fixed { raw: be_u16(b) as i64, divisor: 4 }) }
    } else if data_type == TYPE_UI8 || size == 1 {
        Some(SmcValue::Fixed { raw: b[0] as i64, divisor: 1 })
    } else if data_type == TYPE_UI16 || size == 2 {
        if b.len() < 2 { None } else { Some(SmcValue::Fixed { raw: be_u16(b) as i64, divisor: 1 }) }
    } else if data_type == TYPE_UI32 || size == 4 {
        if b.len() < 4 { None } else { Some(SmcValue::Fixed { raw: be_u32(b) as i64, divisor: 1 }) }
    } else if data_type == TYPE_SP78 {
        if b.len() < 2 {
            None
        } else {
            let u = be_u16(b);
            Some(SmcValue::Fixed { raw: (if u >= 0x8000 { u - 0x1_0000 } else { u as int }) as i64, divisor: 256 })
        }
    } else {
        None
    }
}

/// Decodes an SMC reading into a number.
pub fn smc_value(data_type: u32, bytes: &[u8], size: usize) -> (r: Option<SmcValue>)
    ensures
        r == smc_value_spec(data_type, bytes@, size as nat),
{
    let n = bytes.len();
    if size == 0 || n == 0 {
        return None;
    }
    if data_type == TYPE_FLT {
        if n < 4 {
            return None;
        }
        let bits = bytes[3] as u32 * 0x100_0000 + bytes[2] as u32 * 0x1_0000 + bytes[1] as u32 * 0x100
            + bytes[0] as u32;
        return Some(SmcValue::FloatBits(bits));
    }
    if data_type == TYPE_FPE2 {
        if n < 2 {
            return None;
        }
        return Some(SmcValue::Fixed { raw: bytes[0] as i64 * 0x100 + bytes[1] as i64, divisor: 4 });
    }
    if data_type == TYPE_UI8 || size == 1 {
        return Some(SmcValue::Fixed { raw: bytes[0] as i64, divisor: 1 });
    }
    if data_type == TYPE_UI16 || size == 2 {
        if n < 2 {
            return None;
        }
        return Some(SmcValue::Fixed { raw: bytes[0] as i64 * 0x100 + bytes[1] as i64, divisor: 1 });
    }
    if data_type == TYPE_UI32 || size == 4 {
        if n < 4 {
            return None;
        }
        let v = bytes[0] as i64 * 0x100_0000 + bytes[1] as i64 * 0x1_0000 + bytes[2] as i64 * 0x100 + bytes[3] as i64;
        return Some(SmcValue::Fixed { raw: v, divisor: 1 });
    }
    if data_type == TYPE_SP78 {
        if n < 2 {
            return None;
        }
        let u = bytes[0] as i64 * 0x100 + bytes[1] as i64;
        let raw = if u >= 0x8000 { u - 0x1_0000 } else { u };
        return Some(SmcValue::Fixed { raw, divisor: 256 });
    }
    None
}

} // verus!
