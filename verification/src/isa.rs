//! The meaning of the integer instructions, as mathematical functions of
//! their operands.
use vstd::math::abs;
use vstd::prelude::*;

verus! {

/// A 32-bit register value read as a signed (two's-complement) integer.
pub open spec fn sx32(v: u32) -> int {
    if v >= 0x8000_0000 {
        v - 0x1_0000_0000
    } else {
        v as int
    }
}

/// An integer wrapped into a 32-bit register (two's complement).
pub open spec fn word(x: int) -> u32 {
    (x % 0x1_0000_0000) as u32
}

/// A byte read as a signed integer.
pub open spec fn sx8(v: u8) -> int {
    if v >= 0x80 {
        v - 0x100
    } else {
        v as int
    }
}

/// A halfword read as a signed integer.
pub open spec fn sx16(v: u16) -> int {
    if v >= 0x8000 {
        v - 0x1_0000
    } else {
        v as int
    }
}

/// How a 32-bit register value reads under the casts, shifts and masks the
/// processor applies to it.
pub proof fn lemma_u32_bits(v: u32)
    ensures
        (v as i32) as int == sx32(v),
        (v as i32 as i64) as int == sx32(v),
        (v as u64 as i64) as int == v as int,
        (v as u8) == (v % 0x100) as u8,
        (v as u16) == (v % 0x1_0000) as u16,
        v & 0x1F < 32,
        v >> 0u32 == v,
        ((v as i32) >> 0u32) as u32 == v,
        v << 0u32 == v,
        ((v & 0xFFFF) as u16) as u32 == v & 0xFFFF,
        (!v) as int == 0xFFFF_FFFF - v,
{
    assert((v as i32) as int == sx32(v) && (v as i32 as i64) as int == sx32(v) && (v as u64 as i64)
        as int == v as int && (v as u8) == (v % 0x100) as u8 && (v as u16) == (v % 0x1_0000) as u16
        && v & 0x1F < 32 && v >> 0u32 == v && ((v as i32) >> 0u32) as u32 == v && v << 0u32 == v
        && ((v & 0xFFFF) as u16) as u32 == v & 0xFFFF && (!v) as int == 0xFFFF_FFFF - v)
        by (bit_vector);
}

/// A loaded byte or halfword, sign-extended to a register, is its signed
/// value wrapped.
pub proof fn lemma_sext_loads(b: u8, h: u16)
    ensures
        ((b as i8) as i32) as u32 == word(sx8(b)),
        ((h as i16) as i32) as u32 == word(sx16(h)),
{
    assert(((b as i8) as i32) as u32 == word(sx8(b)) && ((h as i16) as i32) as u32 == word(sx16(h)))
        by (bit_vector);
}

pub open spec fn flag(b: bool) -> u32 {
    if b {
        1
    } else {
        0
    }
}

/// Integer quotient rounded toward zero.
pub open spec fn div_trunc(x: int, y: int) -> int {
    let q = (abs(x) / abs(y)) as int;
    if (x < 0) == (y < 0) {
        q
    } else {
        -q
    }
}

/// Remainder of the division rounded toward zero (it has the sign of `x`).
pub open spec fn rem_trunc(x: int, y: int) -> int {
    let r = (abs(x) % abs(y)) as int;
    if x < 0 {
        -r
    } else {
        r
    }
}

/// Register-register instructions of the base set (OP major opcode); `None`
/// for an encoding that does not exist.
pub open spec fn op_result(funct7: u8, funct3: u8, a: u32, b: u32) -> Option<u32> {
    let sh = b & 0x1F;
    if funct7 == 0x00 && funct3 == 0 {
        Some(word(a + b))
    } else if funct7 == 0x20 && funct3 == 0 {
        Some(word(a - b))
    } else if funct7 == 0x00 && funct3 == 1 {
        Some(a << sh)
    } else if funct7 == 0x00 && funct3 == 2 {
        Some(flag(sx32(a) < sx32(b)))
    } else if funct7 == 0x00 && funct3 == 3 {
        Some(flag(a < b))
    } else if funct7 == 0x00 && funct3 == 4 {
        Some(a ^ b)
    } else if funct7 == 0x00 && funct3 == 5 {
        Some(a >> sh)
    } else if funct7 == 0x20 && funct3 == 5 {
        Some(((a as i32) >> sh) as u32)
    } else if funct7 == 0x00 && funct3 == 6 {
        Some(a | b)
    } else if funct7 == 0x00 && funct3 == 7 {
        Some(a & b)
    } else {
        None
    }
}

/// Register-immediate instructions (OP-IMM major opcode). `imm` is the
/// sign-extended 12-bit immediate and `shamt` the shift amount field.
pub open spec fn op_imm_result(funct3: u8, funct7: u8, a: u32, imm: int, shamt: u32) -> u32 {
    if funct3 == 0 {
        word(a + imm)
    } else if funct3 == 2 {
        flag(sx32(a) < imm)
    } else if funct3 == 3 {
        flag(a < word(imm))
    } else if funct3 == 4 {
        a ^ word(imm)
    } else if funct3 == 6 {
        a | word(imm)
    } else if funct3 == 7 {
        a & word(imm)
    } else if funct3 == 1 {
        a << shamt
    } else if funct7 == 0x20 {
        ((a as i32) >> shamt) as u32
    } else {
        a >> shamt
    }
}

/// Whether a conditional branch is taken; `None` for the two funct3 values
/// that name no branch.
pub open spec fn branch_taken(funct3: u8, a: u32, b: u32) -> Option<bool> {
    if funct3 == 0 {
        Some(a == b)
    } else if funct3 == 1 {
        Some(a != b)
    } else if funct3 == 4 {
        Some(sx32(a) < sx32(b))
    } else if funct3 == 5 {
        Some(sx32(a) >= sx32(b))
    } else if funct3 == 6 {
        Some(a < b)
    } else if funct3 == 7 {
        Some(a >= b)
    } else {
        None
    }
}

/// The multiply and divide instructions (OP major opcode with funct7 = 1).
pub open spec fn muldiv_result(funct3: u8, a: u32, b: u32) -> u32 {
    if funct3 == 0 {
        word(a * b)
    } else if funct3 == 1 {
        word((sx32(a) * sx32(b)) / 0x1_0000_0000)
    } else if funct3 == 2 {
        word((sx32(a) * b) / 0x1_0000_0000)
    } else if funct3 == 3 {
        word((a * b) / 0x1_0000_0000)
    } else if funct3 == 4 {
        if b == 0 {
            0xFFFF_FFFF
        } else {
            word(div_trunc(sx32(a), sx32(b)))
        }
    } else if funct3 == 5 {
        if b == 0 {
            0xFFFF_FFFF
        } else {
            (a / b) as u32
        }
    } else if funct3 == 6 {
        if b == 0 {
            a
        } else {
            word(rem_trunc(sx32(a), sx32(b)))
        }
    } else {
        if b == 0 {
            a
        } else {
            (a % b) as u32
        }
    }
}

/// Atomic memory operations: for the 5-bit function code, the value written
/// back to memory and the value written to `rd`, given the old memory word
/// and `rs2`. `None` for an unknown function code.
pub open spec fn amo_result(funct5: u8, old: u32, src: u32) -> Option<(u32, u32)> {
    if funct5 == 0x02 {
        Some((old, old))
    } else if funct5 == 0x03 {
        Some((src, 0))
    } else if funct5 == 0x01 {
        Some((src, old))
    } else if funct5 == 0x00 {
        Some((word(old + src), old))
    } else if funct5 == 0x04 {
        Some((old ^ src, old))
    } else if funct5 == 0x0C {
        Some((old & src, old))
    } else if funct5 == 0x08 {
        Some((old | src, old))
    } else if funct5 == 0x10 {
        Some((if sx32(old) <= sx32(src) {
            old
        } else {
            src
        }, old))
    } else if funct5 == 0x14 {
        Some((if sx32(old) >= sx32(src) {
            old
        } else {
            src
        }, old))
    } else if funct5 == 0x18 {
        Some((if old <= src {
            old
        } else {
            src
        }, old))
    } else if funct5 == 0x1C {
        Some((if old >= src {
            old
        } else {
            src
        }, old))
    } else {
        None
    }
}

/// The new value of a CSR for the Zicsr instructions (funct3 1..3 take a
/// register, 5..7 the 5-bit immediate `zimm`).
pub open spec fn csr_update(funct3: u8, old: u32, src: u32, zimm: u32) -> u32 {
    if funct3 == 1 {
        src
    } else if funct3 == 2 {
        old | src
    } else if funct3 == 3 {
        old & !src
    } else if funct3 == 5 {
        zimm
    } else if funct3 == 6 {
        old | zimm
    } else if funct3 == 7 {
        old & !zimm
    } else {
        old
    }
}

/// Signed 32-bit division rounded toward zero (the DIV and REM results for a
/// nonzero divisor), computed on magnitudes.
pub fn div_rem_signed(a: u32, b: u32) -> (r: (u32, u32))
    requires
        b != 0,
    ensures
        r.0 == word(div_trunc(sx32(a), sx32(b))),
        r.1 == word(rem_trunc(sx32(a), sx32(b))),
{
    let neg_a = a >= 0x8000_0000;
    let neg_b = b >= 0x8000_0000;
    let ua: u32 = if neg_a {
        (!a).wrapping_add(1)
    } else {
        a
    };
    let ub: u32 = if neg_b {
        (!b).wrapping_add(1)
    } else {
        b
    };
    proof {
        lemma_u32_bits(a);
        lemma_u32_bits(b);
    }
    assert(ua as int == abs(sx32(a)));
    assert(ub as int == abs(sx32(b)));
    let q = ua / ub;
    let rm = ua % ub;
    let quot = if neg_a != neg_b {
        (!q).wrapping_add(1)
    } else {
        q
    };
    let rem = if neg_a {
        (!rm).wrapping_add(1)
    } else {
        rm
    };
    proof {
        lemma_u32_bits(q);
        lemma_u32_bits(rm);
    }
    proof {
        if neg_a != neg_b {
            if q == 0 {
                assert(word(-(q as int)) == 0);
            } else {
                assert(word(-(q as int)) == 0x1_0000_0000 - q);
            }
        }
        if neg_a {
            if rm == 0 {
                assert(word(-(rm as int)) == 0);
            } else {
                assert(word(-(rm as int)) == 0x1_0000_0000 - rm);
            }
        }
    }
    (quot, rem)
}

} // verus!
