//! The floating-point register file as bit patterns, and the arithmetic that
//! the processor hands to its floating-point unit.
use crate::cpu::{seq_pc, stored, Cpu, CpuError, CpuView};
use crate::inst::{
    i_field, s_field, sext12, DecodedInst32, OP_LOAD_FP, OP_OP_FP, OP_STORE_FP,
};
use crate::isa::word;
use crate::memory::{addr_add, in_ram, ram_u32, read_keeps, MemoryOps};
use vstd::prelude::*;

verus! {

/// An arithmetic operation of the F and D extensions that a floating-point
/// unit carries out.
#[derive(Debug, Clone, Copy, PartialEq, Eq, Structural)]
pub enum FloatOp {
    AddS,
    SubS,
    MulS,
    DivS,
    SqrtS,
    MinS,
    MaxS,
    LeS,
    LtS,
    EqS,
    /// Single to signed word.
    CvtWS,
    /// Single to unsigned word.
    CvtWuS,
    /// Signed word to single.
    CvtSW,
    /// Unsigned word to single.
    CvtSWu,
    /// Double to single.
    CvtSD,
    AddD,
    SubD,
    MulD,
    DivD,
    SqrtD,
    MinD,
    MaxD,
    LeD,
    LtD,
    EqD,
    /// Double to signed word.
    CvtWD,
    /// Double to unsigned word.
    CvtWuD,
    /// Signed word to double.
    CvtDW,
    /// Unsigned word to double.
    CvtDWu,
    /// Single to double.
    CvtDS,
    MaddS,
    MsubS,
    NmsubS,
    NmaddS,
    MaddD,
    MsubD,
    NmsubD,
    NmaddD,
}

} // verus!

verus! {

/// Whether a single-precision bit pattern is a NaN (all exponent bits set,
/// nonzero fraction).
pub open spec fn is_nan32(b: u32) -> bool {
    b & 0x7F80_0000 == 0x7F80_0000 && b & 0x007F_FFFF != 0
}

/// Whether a double-precision bit pattern is a NaN.
pub open spec fn is_nan64(b: u64) -> bool {
    b & 0x7FF0_0000_0000_0000 == 0x7FF0_0000_0000_0000 && b & 0x000F_FFFF_FFFF_FFFF != 0
}

/// The single-precision value held by a 64-bit register: its low half when it
/// is properly NaN-boxed (upper half all ones), the canonical NaN otherwise.
pub open spec fn unbox32(f: u64) -> u32 {
    if f >> 32 == 0xFFFF_FFFF {
        (f % 0x1_0000_0000) as u32
    } else {
        crate::cpu::NAN_F32
    }
}

/// A single-precision pattern NaN-boxed into a 64-bit register.
pub open spec fn box32(b: u32) -> u64 {
    (0xFFFF_FFFF_0000_0000u64 + b) as u64
}

/// What a single-precision result is stored as: a NaN becomes the canonical
/// NaN, anything else is NaN-boxed as it is.
pub open spec fn store32(b: u32) -> u64 {
    if is_nan32(b) {
        crate::cpu::NAN_F64
    } else {
        box32(b)
    }
}

/// What a double-precision result is stored as: a NaN becomes the canonical
/// NaN, anything else is kept.
pub open spec fn store64(b: u64) -> u64 {
    if is_nan64(b) {
        crate::cpu::CANONICAL_NAN_F64
    } else {
        b
    }
}

/// The FCLASS result of a single-precision pattern: one bit set out of ten,
/// in the order -inf, -normal, -subnormal, -0, +0, +subnormal, +normal,
/// +inf, signaling NaN, quiet NaN.
pub open spec fn fclass32(b: u32) -> u32 {
    let neg = b & 0x8000_0000 != 0;
    let exp = b & 0x7F80_0000;
    let frac = b & 0x007F_FFFF;
    if exp == 0x7F80_0000 && frac == 0 {
        if neg { 1 } else { 0x80 }
    } else if exp == 0x7F80_0000 {
        if b & 0x0040_0000 != 0 { 0x200 } else { 0x100 }
    } else if exp == 0 && frac == 0 {
        if neg { 0x8 } else { 0x10 }
    } else if exp == 0 {
        if neg { 0x4 } else { 0x20 }
    } else {
        if neg { 0x2 } else { 0x40 }
    }
}

/// The FCLASS result of a double-precision pattern (see `fclass32`).
pub open spec fn fclass64(b: u64) -> u32 {
    let neg = b & 0x8000_0000_0000_0000 != 0;
    let exp = b & 0x7FF0_0000_0000_0000;
    let frac = b & 0x000F_FFFF_FFFF_FFFF;
    if exp == 0x7FF0_0000_0000_0000 && frac == 0 {
        if neg { 1 } else { 0x80 }
    } else if exp == 0x7FF0_0000_0000_0000 {
        if b & 0x0008_0000_0000_0000 != 0 { 0x200 } else { 0x100 }
    } else if exp == 0 && frac == 0 {
        if neg { 0x8 } else { 0x10 }
    } else if exp == 0 {
        if neg { 0x4 } else { 0x20 }
    } else {
        if neg { 0x2 } else { 0x40 }
    }
}

/// Sign injection: the magnitude of `a` with a sign chosen by `funct3`
/// (0: the sign of `b`, 1: its opposite, 2: the two signs' exclusive or).
pub open spec fn sign_inject32(funct3: u8, a: u32, b: u32) -> u32 {
    let sign = if funct3 == 0 {
        b & 0x8000_0000
    } else if funct3 == 1 {
        !b & 0x8000_0000
    } else {
        (a ^ b) & 0x8000_0000
    };
    (a & 0x7FFF_FFFF) | sign
}

pub open spec fn sign_inject64(funct3: u8, a: u64, b: u64) -> u64 {
    let sign = if funct3 == 0 {
        b & 0x8000_0000_0000_0000
    } else if funct3 == 1 {
        !b & 0x8000_0000_0000_0000
    } else {
        (a ^ b) & 0x8000_0000_0000_0000
    };
    (a & 0x7FFF_FFFF_FFFF_FFFF) | sign
}

pub fn unbox_f32(f: u64) -> (r: u32)
    ensures
        r == unbox32(f),
{
    assert((f & 0xFFFF_FFFF) as u32 == (f % 0x1_0000_0000) as u32) by (bit_vector);
    if (f >> 32) == 0xFFFF_FFFF {
        (f & 0xFFFF_FFFF) as u32
    } else {
        crate::cpu::NAN_F32
    }
}

pub fn box_f32(b: u32) -> (r: u64)
    ensures
        r == box32(b),
{
    assert(0xFFFF_FFFF_0000_0000u64 | (b as u64) == (0xFFFF_FFFF_0000_0000u64 + b) as u64)
        by (bit_vector);
    0xFFFF_FFFF_0000_0000u64 | (b as u64)
}

pub fn store_f32(b: u32) -> (r: u64)
    ensures
        r == store32(b),
{
    if (b & 0x7F80_0000) == 0x7F80_0000 && (b & 0x007F_FFFF) != 0 {
        crate::cpu::NAN_F64
    } else {
        box_f32(b)
    }
}

pub fn store_f64(b: u64) -> (r: u64)
    ensures
        r == store64(b),
{
    if (b & 0x7FF0_0000_0000_0000) == 0x7FF0_0000_0000_0000 && (b & 0x000F_FFFF_FFFF_FFFF) != 0 {
        crate::cpu::CANONICAL_NAN_F64
    } else {
        b
    }
}

pub fn classify_f32(bits: u32) -> (r: u32)
    ensures
        r == fclass32(bits),
{
    let is_neg = (bits & 0x8000_0000) != 0;
    let exp = bits & 0x7F80_0000;
    let frac = bits & 0x007F_FFFF;
    if exp == 0x7F80_0000 && frac == 0 {
        if is_neg { 1 } else { 0x80 }
    } else if exp == 0x7F80_0000 {
        if (bits & 0x0040_0000) != 0 { 0x200 } else { 0x100 }
    } else if exp == 0 && frac == 0 {
        if is_neg { 0x8 } else { 0x10 }
    } else if exp == 0 {
        if is_neg { 0x4 } else { 0x20 }
    } else if is_neg {
        0x2
    } else {
        0x40
    }
}

pub fn classify_f64(bits: u64) -> (r: u32)
    ensures
        r == fclass64(bits),
{
    let is_neg = (bits & 0x8000_0000_0000_0000) != 0;
    let exp = bits & 0x7FF0_0000_0000_0000;
    let frac = bits & 0x000F_FFFF_FFFF_FFFF;
    if exp == 0x7FF0_0000_0000_0000 && frac == 0 {
        if is_neg { 1 } else { 0x80 }
    } else if exp == 0x7FF0_0000_0000_0000 {
        if (bits & 0x0008_0000_0000_0000) != 0 { 0x200 } else { 0x100 }
    } else if exp == 0 && frac == 0 {
        if is_neg { 0x8 } else { 0x10 }
    } else if exp == 0 {
        if is_neg { 0x4 } else { 0x20 }
    } else if is_neg {
        0x2
    } else {
        0x40
    }
}

} // verus!

verus! {

/// Whether the operation produces a single-precision value.
pub open spec fn yields_single(op: FloatOp) -> bool {
    matches!(op, FloatOp::AddS | FloatOp::SubS | FloatOp::MulS | FloatOp::DivS | FloatOp::SqrtS
        | FloatOp::MinS | FloatOp::MaxS | FloatOp::CvtSW | FloatOp::CvtSWu | FloatOp::CvtSD
        | FloatOp::MaddS | FloatOp::MsubS | FloatOp::NmsubS | FloatOp::NmaddS)
}

/// Whether the operation produces an integer (comparisons and conversions to words).
pub open spec fn yields_integer(op: FloatOp) -> bool {
    matches!(op, FloatOp::LeS | FloatOp::LtS | FloatOp::EqS | FloatOp::CvtWS | FloatOp::CvtWuS
        | FloatOp::LeD | FloatOp::LtD | FloatOp::EqD | FloatOp::CvtWD | FloatOp::CvtWuD)
}

/// Whether the operation reads its first operand from an integer register.
pub open spec fn reads_integer(op: FloatOp) -> bool {
    matches!(op, FloatOp::CvtSW | FloatOp::CvtSWu | FloatOp::CvtDW | FloatOp::CvtDWu)
}

/// A register handed to the floating-point unit as an operand of `op`: a
/// single unboxed (the canonical NaN when it is not boxed), or a double as
/// it is.
pub open spec fn fp_operand(c: CpuView, op: FloatOp, r: int) -> u64 {
    if reads_single(op) {
        unbox32(c.fregs[r]) as u64
    } else {
        c.fregs[r]
    }
}

/// The operands handed to the floating-point unit for `op` from registers
/// `rs1`, `rs2` and `rs3` of `c`; the first is an integer register for a
/// conversion from an integer.
pub open spec fn operands_of(c: CpuView, op: FloatOp, rs1: int, rs2: int, rs3: int) -> (u64, u64, u64) {
    (
        if reads_integer(op) {
            c.reg(rs1) as u64
        } else {
            fp_operand(c, op, rs1)
        },
        fp_operand(c, op, rs2),
        fp_operand(c, op, rs3),
    )
}

/// What the floating-point unit is asked for the instruction `d` in state
/// `c`: its operation and the operands read from its source registers.
pub open spec fn fpu_request(c: CpuView, d: DecodedInst32) -> (FloatOp, u64, u64, u64) {
    let op = float_op_of(d).unwrap();
    let o = operands_of(c, op, d.rs1 as int, d.rs2 as int, d.rs3 as int);
    (op, o.0, o.1, o.2)
}

/// `c` after the floating-point unit's answer `res` to `op` is written to
/// register `rd`: the low word to an integer register, a single NaN-boxed
/// (a NaN made canonical), a double with a NaN made canonical.
pub open spec fn fp_written(c: CpuView, op: FloatOp, rd: int, res: u64) -> CpuView {
    if yields_integer(op) {
        c.with_reg(rd, res as u32)
    } else if yields_single(op) {
        c.with_freg(rd, store32(res as u32))
    } else {
        c.with_freg(rd, store64(res))
    }
}

/// Whether the operation reads single-precision operands.
pub open spec fn reads_single(op: FloatOp) -> bool {
    matches!(op, FloatOp::AddS | FloatOp::SubS | FloatOp::MulS | FloatOp::DivS | FloatOp::SqrtS
        | FloatOp::MinS | FloatOp::MaxS | FloatOp::LeS | FloatOp::LtS | FloatOp::EqS
        | FloatOp::CvtWS | FloatOp::CvtWuS | FloatOp::CvtDS | FloatOp::MaddS | FloatOp::MsubS
        | FloatOp::NmsubS | FloatOp::NmaddS)
}

/// The arithmetic operation that the instruction `d` hands to the
/// floating-point unit; `None` for every other instruction.
pub open spec fn float_op_of(d: crate::inst::DecodedInst32) -> Option<FloatOp> {
    let fmt = d.funct7 & 3;
    let f5 = d.funct7 >> 2;
    let f3 = d.funct3;
    let op = d.opcode;
    if op == crate::inst::OP_OP_FP && fmt == 0 {
        if f5 == 0x00 { Some(FloatOp::AddS) }
        else if f5 == 0x01 { Some(FloatOp::SubS) }
        else if f5 == 0x02 { Some(FloatOp::MulS) }
        else if f5 == 0x03 { Some(FloatOp::DivS) }
        else if f5 == 0x0B { Some(FloatOp::SqrtS) }
        else if f5 == 0x05 && f3 == 0 { Some(FloatOp::MinS) }
        else if f5 == 0x05 && f3 == 1 { Some(FloatOp::MaxS) }
        else if f5 == 0x18 { if d.rs2 == 0 { Some(FloatOp::CvtWS) } else { Some(FloatOp::CvtWuS) } }
        else if f5 == 0x1A { if d.rs2 == 0 { Some(FloatOp::CvtSW) } else { Some(FloatOp::CvtSWu) } }
        else if f5 == 0x14 && f3 == 0 { Some(FloatOp::LeS) }
        else if f5 == 0x14 && f3 == 1 { Some(FloatOp::LtS) }
        else if f5 == 0x14 && f3 == 2 { Some(FloatOp::EqS) }
        else if f5 == 0x08 { Some(FloatOp::CvtSD) }
        else { None }
    } else if op == crate::inst::OP_OP_FP && fmt == 1 {
        if f5 == 0x00 { Some(FloatOp::AddD) }
        else if f5 == 0x01 { Some(FloatOp::SubD) }
        else if f5 == 0x02 { Some(FloatOp::MulD) }
        else if f5 == 0x03 { Some(FloatOp::DivD) }
        else if f5 == 0x0B { Some(FloatOp::SqrtD) }
        else if f5 == 0x05 && f3 == 0 { Some(FloatOp::MinD) }
        else if f5 == 0x05 && f3 == 1 { Some(FloatOp::MaxD) }
        else if f5 == 0x18 { if d.rs2 == 0 { Some(FloatOp::CvtWD) } else { Some(FloatOp::CvtWuD) } }
        else if f5 == 0x1A { if d.rs2 == 0 { Some(FloatOp::CvtDW) } else { Some(FloatOp::CvtDWu) } }
        else if f5 == 0x14 && f3 == 0 { Some(FloatOp::LeD) }
        else if f5 == 0x14 && f3 == 1 { Some(FloatOp::LtD) }
        else if f5 == 0x14 && f3 == 2 { Some(FloatOp::EqD) }
        else if f5 == 0x08 { Some(FloatOp::CvtDS) }
        else { None }
    } else if (op == crate::inst::OP_MADD || op == crate::inst::OP_MSUB || op == crate::inst::OP_NMSUB
        || op == crate::inst::OP_NMADD) && fmt <= 1 {
        if fmt == 0 {
            if op == crate::inst::OP_MADD { Some(FloatOp::MaddS) }
            else if op == crate::inst::OP_MSUB { Some(FloatOp::MsubS) }
            else if op == crate::inst::OP_NMSUB { Some(FloatOp::NmsubS) }
            else { Some(FloatOp::NmaddS) }
        } else {
            if op == crate::inst::OP_MADD { Some(FloatOp::MaddD) }
            else if op == crate::inst::OP_MSUB { Some(FloatOp::MsubD) }
            else if op == crate::inst::OP_NMSUB { Some(FloatOp::NmsubD) }
            else { Some(FloatOp::NmaddD) }
        }
    } else {
        None
    }
}

/// The operation handed to the floating-point unit for `inst`, if any.
pub fn decode_float_op(inst: &crate::inst::DecodedInst32) -> (r: Option<FloatOp>)
    ensures
        r == float_op_of(*inst),
{
    let fmt = inst.funct7 & 3;
    let f5 = inst.funct7 >> 2;
    let f3 = inst.funct3;
    let op = inst.opcode;
    if op == crate::inst::OP_OP_FP && fmt == 0 {
        if f5 == 0x00 { Some(FloatOp::AddS) }
        else if f5 == 0x01 { Some(FloatOp::SubS) }
        else if f5 == 0x02 { Some(FloatOp::MulS) }
        else if f5 == 0x03 { Some(FloatOp::DivS) }
        else if f5 == 0x0B { Some(FloatOp::SqrtS) }
        else if f5 == 0x05 && f3 == 0 { Some(FloatOp::MinS) }
        else if f5 == 0x05 && f3 == 1 { Some(FloatOp::MaxS) }
        else if f5 == 0x18 { if inst.rs2 == 0 { Some(FloatOp::CvtWS) } else { Some(FloatOp::CvtWuS) } }
        else if f5 == 0x1A { if inst.rs2 == 0 { Some(FloatOp::CvtSW) } else { Some(FloatOp::CvtSWu) } }
        else if f5 == 0x14 && f3 == 0 { Some(FloatOp::LeS) }
        else if f5 == 0x14 && f3 == 1 { Some(FloatOp::LtS) }
        else if f5 == 0x14 && f3 == 2 { Some(FloatOp::EqS) }
        else if f5 == 0x08 { Some(FloatOp::CvtSD) }
        else { None }
    } else if op == crate::inst::OP_OP_FP && fmt == 1 {
        if f5 == 0x00 { Some(FloatOp::AddD) }
        else if f5 == 0x01 { Some(FloatOp::SubD) }
        else if f5 == 0x02 { Some(FloatOp::MulD) }
        else if f5 == 0x03 { Some(FloatOp::DivD) }
        else if f5 == 0x0B { Some(FloatOp::SqrtD) }
        else if f5 == 0x05 && f3 == 0 { Some(FloatOp::MinD) }
        else if f5 == 0x05 && f3 == 1 { Some(FloatOp::MaxD) }
        else if f5 == 0x18 { if inst.rs2 == 0 { Some(FloatOp::CvtWD) } else { Some(FloatOp::CvtWuD) } }
        else if f5 == 0x1A { if inst.rs2 == 0 { Some(FloatOp::CvtDW) } else { Some(FloatOp::CvtDWu) } }
        else if f5 == 0x14 && f3 == 0 { Some(FloatOp::LeD) }
        else if f5 == 0x14 && f3 == 1 { Some(FloatOp::LtD) }
        else if f5 == 0x14 && f3 == 2 { Some(FloatOp::EqD) }
        else if f5 == 0x08 { Some(FloatOp::CvtDS) }
        else { None }
    } else if (op == crate::inst::OP_MADD || op == crate::inst::OP_MSUB || op == crate::inst::OP_NMSUB
        || op == crate::inst::OP_NMADD) && fmt <= 1 {
        if fmt == 0 {
            if op == crate::inst::OP_MADD { Some(FloatOp::MaddS) }
            else if op == crate::inst::OP_MSUB { Some(FloatOp::MsubS) }
            else if op == crate::inst::OP_NMSUB { Some(FloatOp::NmsubS) }
            else { Some(FloatOp::NmaddS) }
        } else {
            if op == crate::inst::OP_MADD { Some(FloatOp::MaddD) }
            else if op == crate::inst::OP_MSUB { Some(FloatOp::MsubD) }
            else if op == crate::inst::OP_NMSUB { Some(FloatOp::NmsubD) }
            else { Some(FloatOp::NmaddD) }
        }
    } else {
        None
    }
}

} // verus!

verus! {

impl FloatOp {
    pub fn is_single_result(&self) -> (r: bool)
        ensures
            r == yields_single(*self),
    {
        matches!(*self, FloatOp::AddS | FloatOp::SubS | FloatOp::MulS | FloatOp::DivS | FloatOp::SqrtS
            | FloatOp::MinS | FloatOp::MaxS | FloatOp::CvtSW | FloatOp::CvtSWu | FloatOp::CvtSD
            | FloatOp::MaddS | FloatOp::MsubS | FloatOp::NmsubS | FloatOp::NmaddS)
    }

    pub fn is_integer_result(&self) -> (r: bool)
        ensures
            r == yields_integer(*self),
    {
        matches!(*self, FloatOp::LeS | FloatOp::LtS | FloatOp::EqS | FloatOp::CvtWS | FloatOp::CvtWuS
            | FloatOp::LeD | FloatOp::LtD | FloatOp::EqD | FloatOp::CvtWD | FloatOp::CvtWuD)
    }

    pub fn is_integer_source(&self) -> (r: bool)
        ensures
            r == reads_integer(*self),
    {
        matches!(*self, FloatOp::CvtSW | FloatOp::CvtSWu | FloatOp::CvtDW | FloatOp::CvtDWu)
    }

    pub fn is_single_source(&self) -> (r: bool)
        ensures
            r == reads_single(*self),
    {
        matches!(*self, FloatOp::AddS | FloatOp::SubS | FloatOp::MulS | FloatOp::DivS | FloatOp::SqrtS
            | FloatOp::MinS | FloatOp::MaxS | FloatOp::LeS | FloatOp::LtS | FloatOp::EqS
            | FloatOp::CvtWS | FloatOp::CvtWuS | FloatOp::CvtDS | FloatOp::MaddS | FloatOp::MsubS
            | FloatOp::NmsubS | FloatOp::NmaddS)
    }
}

/// The little-endian doubleword at `addr` in `ram`, read as two words (the
/// second one at `addr + 4`, wrapping).
pub open spec fn ram_u64(ram: Map<u32, u8>, addr: u32) -> u64 {
    (ram_u32(ram, addr) + 0x1_0000_0000 * ram_u32(ram, addr_add(addr, 4))) as u64
}

/// A doubleword store of `bits` at `addr` turned `before` into `after`: the
/// low word is stored at `addr`, then the high word at `addr + 4`.
pub open spec fn stored_double(before: Map<u32, u8>, after: Map<u32, u8>, addr: u32, bits: u64) -> bool {
    exists|mid: Map<u32, u8>|
        #![trigger stored(before, mid, addr, 4, (bits % 0x1_0000_0000) as u32)]
        stored(before, mid, addr, 4, (bits % 0x1_0000_0000) as u32) && stored(
            mid,
            after,
            addr_add(addr, 4),
            4,
            (bits / 0x1_0000_0000) as u32,
        )
}

/// The effect of an instruction of the F and D extensions decoded as `d`
/// (see `rv32i_effect`); `has_fpu` says whether a floating-point unit is attached.
pub open spec fn fp_effect(
    pre: CpuView,
    ram: Map<u32, u8>,
    d: DecodedInst32,
    has_fpu: bool,
    post: CpuView,
    ram_post: Map<u32, u8>,
    r: Result<(), CpuError>,
) -> bool {
    let rd = d.rd as int;
    let rs1 = d.rs1 as int;
    let rs2 = d.rs2 as int;
    let seq = seq_pc(pre.pc, 4);
    let unchanged = r == Err::<(), CpuError>(CpuError::IllegalInstruction { pc: pre.pc, raw: d.raw })
        && post == pre && ram_post == ram;
    let f1 = pre.fregs[rs1];
    let f2 = pre.fregs[rs2];
    let fmt = d.funct7 & 3;
    let f5 = d.funct7 >> 2;
    let f3 = d.funct3;
    if d.opcode == OP_LOAD_FP {
        let addr = word(pre.reg(rs1) + sext12(i_field(d.raw)));
        if f3 == 2 {
            &&& r is Ok
            &&& ram_post == ram
            &&& post == pre.with_freg(rd, post.fregs[rd]).with_pc(seq)
            &&& in_ram(ram, addr, 4) ==> post.fregs[rd] == box32(ram_u32(ram, addr))
        } else if f3 == 3 {
            &&& r is Ok
            &&& ram_post == ram
            &&& post == pre.with_freg(rd, post.fregs[rd]).with_pc(seq)
            &&& in_ram(ram, addr, 4) && in_ram(ram, addr_add(addr, 4), 4) ==> post.fregs[rd] == store64(
                ram_u64(ram, addr),
            )
        } else {
            unchanged
        }
    } else if d.opcode == OP_STORE_FP {
        let addr = word(pre.reg(rs1) + sext12(s_field(d.raw)));
        if f3 == 2 {
            r is Ok && post == pre.with_pc(seq) && stored(ram, ram_post, addr, 4, (f2 % 0x1_0000_0000) as u32)
        } else if f3 == 3 {
            &&& r is Ok
            &&& post == pre.with_pc(seq)
            &&& stored_double(ram, ram_post, addr, f2)
        } else {
            unchanged
        }
    } else if float_op_of(d) is Some {
        let op = float_op_of(d).unwrap();
        if !has_fpu {
            unchanged
        } else if yields_integer(op) {
            r is Ok && ram_post == ram && post == pre.with_reg(rd, post.regs[rd]).with_pc(seq)
        } else if yields_single(op) {
            &&& r is Ok
            &&& ram_post == ram
            &&& post == pre.with_freg(rd, post.fregs[rd]).with_pc(seq)
            &&& post.fregs[rd] == store32(unbox32(post.fregs[rd]))
        } else {
            &&& r is Ok
            &&& ram_post == ram
            &&& post == pre.with_freg(rd, post.fregs[rd]).with_pc(seq)
            &&& post.fregs[rd] == store64(post.fregs[rd])
        }
    } else if d.opcode == OP_OP_FP && f5 == 0x04 && fmt <= 1 {
        if f3 > 2 {
            unchanged
        } else if fmt == 0 {
            r is Ok && ram_post == ram && post == pre.with_freg(
                rd,
                box32(sign_inject32(f3, unbox32(f1), unbox32(f2))),
            ).with_pc(seq)
        } else {
            r is Ok && ram_post == ram && post == pre.with_freg(rd, sign_inject64(f3, f1, f2)).with_pc(seq)
        }
    } else if d.opcode == OP_OP_FP && f5 == 0x1C && fmt <= 1 {
        &&& r is Ok
        &&& ram_post == ram
        &&& post == if fmt == 0 && f3 == 0 {
            pre.with_reg(rd, (f1 % 0x1_0000_0000) as u32).with_pc(seq)
        } else if fmt == 0 && f3 == 1 {
            pre.with_reg(rd, fclass32(unbox32(f1))).with_pc(seq)
        } else if fmt == 1 && f3 == 1 {
            pre.with_reg(rd, fclass64(f1)).with_pc(seq)
        } else {
            pre.with_pc(seq)
        }
    } else if d.opcode == OP_OP_FP && f5 == 0x1E && fmt == 0 {
        r is Ok && ram_post == ram && post == pre.with_freg(rd, box32(pre.reg(rs1))).with_pc(seq)
    } else {
        unchanged
    }
}

impl Cpu {
    /// The floating-point unit's answer, or `None` without one. The request
    /// is added to the record of what the unit was asked.
    fn fpu_compute(&mut self, op: FloatOp, a: u64, b: u64, c: u64) -> (r: Option<u64>)
        ensures
            r is Some <==> old(self).fpu is Some,
            final(self)@ == old(self)@,
            final(self).same_attachments(old(self)),
            final(self).host_requests@ == old(self).host_requests@,
            final(self).fpu_requests@ == (if old(self).fpu is Some {
                old(self).fpu_requests@.push((op, a, b, c))
            } else {
                old(self).fpu_requests@
            }),
    {
        match &self.fpu {
            Some(f) => {
                let v = f.compute(op, a, b, c);
                self.fpu_requests = Ghost(self.fpu_requests@.push((op, a, b, c)));
                Some(v)
            },
            None => None,
        }
    }

    /// The operands of `op` for the floating-point unit, read from registers
    /// `rs1`, `rs2` and `rs3`.
    pub fn fp_operands(&self, op: FloatOp, rs1: usize, rs2: usize, rs3: usize) -> (r: (u64, u64, u64))
        requires
            rs1 < 32,
            rs2 < 32,
            rs3 < 32,
        ensures
            r == operands_of(self@, op, rs1 as int, rs2 as int, rs3 as int),
    {
        let a: u64 = if op.is_integer_source() {
            self.read_reg(rs1) as u64
        } else if op.is_single_source() {
            unbox_f32(self.fregs[rs1]) as u64
        } else {
            self.fregs[rs1]
        };
        let b: u64 = if op.is_single_source() {
            unbox_f32(self.fregs[rs2]) as u64
        } else {
            self.fregs[rs2]
        };
        let c: u64 = if op.is_single_source() {
            unbox_f32(self.fregs[rs3]) as u64
        } else {
            self.fregs[rs3]
        };
        (a, b, c)
    }

    /// Write the floating-point unit's answer `res` to `op` into register `rd`.
    pub fn write_fp_result(&mut self, op: FloatOp, rd: usize, res: u64)
        requires
            rd < 32,
        ensures
            final(self).same_requests(old(self)),
            final(self)@ == fp_written(old(self)@, op, rd as int, res),
            final(self).same_attachments(old(self)),
    {
        if op.is_integer_result() {
            self.write_reg(rd, res as u32);
        } else if op.is_single_result() {
            let v = store_f32(res as u32);
            self.fregs[rd] = v;
        } else {
            let v = store_f64(res);
            self.fregs[rd] = v;
        }
    }

    /// Loads the word at `addr` into `fregs[rd]`, NaN-boxed.
    pub(crate) fn load_single<M: MemoryOps>(&mut self, mem: &mut M, addr: u32, rd: usize)
        requires
            old(mem).inv(),
            rd < 32,
        ensures
            read_keeps(&*final(mem), &*old(mem)),
            in_ram(old(mem).ram(), addr, 4) ==> final(mem).mmio_reads() == old(mem).mmio_reads(),
            final(self).same_requests(old(self)),
            final(self)@ == old(self)@.with_freg(rd as int, final(self)@.fregs[rd as int]),
            in_ram(old(mem).ram(), addr, 4) ==> final(self)@.fregs[rd as int] == box32(
                ram_u32(old(mem).ram(), addr),
            ),
            final(self).same_attachments(old(self)),
    {
        proof {
            assert(addr_add(addr, 0) == addr);
        }
        let raw = mem.read_u32(addr);
        self.fregs[rd] = box_f32(raw);
    }

    /// Loads the doubleword at `addr` into `fregs[rd]`; a NaN is made canonical.
    pub(crate) fn load_double<M: MemoryOps>(&mut self, mem: &mut M, addr: u32, rd: usize)
        requires
            old(mem).inv(),
            rd < 32,
        ensures
            read_keeps(&*final(mem), &*old(mem)),
            in_ram(old(mem).ram(), addr, 4) && in_ram(old(mem).ram(), addr_add(addr, 4), 4)
                ==> final(mem).mmio_reads() == old(mem).mmio_reads(),
            final(self).same_requests(old(self)),
            final(self)@ == old(self)@.with_freg(rd as int, final(self)@.fregs[rd as int]),
            in_ram(old(mem).ram(), addr, 4) && in_ram(old(mem).ram(), addr_add(addr, 4), 4)
                ==> final(self)@.fregs[rd as int] == store64(ram_u64(old(mem).ram(), addr)),
            final(self).same_attachments(old(self)),
    {
        proof {
            assert(addr_add(addr, 0) == addr);
            crate::memory::lemma_wrapping_add_usize(addr, 4);
            assert(addr_add(addr_add(addr, 4), 0) == addr_add(addr, 4));
        }
        let low = mem.read_u32(addr) as u64;
        let high = mem.read_u32(addr.wrapping_add(4)) as u64;
        assert((high << 32) | low == low + 0x1_0000_0000 * high) by (bit_vector)
            requires
                low < 0x1_0000_0000,
                high < 0x1_0000_0000,
        ;
        self.fregs[rd] = store_f64((high << 32) | low);
    }

    /// Stores the low word of `fregs[rs]` at `addr`.
    pub(crate) fn store_single<M: MemoryOps>(&self, mem: &mut M, addr: u32, rs: usize)
        requires
            old(mem).inv(),
            rs < 32,
        ensures
            final(mem).inv(),
            final(mem).brk() == old(mem).brk(),
            stored(old(mem).ram(), final(mem).ram(), addr, 4, (self@.fregs[rs as int] % 0x1_0000_0000) as u32),
    {
        let bits = self.fregs[rs];
        assert((bits & 0xFFFF_FFFF) as u32 == (bits % 0x1_0000_0000) as u32) by (bit_vector);
        mem.write_u32(addr, (bits & 0xFFFF_FFFF) as u32);
        proof {
            assert(addr_add(addr, 0) == addr);
        }
    }

    /// Stores `fregs[rs]` at `addr`, low word first.
    pub(crate) fn store_double<M: MemoryOps>(&self, mem: &mut M, addr: u32, rs: usize)
        requires
            old(mem).inv(),
            rs < 32,
        ensures
            final(mem).inv(),
            final(mem).brk() == old(mem).brk(),
            stored_double(old(mem).ram(), final(mem).ram(), addr, self@.fregs[rs as int]),
    {
        let bits = self.fregs[rs];
        assert((bits & 0xFFFF_FFFF) as u32 == (bits % 0x1_0000_0000) as u32 && (bits >> 32) as u32
            == (bits / 0x1_0000_0000) as u32) by (bit_vector);
        let ghost before = mem.ram();
        mem.write_u32(addr, (bits & 0xFFFF_FFFF) as u32);
        let ghost mid = mem.ram();
        proof {
            assert(addr_add(addr, 0) == addr);
            crate::memory::lemma_wrapping_add_usize(addr, 4);
            assert(addr_add(addr_add(addr, 4), 0) == addr_add(addr, 4));
        }
        mem.write_u32(addr.wrapping_add(4), (bits >> 32) as u32);
        proof {
            assert(stored(before, mid, addr, 4, (bits % 0x1_0000_0000) as u32));
            assert(stored(mid, mem.ram(), addr_add(addr, 4), 4, (bits / 0x1_0000_0000) as u32));
        }
    }

    #[verifier::spinoff_prover]
    #[verifier::rlimit(80)]
    pub(crate) fn exec_rv32fd<M: MemoryOps>(&mut self, inst: &DecodedInst32, mem: &mut M) -> (r: Result<(), CpuError>)
        requires
            *inst == DecodedInst32::spec_decode(inst.raw),
            old(mem).inv(),
        ensures
            final(mem).inv(),
            final(mem).brk() == old(mem).brk(),
            final(self).same_attachments(old(self)),
            final(self).host_requests@ == old(self).host_requests@,
            final(self).fpu_requests@ == (if float_op_of(*inst) is Some && old(self).fpu is Some {
                old(self).fpu_requests@.push(fpu_request(old(self)@, *inst))
            } else {
                old(self).fpu_requests@
            }),
            r is Ok ==> final(self)@.pc == old(self)@.pc,
            fp_effect(
                old(self)@,
                old(mem).ram(),
                *inst,
                old(self).fpu is Some,
                if r is Ok {
                    final(self)@.with_pc(seq_pc(old(self)@.pc, 4))
                } else {
                    final(self)@
                },
                final(mem).ram(),
                r,
            ),
    {
        proof {
            DecodedInst32::lemma_fields_in_range(inst.raw);
        }
        let rd = inst.rd;
        let rs1 = inst.rs1;
        let rs2 = inst.rs2;
        let funct3 = inst.funct3;
        let ghost pre = self@;
        if let Some(op) = decode_float_op(inst) {
            let (a, b, c) = self.fp_operands(op, rs1, rs2, inst.rs3);
            match self.fpu_compute(op, a, b, c) {
                None => {
                    return Err(CpuError::IllegalInstruction { pc: self.pc, raw: inst.raw });
                },
                Some(res) => {
                    self.write_fp_result(op, rd, res);
                    proof {
                        lemma_store32_canonical(res as u32);
                        lemma_store64_canonical(res);
                    }
                    return Ok(());
                },
            }
        }
        match inst.opcode {
            OP_LOAD_FP => {
                let imm = inst.i_imm();
                proof {
                    crate::cpu::lemma_i32_as_u32(imm);
                    crate::cpu::lemma_wrapping_add_word(pre.reg(rs1 as int), imm as int);
                    assert(addr_add(word(pre.reg(rs1 as int) + imm), 0) == word(pre.reg(rs1 as int) + imm));
                }
                let addr = self.read_reg(rs1).wrapping_add(imm as u32);
                if funct3 == 2 {
                    self.load_single(mem, addr, rd);
                } else if funct3 == 3 {
                    self.load_double(mem, addr, rd);
                } else {
                    return Err(CpuError::IllegalInstruction { pc: self.pc, raw: inst.raw });
                }
            },
            OP_STORE_FP => {
                let imm = inst.s_imm();
                proof {
                    crate::cpu::lemma_i32_as_u32(imm);
                    crate::cpu::lemma_wrapping_add_word(pre.reg(rs1 as int), imm as int);
                }
                let addr = self.read_reg(rs1).wrapping_add(imm as u32);
                if funct3 == 2 {
                    self.store_single(mem, addr, rs2);
                } else if funct3 == 3 {
                    self.store_double(mem, addr, rs2);
                } else {
                    return Err(CpuError::IllegalInstruction { pc: self.pc, raw: inst.raw });
                }
            },
            OP_OP_FP => {
                let fmt = inst.funct7 & 0x3;
                let funct5 = inst.funct7 >> 2;
                if funct5 == 0x04 && fmt <= 1 {
                    if funct3 > 2 {
                        return Err(CpuError::IllegalInstruction { pc: self.pc, raw: inst.raw });
                    }
                    if fmt == 0 {
                        let b1 = unbox_f32(self.fregs[rs1]);
                        let b2 = unbox_f32(self.fregs[rs2]);
                        let res_bits = if funct3 == 0 {
                            (b1 & 0x7FFFFFFF) | (b2 & 0x80000000)
                        } else if funct3 == 1 {
                            (b1 & 0x7FFFFFFF) | ((!b2) & 0x80000000)
                        } else {
                            (b1 & 0x7FFFFFFF) | ((b1 ^ b2) & 0x80000000)
                        };
                        self.fregs[rd] = box_f32(res_bits);
                    } else {
                        let b1 = self.fregs[rs1];
                        let b2 = self.fregs[rs2];
                        let res_bits = if funct3 == 0 {
                            (b1 & 0x7FFFFFFFFFFFFFFF) | (b2 & 0x8000000000000000)
                        } else if funct3 == 1 {
                            (b1 & 0x7FFFFFFFFFFFFFFF) | ((!b2) & 0x8000000000000000)
                        } else {
                            (b1 & 0x7FFFFFFFFFFFFFFF) | ((b1 ^ b2) & 0x8000000000000000)
                        };
                        self.fregs[rd] = res_bits;
                    }
                } else if funct5 == 0x1C && fmt <= 1 {
                    if fmt == 0 && funct3 == 0 {
                        let bits = self.fregs[rs1];
                        assert((bits & 0xFFFF_FFFF) as u32 == (bits % 0x1_0000_0000) as u32) by (bit_vector);
                        self.write_reg(rd, (bits & 0xFFFF_FFFF) as u32);
                    } else if fmt == 0 && funct3 == 1 {
                        let c = classify_f32(unbox_f32(self.fregs[rs1]));
                        self.write_reg(rd, c);
                    } else if fmt == 1 && funct3 == 1 {
                        let c = classify_f64(self.fregs[rs1]);
                        self.write_reg(rd, c);
                    }
                } else if funct5 == 0x1E && fmt == 0 {
                    let val = self.read_reg(rs1);
                    self.fregs[rd] = box_f32(val);
                } else {
                    return Err(CpuError::IllegalInstruction { pc: self.pc, raw: inst.raw });
                }
            },
            _ => {
                return Err(CpuError::IllegalInstruction { pc: self.pc, raw: inst.raw });
            },
        }
        Ok(())
    }
}

/// A stored single is the canonical store of the single it holds.
proof fn lemma_store32_canonical(b: u32)
    ensures
        store32(b) == store32(unbox32(store32(b))),
{
    let boxed = box32(b);
    assert(boxed >> 32 == 0xFFFF_FFFF && (boxed % 0x1_0000_0000) as u32 == b) by (bit_vector)
        requires
            boxed == (0xFFFF_FFFF_0000_0000u64 + b) as u64,
    ;
    assert(crate::cpu::NAN_F64 >> 32 == 0xFFFF_FFFF && (crate::cpu::NAN_F64 % 0x1_0000_0000) as u32
        == 0x7FC00000u32) by (bit_vector);
}

/// A stored double is the canonical store of itself.
proof fn lemma_store64_canonical(b: u64)
    ensures
        store64(b) == store64(store64(b)),
{
    assert(!is_nan64(crate::cpu::CANONICAL_NAN_F64) || true);
}

} // verus!

verus! {

/// The operation the floating-point unit is asked for, by the fields of the
/// instruction word: for OP-FP (opcode 0x53) by funct5 (funct7 >> 2), fmt
/// (funct7 & 3, 0 single and 1 double), funct3 and rs2; for the fused
/// multiply-adds by opcode and fmt. `fmin` is funct3 0 and `fmax` funct3 1,
/// `fle`, `flt`, `feq` funct3 0, 1 and 2.
pub proof fn law_float_op_table(d: crate::inst::DecodedInst32)
    ensures
        ({
            let f5 = d.funct7 >> 2;
            let fmt = d.funct7 & 3;
            let f3 = d.funct3;
            let fp = d.opcode == 0x53;
            &&& fp && fmt == 0 && f5 == 0x00 ==> float_op_of(d) == Some(FloatOp::AddS)
            &&& fp && fmt == 0 && f5 == 0x01 ==> float_op_of(d) == Some(FloatOp::SubS)
            &&& fp && fmt == 0 && f5 == 0x02 ==> float_op_of(d) == Some(FloatOp::MulS)
            &&& fp && fmt == 0 && f5 == 0x03 ==> float_op_of(d) == Some(FloatOp::DivS)
            &&& fp && fmt == 0 && f5 == 0x0B ==> float_op_of(d) == Some(FloatOp::SqrtS)
            &&& fp && fmt == 0 && f5 == 0x05 && f3 == 0 ==> float_op_of(d) == Some(FloatOp::MinS)
            &&& fp && fmt == 0 && f5 == 0x05 && f3 == 1 ==> float_op_of(d) == Some(FloatOp::MaxS)
            &&& fp && fmt == 0 && f5 == 0x18 && d.rs2 == 0 ==> float_op_of(d) == Some(FloatOp::CvtWS)
            &&& fp && fmt == 0 && f5 == 0x18 && d.rs2 == 1 ==> float_op_of(d) == Some(FloatOp::CvtWuS)
            &&& fp && fmt == 0 && f5 == 0x1A && d.rs2 == 0 ==> float_op_of(d) == Some(FloatOp::CvtSW)
            &&& fp && fmt == 0 && f5 == 0x1A && d.rs2 == 1 ==> float_op_of(d) == Some(FloatOp::CvtSWu)
            &&& fp && fmt == 0 && f5 == 0x14 && f3 == 0 ==> float_op_of(d) == Some(FloatOp::LeS)
            &&& fp && fmt == 0 && f5 == 0x14 && f3 == 1 ==> float_op_of(d) == Some(FloatOp::LtS)
            &&& fp && fmt == 0 && f5 == 0x14 && f3 == 2 ==> float_op_of(d) == Some(FloatOp::EqS)
            &&& fp && fmt == 0 && f5 == 0x08 ==> float_op_of(d) == Some(FloatOp::CvtSD)
            &&& fp && fmt == 1 && f5 == 0x00 ==> float_op_of(d) == Some(FloatOp::AddD)
            &&& fp && fmt == 1 && f5 == 0x01 ==> float_op_of(d) == Some(FloatOp::SubD)
            &&& fp && fmt == 1 && f5 == 0x02 ==> float_op_of(d) == Some(FloatOp::MulD)
            &&& fp && fmt == 1 && f5 == 0x03 ==> float_op_of(d) == Some(FloatOp::DivD)
            &&& fp && fmt == 1 && f5 == 0x0B ==> float_op_of(d) == Some(FloatOp::SqrtD)
            &&& fp && fmt == 1 && f5 == 0x05 && f3 == 0 ==> float_op_of(d) == Some(FloatOp::MinD)
            &&& fp && fmt == 1 && f5 == 0x05 && f3 == 1 ==> float_op_of(d) == Some(FloatOp::MaxD)
            &&& fp && fmt == 1 && f5 == 0x18 && d.rs2 == 0 ==> float_op_of(d) == Some(FloatOp::CvtWD)
            &&& fp && fmt == 1 && f5 == 0x18 && d.rs2 == 1 ==> float_op_of(d) == Some(FloatOp::CvtWuD)
            &&& fp && fmt == 1 && f5 == 0x1A && d.rs2 == 0 ==> float_op_of(d) == Some(FloatOp::CvtDW)
            &&& fp && fmt == 1 && f5 == 0x1A && d.rs2 == 1 ==> float_op_of(d) == Some(FloatOp::CvtDWu)
            &&& fp && fmt == 1 && f5 == 0x14 && f3 == 0 ==> float_op_of(d) == Some(FloatOp::LeD)
            &&& fp && fmt == 1 && f5 == 0x14 && f3 == 1 ==> float_op_of(d) == Some(FloatOp::LtD)
            &&& fp && fmt == 1 && f5 == 0x14 && f3 == 2 ==> float_op_of(d) == Some(FloatOp::EqD)
            &&& fp && fmt == 1 && f5 == 0x08 ==> float_op_of(d) == Some(FloatOp::CvtDS)
            &&& d.opcode == 0x43 && fmt == 0 ==> float_op_of(d) == Some(FloatOp::MaddS)
            &&& d.opcode == 0x47 && fmt == 0 ==> float_op_of(d) == Some(FloatOp::MsubS)
            &&& d.opcode == 0x4B && fmt == 0 ==> float_op_of(d) == Some(FloatOp::NmsubS)
            &&& d.opcode == 0x4F && fmt == 0 ==> float_op_of(d) == Some(FloatOp::NmaddS)
            &&& d.opcode == 0x43 && fmt == 1 ==> float_op_of(d) == Some(FloatOp::MaddD)
            &&& d.opcode == 0x47 && fmt == 1 ==> float_op_of(d) == Some(FloatOp::MsubD)
            &&& d.opcode == 0x4B && fmt == 1 ==> float_op_of(d) == Some(FloatOp::NmsubD)
            &&& d.opcode == 0x4F && fmt == 1 ==> float_op_of(d) == Some(FloatOp::NmaddD)
        }),
{
}

/// `fmin` and `fmax` ask for opposite operations: at each precision the two
/// funct3 values of funct5 0x05 hand over a minimum and a maximum, never the
/// same operation twice.
pub proof fn law_min_max_distinct(d: crate::inst::DecodedInst32, e: crate::inst::DecodedInst32)
    requires
        d.opcode == 0x53 && e.opcode == 0x53,
        d.funct7 == e.funct7,
        d.funct7 >> 2 == 0x05,
        d.funct3 == 0 && e.funct3 == 1,
        d.funct7 & 3 <= 1,
    ensures
        float_op_of(d) != float_op_of(e),
        float_op_of(d) == Some(FloatOp::MinS) || float_op_of(d) == Some(FloatOp::MinD),
        float_op_of(e) == Some(FloatOp::MaxS) || float_op_of(e) == Some(FloatOp::MaxD),
{
}

} // verus!

verus! {

/// A double-precision operation of two or three operands hands the unit the
/// registers named by the instruction, in order: the first operand is
/// `fregs[rs1]`, the second `fregs[rs2]`, the third `fregs[rs3]`, each as it
/// is. A single-precision one hands them over unboxed, in the same order.
pub proof fn law_fpu_operands_in_order(c: CpuView, d: crate::inst::DecodedInst32)
    requires
        float_op_of(d) is Some,
        d.rs1 < 32 && d.rs2 < 32 && d.rs3 < 32,
    ensures
        ({
            let r = fpu_request(c, d);
            let op = r.0;
            &&& r.0 == float_op_of(d).unwrap()
            &&& matches!(op, FloatOp::AddD | FloatOp::SubD | FloatOp::MulD | FloatOp::DivD
                | FloatOp::MinD | FloatOp::MaxD | FloatOp::LeD | FloatOp::LtD | FloatOp::EqD
                | FloatOp::MaddD | FloatOp::MsubD | FloatOp::NmsubD | FloatOp::NmaddD) ==> r.1
                == c.fregs[d.rs1 as int] && r.2 == c.fregs[d.rs2 as int] && r.3 == c.fregs[d.rs3 as int]
            &&& matches!(op, FloatOp::AddS | FloatOp::SubS | FloatOp::MulS | FloatOp::DivS
                | FloatOp::MinS | FloatOp::MaxS | FloatOp::LeS | FloatOp::LtS | FloatOp::EqS
                | FloatOp::MaddS | FloatOp::MsubS | FloatOp::NmsubS | FloatOp::NmaddS) ==> r.1
                == unbox32(c.fregs[d.rs1 as int]) as u64 && r.2 == unbox32(c.fregs[d.rs2 as int]) as u64
                && r.3 == unbox32(c.fregs[d.rs3 as int]) as u64
        }),
{
}

} // verus!
