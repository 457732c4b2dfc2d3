use crate::utils::ShiftThenMask;
use vstd::prelude::*;

verus! {

/// Load Upper Immediate: Places 20-bit upper immediate into rd, zeroing lower 12 bits (rd = imm << 12).
pub const OP_LUI: u8 = 0x37;

/// Add Upper Immediate to PC: Adds 20-bit upper immediate to PC and stores in rd (rd = PC + (imm << 12)).
pub const OP_AUIPC: u8 = 0x17;

/// Jump and Link: Unconditional PC-relative jump, stores return address PC+4 in rd (rd = PC+4; PC += offset).
pub const OP_JAL: u8 = 0x6F;

/// Jump and Link Register: Indirect jump to (rs1 + imm) & !1, stores return address PC+4 in rd.
pub const OP_JALR: u8 = 0x67;

/// Conditional Branch: Compares rs1 & rs2 and jumps to PC + offset if condition met (BEQ, BNE, BLT, BGE, etc.).
pub const OP_BRANCH: u8 = 0x63;

/// Memory Load: Reads byte/half/word from memory address (rs1 + offset) into rd (LB, LH, LW, LBU, LHU).
pub const OP_LOAD: u8 = 0x03;

/// Memory Store: Writes byte/half/word from register rs2 to memory address (rs1 + offset) (SB, SH, SW).
pub const OP_STORE: u8 = 0x23;

/// Integer Immediate Operations: Register-immediate arithmetic & logic (ADDI, SLTI, XORI, ORI, ANDI, SLLI, SRLI, SRAI).
pub const OP_IMM: u8 = 0x13;

/// Integer Register Operations: Register-register arithmetic & logic (ADD, SUB, SLL, SLT, XOR, SRL, SRA, OR, AND, and RV32M MUL/DIV).
pub const OP_OP: u8 = 0x33;

/// Miscellaneous Memory: Memory and instruction ordering synchronization barriers (FENCE, FENCE.I).
pub const OP_MISC_MEM: u8 = 0x0F;

/// System Operations: CSR read/write (CSRRW, CSRRS, CSRRC), environment call (ECALL), breakpoint (EBREAK), and mret.
pub const OP_SYSTEM: u8 = 0x73;

/// Atomic Memory Operations: Read-modify-write atomic memory primitives (LR.W, SC.W, AMOSWAP, AMOADD, etc.).
pub const OP_AMO: u8 = 0x2F;

/// Floating-Point Load: Reads single/double precision float from memory (rs1 + offset) into FP register rd (FLW, FLD).
pub const OP_LOAD_FP: u8 = 0x07;

/// Floating-Point Store: Writes single/double precision float from FP register rs2 to memory (rs1 + offset) (FSW, FSD).
pub const OP_STORE_FP: u8 = 0x27;

/// FP Fused Multiply-Add: Computes (s1 * s2) + s3 for single/double precision floats without intermediate rounding.
pub const OP_MADD: u8 = 0x43;

/// FP Fused Multiply-Subtract: Computes (s1 * s2) - s3 for single/double precision floats.
pub const OP_MSUB: u8 = 0x47;

/// FP Fused Negated Multiply-Subtract: Computes -((s1 * s2) - s3) for single/double precision floats.
pub const OP_NMSUB: u8 = 0x4B;

/// FP Fused Negated Multiply-Add: Computes -((s1 * s2) + s3) for single/double precision floats.
pub const OP_NMADD: u8 = 0x4F;

/// Floating-Point Operations: FP arithmetic (FADD, FSUB, FMUL, FDIV, FSQRT), sign-injection, comparisons, and conversions.
pub const OP_OP_FP: u8 = 0x53;

/// A `width`-bit two's-complement field read as a mathematical integer
/// (the 12-bit I/S immediates).
pub open spec fn sext12(v: u32) -> int {
    if v >= 0x800 { v - 0x1000 } else { v as int }
}

/// Sign extension of a 13-bit field (the B-type branch offset).
pub open spec fn sext13(v: u32) -> int {
    if v >= 0x1000 { v - 0x2000 } else { v as int }
}

/// Sign extension of a 21-bit field (the J-type jump offset).
pub open spec fn sext21(v: u32) -> int {
    if v >= 0x10_0000 { v - 0x20_0000 } else { v as int }
}

/// The 12-bit I-type immediate field, inst[31:20].
pub open spec fn i_field(raw: u32) -> u32 {
    raw >> 20
}

/// The 12-bit S-type immediate field: imm[11:5] = inst[31:25], imm[4:0] = inst[11:7].
pub open spec fn s_field(raw: u32) -> u32 {
    (((raw >> 25) & 0x7F) << 5) | ((raw >> 7) & 0x1F)
}

/// The 13-bit B-type offset field: imm[12] = inst[31], imm[11] = inst[7],
/// imm[10:5] = inst[30:25], imm[4:1] = inst[11:8], imm[0] = 0.
pub open spec fn b_field(raw: u32) -> u32 {
    (((raw >> 31) & 1) << 12) | (((raw >> 7) & 1) << 11) | (((raw >> 25) & 0x3F) << 5) | (((raw
        >> 8) & 0xF) << 1)
}

/// The 21-bit J-type offset field: imm[20] = inst[31], imm[19:12] = inst[19:12],
/// imm[11] = inst[20], imm[10:1] = inst[30:21], imm[0] = 0.
pub open spec fn j_field(raw: u32) -> u32 {
    (((raw >> 31) & 1) << 20) | (((raw >> 12) & 0xFF) << 12) | (((raw >> 20) & 1) << 11) | (((raw
        >> 21) & 0x3FF) << 1)
}

/// The S-type word that carries `imm` in its immediate bits (imm[11:5] in
/// inst[31:25], imm[4:0] in inst[11:7]) and the bits of `other` elsewhere.
pub open spec fn s_word(imm: i32, other: u32) -> u32 {
    let u = imm as u32;
    (((u >> 5) & 0x7F) << 25) | ((u & 0x1F) << 7) | (other & 0x01FF_F07F)
}

/// The B-type word that carries the even offset `imm` in its offset bits
/// and the bits of `other` elsewhere.
pub open spec fn b_word(imm: i32, other: u32) -> u32 {
    let u = imm as u32;
    (((u >> 12) & 1) << 31) | (((u >> 5) & 0x3F) << 25) | (((u >> 1) & 0xF) << 8) | (((u >> 11)
        & 1) << 7) | (other & 0x01FF_F07F)
}

/// The J-type word that carries the even offset `imm` in its offset bits
/// and the bits of `other` elsewhere.
pub open spec fn j_word(imm: i32, other: u32) -> u32 {
    let u = imm as u32;
    (((u >> 20) & 1) << 31) | (((u >> 1) & 0x3FF) << 21) | (((u >> 11) & 1) << 20) | (((u >> 12)
        & 0xFF) << 12) | (other & 0xFFF)
}

/// Every store offset in range is read back from the word that encodes it,
/// whatever the other bits of the word hold.
pub proof fn law_s_imm_round_trip(imm: i32, other: u32)
    requires
        -0x800 <= imm < 0x800,
    ensures
        sext12(s_field(s_word(imm, other))) == imm,
{
    let raw = s_word(imm, other);
    assert(sext12((((raw >> 25) & 0x7F) << 5) | ((raw >> 7) & 0x1F)) == imm) by (bit_vector)
        requires
            -0x800 <= imm < 0x800,
            raw == (((imm as u32 >> 5) & 0x7F) << 25) | ((imm as u32 & 0x1F) << 7) | (other
                & 0x01FF_F07F),
    ;
}

/// Every even branch offset in range is read back from the word that
/// encodes it, whatever the other bits of the word hold.
pub proof fn law_b_imm_round_trip(imm: i32, other: u32)
    requires
        imm % 2 == 0,
        -0x1000 <= imm < 0x1000,
    ensures
        sext13(b_field(b_word(imm, other))) == imm,
{
    let raw = b_word(imm, other);
    assert(sext13(
        (((raw >> 31) & 1) << 12) | (((raw >> 7) & 1) << 11) | (((raw >> 25) & 0x3F) << 5) | (((raw
            >> 8) & 0xF) << 1),
    ) == imm) by (bit_vector)
        requires
            imm % 2 == 0,
            -0x1000 <= imm < 0x1000,
            raw == (((imm as u32 >> 12) & 1) << 31) | (((imm as u32 >> 5) & 0x3F) << 25) | (((
            imm as u32 >> 1) & 0xF) << 8) | (((imm as u32 >> 11) & 1) << 7) | (other & 0x01FF_F07F),
    ;
}

/// Every even jump offset in range is read back from the word that encodes
/// it, whatever the other bits of the word hold.
pub proof fn law_j_imm_round_trip(imm: i32, other: u32)
    requires
        imm % 2 == 0,
        -0x10_0000 <= imm < 0x10_0000,
    ensures
        sext21(j_field(j_word(imm, other))) == imm,
{
    let raw = j_word(imm, other);
    assert(sext21(
        (((raw >> 31) & 1) << 20) | (((raw >> 12) & 0xFF) << 12) | (((raw >> 20) & 1) << 11) | (((
        raw >> 21) & 0x3FF) << 1),
    ) == imm) by (bit_vector)
        requires
            imm % 2 == 0,
            -0x10_0000 <= imm < 0x10_0000,
            raw == (((imm as u32 >> 20) & 1) << 31) | (((imm as u32 >> 1) & 0x3FF) << 21) | (((
            imm as u32 >> 11) & 1) << 20) | (((imm as u32 >> 12) & 0xFF) << 12) | (other & 0xFFF),
    ;
}

#[derive(Debug, Clone, Copy, PartialEq, Eq, Structural)]
pub struct DecodedInst32 {
    pub raw: u32,
    pub opcode: u8,
    pub rd: usize,
    pub rs1: usize,
    pub rs2: usize,
    pub rs3: usize,
    pub funct3: u8,
    pub funct7: u8,
}

impl DecodedInst32 {
    /// The fields of a 32-bit instruction word, each extracted at its fixed position.
    pub open spec fn spec_decode(inst: u32) -> DecodedInst32 {
        DecodedInst32 {
            raw: inst,
            opcode: (inst & 0x7F) as u8,
            rd: ((inst >> 7) & 0x1F) as usize,
            funct3: ((inst >> 12) & 0x7) as u8,
            rs1: ((inst >> 15) & 0x1F) as usize,
            rs2: ((inst >> 20) & 0x1F) as usize,
            rs3: ((inst >> 27) & 0x1F) as usize,
            funct7: ((inst >> 25) & 0x7F) as u8,
        }
    }

    /// Every register field names one of the 32 registers.
    pub proof fn lemma_fields_in_range(inst: u32)
        ensures
            Self::spec_decode(inst).rd < 32,
            Self::spec_decode(inst).rs1 < 32,
            Self::spec_decode(inst).rs2 < 32,
            Self::spec_decode(inst).rs3 < 32,
            Self::spec_decode(inst).opcode < 0x80,
            Self::spec_decode(inst).funct3 < 8,
            Self::spec_decode(inst).funct7 < 0x80,
    {
        assert((inst >> 7) & 0x1F < 32 && (inst >> 15) & 0x1F < 32 && (inst >> 20) & 0x1F < 32
            && (inst >> 27) & 0x1F < 32 && inst & 0x7F < 0x80 && (inst >> 12) & 0x7 < 8 && (inst
            >> 25) & 0x7F < 0x80) by (bit_vector);
    }

    pub fn decode(inst: u32) -> (d: Self)
        ensures
            d == Self::spec_decode(inst),
            d.rd < 32 && d.rs1 < 32 && d.rs2 < 32 && d.rs3 < 32,
            d.opcode < 0x80 && d.funct3 < 8 && d.funct7 < 0x80,
    {
        assert((inst >> 7) & 0x1F < 32 && (inst >> 15) & 0x1F < 32 && (inst >> 20) & 0x1F < 32
            && (inst >> 27) & 0x1F < 32 && inst & 0x7F < 0x80 && (inst >> 12) & 0x7 < 8 && (inst
            >> 25) & 0x7F < 0x80) by (bit_vector);
        Self {
            raw: inst,
            opcode: (inst & 0x7F) as u8,
            rd: inst.shift_then_mask(7, 0x1F) as usize,
            funct3: inst.shift_then_mask(12, 0x7) as u8,
            rs1: inst.shift_then_mask(15, 0x1F) as usize,
            rs2: inst.shift_then_mask(20, 0x1F) as usize,
            rs3: inst.shift_then_mask(27, 0x1F) as usize,
            funct7: inst.shift_then_mask(25, 0x7F) as u8,
        }
    }

    /// The I-type immediate, inst[31:20] sign-extended.
    pub fn i_imm(&self) -> (r: i32)
        ensures
            r == sext12(i_field(self.raw)),
    {
        let raw = self.raw;
        assert(((raw as i32) >> 20) as int == sext12(raw >> 20)) by (bit_vector);
        (self.raw as i32) >> 20
    }

    /// The S-type immediate, sign-extended from 12 bits.
    pub fn s_imm(&self) -> (r: i32)
        ensures
            r == sext12(s_field(self.raw)),
            -0x800 <= r < 0x800,
    {
        let raw = self.raw;
        let imm11_5 = self.raw.shift_then_mask(25, 0x7F);
        let imm4_0 = self.raw.shift_then_mask(7, 0x1F);
        let raw_s = (imm11_5 << 5) | imm4_0;
        assert((((((raw >> 25) & 0x7F) << 5) | ((raw >> 7) & 0x1F)) as i32) << 20 >> 20 == sext12(
            (((raw >> 25) & 0x7F) << 5) | ((raw >> 7) & 0x1F),
        ) && (((raw >> 25) & 0x7F) << 5) | ((raw >> 7) & 0x1F) < 0x1000) by (bit_vector);
        ((raw_s as i32) << 20) >> 20
    }

    /// The B-type branch offset, sign-extended from 13 bits (always even).
    pub fn b_imm(&self) -> (r: i32)
        ensures
            r == sext13(b_field(self.raw)),
            r % 2 == 0 && -0x1000 <= r < 0x1000,
    {
        let raw = self.raw;
        let imm12 = self.raw.shift_then_mask(31, 1);
        let imm10_5 = self.raw.shift_then_mask(25, 0x3F);
        let imm4_1 = self.raw.shift_then_mask(8, 0xF);
        let imm11 = self.raw.shift_then_mask(7, 1);
        let offset = (imm12 << 12) | (imm11 << 11) | (imm10_5 << 5) | (imm4_1 << 1);
        assert(offset == b_field(raw));
        assert((b_field(raw) as i32) << 19 >> 19 == sext13(b_field(raw)) && b_field(raw) < 0x2000
            && b_field(raw) % 2 == 0) by (bit_vector);
        ((offset as i32) << 19) >> 19
    }

    /// The U-type immediate: the upper 20 bits in place, the low 12 bits clear.
    pub fn u_imm(&self) -> (r: u32)
        ensures
            r == self.raw & 0xFFFF_F000,
    {
        self.raw & 0xFFFF_F000
    }

    /// The J-type jump offset, sign-extended from 21 bits (always even).
    pub fn j_imm(&self) -> (r: i32)
        ensures
            r == sext21(j_field(self.raw)),
            r % 2 == 0 && -0x10_0000 <= r < 0x10_0000,
    {
        let raw = self.raw;
        let imm20 = self.raw.shift_then_mask(31, 1);
        let imm10_1 = self.raw.shift_then_mask(21, 0x3FF);
        let imm11 = self.raw.shift_then_mask(20, 1);
        let imm19_12 = self.raw.shift_then_mask(12, 0xFF);
        let offset = (imm20 << 20) | (imm19_12 << 12) | (imm11 << 11) | (imm10_1 << 1);
        assert(offset == j_field(raw));
        assert((j_field(raw) as i32) << 11 >> 11 == sext21(j_field(raw)) && j_field(raw) < 0x20_0000
            && j_field(raw) % 2 == 0) by (bit_vector);
        ((offset as i32) << 11) >> 11
    }
}

#[derive(Debug, Clone, Copy, PartialEq, Eq, Structural)]
pub struct DecodedInst16 {
    pub raw: u16,
    pub op: u8,
    pub funct3: u8,
}

impl DecodedInst16 {
    /// The quadrant (bits 1:0) and the major function code (bits 15:13) of a
    /// compressed instruction.
    pub fn decode(inst: u16) -> (d: Self)
        ensures
            d.raw == inst,
            d.op == inst & 0x3,
            d.funct3 == (inst >> 13) & 0x7,
            d.op < 4 && d.funct3 < 8,
    {
        assert(inst & 0x3 < 4 && (inst >> 13) & 0x7 < 8) by (bit_vector);
        Self { raw: inst, op: (inst & 0x3) as u8, funct3: inst.shift_then_mask(13, 0x7) as u8 }
    }
}

} // verus!
