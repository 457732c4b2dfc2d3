//! The RV32C compressed instructions: their immediate layouts and their
//! execution.
use crate::cpu::{
    lemma_i32_as_u32, lemma_wrapping_add_word, loaded, pc_rel, seq_pc, stored, Cpu, CpuError,
    CpuView,
};
use crate::float::{box32, ram_u64, store64, stored_double};
use crate::inst::sext12;
use crate::isa::{lemma_u32_bits, word};
use crate::memory::{addr_add, in_ram, ram_u32, MemoryOps};
use crate::utils::ShiftThenMask;
use vstd::prelude::*;

verus! {

/// Sign extension of a 6-bit field.
pub open spec fn sext6(v: u32) -> int {
    if v >= 0x20 { v - 0x40 } else { v as int }
}

/// Sign extension of a 9-bit field.
pub open spec fn sext9(v: u32) -> int {
    if v >= 0x100 { v - 0x200 } else { v as int }
}

/// Sign extension of a 10-bit field.
pub open spec fn sext10(v: u32) -> int {
    if v >= 0x200 { v - 0x400 } else { v as int }
}

/// The CI-format immediate: imm[5] = inst[12], imm[4:0] = inst[6:2].
pub open spec fn ci_field(x: u32) -> u32 {
    (((x >> 12) & 1) << 5) | ((x >> 2) & 0x1F)
}

/// The CJ-format jump offset: offset[11|4|9:8|10|6|7|3:1|5] = inst[12:2].
pub open spec fn cj_field(x: u32) -> u32 {
    (((x >> 12) & 1) << 11) | (((x >> 8) & 1) << 10) | (((x >> 9) & 3) << 8) | (((x >> 6) & 1)
        << 7) | (((x >> 7) & 1) << 6) | (((x >> 2) & 1) << 5) | (((x >> 11) & 1) << 4) | (((x >> 3)
        & 7) << 1)
}

/// The CB-format branch offset: offset[8|4:3] = inst[12:10],
/// offset[7:6|2:1|5] = inst[6:2].
pub open spec fn cb_field(x: u32) -> u32 {
    (((x >> 12) & 1) << 8) | (((x >> 5) & 3) << 6) | (((x >> 2) & 1) << 5) | (((x >> 10) & 3) << 3)
        | (((x >> 3) & 3) << 1)
}

/// The `c.addi16sp` immediate: nzimm[9] = inst[12], nzimm[4|6|8:7|5] = inst[6:2].
pub open spec fn addi16sp_field(x: u32) -> u32 {
    (((x >> 12) & 1) << 9) | (((x >> 3) & 3) << 7) | (((x >> 5) & 1) << 6) | (((x >> 2) & 1) << 5)
        | (((x >> 6) & 1) << 4)
}

/// The `c.addi4spn` immediate: nzuimm[5:4|9:6|2|3] = inst[12:5].
pub open spec fn addi4spn_field(x: u32) -> u32 {
    (((x >> 11) & 3) << 4) | (((x >> 7) & 0xF) << 6) | (((x >> 6) & 1) << 2) | (((x >> 5) & 1) << 3)
}

/// The CL/CS word offset: uimm[5:3] = inst[12:10], uimm[2] = inst[6], uimm[6] = inst[5].
pub open spec fn cl_word_field(x: u32) -> u32 {
    (((x >> 10) & 7) << 3) | (((x >> 6) & 1) << 2) | (((x >> 5) & 1) << 6)
}

/// The CL/CS doubleword offset: uimm[5:3] = inst[12:10], uimm[7:6] = inst[6:5].
pub open spec fn cl_double_field(x: u32) -> u32 {
    (((x >> 10) & 7) << 3) | (((x >> 5) & 3) << 6)
}

/// The CI stack word offset: uimm[5] = inst[12], uimm[4:2] = inst[6:4], uimm[7:6] = inst[3:2].
pub open spec fn ci_word_sp_field(x: u32) -> u32 {
    (((x >> 12) & 1) << 5) | (((x >> 4) & 7) << 2) | (((x >> 2) & 3) << 6)
}

/// The CI stack doubleword offset: uimm[5] = inst[12], uimm[4:3] = inst[6:5], uimm[8:6] = inst[4:2].
pub open spec fn ci_double_sp_field(x: u32) -> u32 {
    (((x >> 12) & 1) << 5) | (((x >> 5) & 3) << 3) | (((x >> 2) & 7) << 6)
}

/// The CSS stack word offset: uimm[5:2] = inst[12:9], uimm[7:6] = inst[8:7].
pub open spec fn css_word_sp_field(x: u32) -> u32 {
    (((x >> 9) & 0xF) << 2) | (((x >> 7) & 3) << 6)
}

/// The CSS stack doubleword offset: uimm[5:3] = inst[12:10], uimm[8:6] = inst[9:7].
pub open spec fn css_double_sp_field(x: u32) -> u32 {
    (((x >> 10) & 7) << 3) | (((x >> 7) & 7) << 6)
}

/// The register x8..x15 that a 3-bit field at `shift` selects.
pub open spec fn creg_of(x: u32, shift: u32) -> int {
    ((x >> shift) & 7) + 8
}

/// The `c.addi4spn` immediate as the decoder gathers it from `inst`.
pub open spec fn addi4spn_bits(inst: u16) -> u16 {
    ((inst >> 7) & 0x30) | ((inst >> 1) & 0x3C0) | ((inst >> 4) & 0x4) | ((inst >> 2) & 0x8)
}

/// The `c.addi16sp` immediate as the decoder gathers it from `inst`.
pub open spec fn addi16sp_bits(inst: u16) -> u16 {
    (((inst >> 12) & 1) << 9) | (((inst >> 3) & 3) << 7) | (((inst >> 5) & 1) << 6) | (((inst >> 2)
        & 1) << 5) | (((inst >> 6) & 1) << 4)
}

/// The CI immediate as the decoder gathers it from `inst`.
pub open spec fn ci_bits(inst: u16) -> u16 {
    (((inst >> 12) & 1) << 5) | ((inst >> 2) & 0x1F)
}

/// The CJ offset as the decoder gathers it from `inst`.
pub open spec fn cj_bits(inst: u16) -> u16 {
    (((inst >> 12) & 1) << 11) | (((inst >> 8) & 1) << 10) | (((inst >> 9) & 3) << 8) | (((inst
        >> 6) & 1) << 7) | (((inst >> 7) & 1) << 6) | (((inst >> 2) & 1) << 5) | (((inst >> 11) & 1)
        << 4) | (((inst >> 3) & 7) << 1)
}

/// The CB offset as the decoder gathers it from `inst`.
pub open spec fn cb_bits(inst: u16) -> u16 {
    (((inst >> 12) & 1) << 8) | (((inst >> 5) & 3) << 6) | (((inst >> 2) & 1) << 5) | (((inst >> 10)
        & 3) << 3) | (((inst >> 3) & 3) << 1)
}

/// The bit fields of a compressed instruction `inst`, read from its 16 bits
/// as the executable code reads them, agree with the fields of the same bits
/// widened to 32, which the specifications read.
pub proof fn lemma_rvc_bits(inst: u16)
    ensures
        ((inst >> 13) & 7) as u32 == ((inst as u32) >> 13) & 7,
        ((inst >> 7) & 0x1F) as u32 == ((inst as u32) >> 7) & 0x1F,
        (inst >> 7) & 0x1F < 32,
        ((inst as u32) >> 7) & 0x1F < 32,
        ((inst >> 2) & 0x1F) as u32 == ((inst as u32) >> 2) & 0x1F,
        (inst >> 2) & 0x1F < 32,
        ((inst as u32) >> 2) & 0x1F < 32,
        ((inst as u32) >> 7) & 7 < 8,
        ((inst as u32) >> 2) & 7 < 8,
        ((inst >> 12) & 1) as u32 == ((inst as u32) >> 12) & 1,
        ((inst >> 10) & 3) as u32 == ((inst as u32) >> 10) & 3,
        (inst >> 10) & 3 < 4,
        ((inst >> 5) & 3) as u32 == ((inst as u32) >> 5) & 3,
        (inst & 3) as u32 == (inst as u32) & 3,
        inst & 3 < 4,
        addi4spn_bits(inst) as u32 == addi4spn_field(inst as u32),
        addi16sp_bits(inst) as u32 == addi16sp_field(inst as u32),
        (((addi16sp_bits(inst) as i16) << 6) >> 6) as int == sext10(addi16sp_field(inst as u32)),
        ci_bits(inst) as u32 == ci_field(inst as u32),
        (((ci_bits(inst) as i16) << 10) >> 10) as int == sext6(ci_field(inst as u32)),
        -32 <= ((ci_bits(inst) as i16) << 10) >> 10 < 32,
        (((cj_bits(inst) as i16) << 4) >> 4) as int == sext12(cj_field(inst as u32)),
        (((cb_bits(inst) as i16) << 7) >> 7) as int == sext9(cb_field(inst as u32)),
        ((((inst >> 10) & 7) as u32) << 3) | ((((inst >> 6) & 1) as u32) << 2) | ((((inst >> 5) & 1)
            as u32) << 6) == cl_word_field(inst as u32),
        ((((inst >> 10) & 7) as u32) << 3) | ((((inst >> 5) & 3) as u32) << 6) == cl_double_field(
            inst as u32,
        ),
        ((((inst >> 12) & 1) as u32) << 5) | ((((inst >> 4) & 7) as u32) << 2) | ((((inst >> 2) & 3)
            as u32) << 6) == ci_word_sp_field(inst as u32),
        ((((inst >> 12) & 1) as u32) << 5) | ((((inst >> 5) & 3) as u32) << 3) | ((((inst >> 2) & 7)
            as u32) << 6) == ci_double_sp_field(inst as u32),
        ((((inst >> 9) & 0xF) as u32) << 2) | ((((inst >> 7) & 3) as u32) << 6) == css_word_sp_field(
            inst as u32,
        ),
        ((((inst >> 10) & 7) as u32) << 3) | ((((inst >> 7) & 7) as u32) << 6) == css_double_sp_field(
            inst as u32,
        ),
{
    let x = inst as u32;
    assert(((inst >> 13) & 7) as u32 == (x >> 13) & 7 && ((inst >> 7) & 0x1F) as u32 == (x >> 7)
        & 0x1F && (inst >> 7) & 0x1F < 32 && (x >> 7) & 0x1F < 32 && ((inst >> 2) & 0x1F) as u32 == (x
        >> 2) & 0x1F && (inst >> 2) & 0x1F < 32 && (x >> 2) & 0x1F < 32 && (x >> 7) & 7 < 8 && (x
        >> 2) & 7 < 8 && ((inst >> 12) & 1) as u32 == (x >> 12) & 1 && ((inst >> 10) & 3) as u32
        == (x >> 10) & 3 && (inst >> 10) & 3 < 4 && ((inst >> 5) & 3) as u32 == (x >> 5) & 3 && (
    inst & 3) as u32 == x & 3 && inst & 3 < 4 && addi4spn_bits(inst) as u32 == addi4spn_field(x)
        && addi16sp_bits(inst) as u32 == addi16sp_field(x) && (((addi16sp_bits(inst) as i16) << 6)
        >> 6) as int == sext10(addi16sp_field(x)) && ci_bits(inst) as u32 == ci_field(x) && (((
    ci_bits(inst) as i16) << 10) >> 10) as int == sext6(ci_field(x)) && -32 <= ((ci_bits(inst)
        as i16) << 10) >> 10 < 32 && (((cj_bits(inst) as i16) << 4) >> 4) as int == sext12(
        cj_field(x),
    ) && (((cb_bits(inst) as i16) << 7) >> 7) as int == sext9(cb_field(x))) by (bit_vector)
        requires
            x == inst as u32,
    ;
    assert(((((inst >> 10) & 7) as u32) << 3) | ((((inst >> 6) & 1) as u32) << 2) | ((((inst >> 5)
        & 1) as u32) << 6) == cl_word_field(x) && ((((inst >> 10) & 7) as u32) << 3) | ((((inst
        >> 5) & 3) as u32) << 6) == cl_double_field(x) && ((((inst >> 12) & 1) as u32) << 5) | ((((
    inst >> 4) & 7) as u32) << 2) | ((((inst >> 2) & 3) as u32) << 6) == ci_word_sp_field(x) && ((((
    inst >> 12) & 1) as u32) << 5) | ((((inst >> 5) & 3) as u32) << 3) | ((((inst >> 2) & 7)
        as u32) << 6) == ci_double_sp_field(x) && ((((inst >> 9) & 0xF) as u32) << 2) | ((((inst >> 7)
        & 3) as u32) << 6) == css_word_sp_field(x) && ((((inst >> 10) & 7) as u32) << 3) | ((((inst
        >> 7) & 7) as u32) << 6) == css_double_sp_field(x)) by (bit_vector)
        requires
            x == inst as u32,
    ;
}

/// Register number of a 3-bit compressed register field starting at `shift`.
/// The field selects one of x8..x15.
pub fn creg(inst: u16, shift: u32) -> (r: usize)
    requires
        shift < 16,
    ensures
        r == creg_of(inst as u32, shift),
        8 <= r < 16,
{
    assert(((inst >> shift) & 7) as u32 == ((inst as u32) >> shift) & 7 && ((inst as u32) >> shift)
        & 7 < 8) by (bit_vector)
        requires
            shift < 16,
    ;
    (inst.shift_then_mask(shift, 0x7) + 8) as usize
}

/// Word offset of the CL/CS formats (`c.lw`, `c.sw`, `c.flw`, `c.fsw`):
/// uimm[5:3] = inst[12:10], uimm[2] = inst[6], uimm[6] = inst[5].
pub fn cl_word_offset(inst: u16) -> (r: u32)
    ensures
        r == cl_word_field(inst as u32),
{
    let r = ((inst.shift_then_mask(10, 0x7) as u32) << 3) | ((inst.shift_then_mask(6, 0x1) as u32)
        << 2) | ((inst.shift_then_mask(5, 0x1) as u32) << 6);
    assert(r == cl_word_field(inst as u32)) by {
        lemma_rvc_bits(inst);
    }
    r
}

/// Doubleword offset of the CL/CS formats (`c.fld`, `c.fsd`):
/// uimm[5:3] = inst[12:10], uimm[7:6] = inst[6:5].
pub fn cl_double_offset(inst: u16) -> (r: u32)
    ensures
        r == cl_double_field(inst as u32),
{
    let r = ((inst.shift_then_mask(10, 0x7) as u32) << 3) | ((inst.shift_then_mask(5, 0x3) as u32)
        << 6);
    assert(r == cl_double_field(inst as u32)) by {
        lemma_rvc_bits(inst);
    }
    r
}

/// Stack-relative word offset of the CI format (`c.lwsp`, `c.flwsp`):
/// uimm[5] = inst[12], uimm[4:2] = inst[6:4], uimm[7:6] = inst[3:2].
pub fn ci_word_sp_offset(inst: u16) -> (r: u32)
    ensures
        r == ci_word_sp_field(inst as u32),
{
    let r = ((inst.shift_then_mask(12, 0x1) as u32) << 5) | ((inst.shift_then_mask(4, 0x7) as u32)
        << 2) | ((inst.shift_then_mask(2, 0x3) as u32) << 6);
    assert(r == ci_word_sp_field(inst as u32)) by {
        lemma_rvc_bits(inst);
    }
    r
}

/// Stack-relative doubleword offset of the CI format (`c.fldsp`):
/// uimm[5] = inst[12], uimm[4:3] = inst[6:5], uimm[8:6] = inst[4:2].
pub fn ci_double_sp_offset(inst: u16) -> (r: u32)
    ensures
        r == ci_double_sp_field(inst as u32),
{
    let r = ((inst.shift_then_mask(12, 0x1) as u32) << 5) | ((inst.shift_then_mask(5, 0x3) as u32)
        << 3) | ((inst.shift_then_mask(2, 0x7) as u32) << 6);
    assert(r == ci_double_sp_field(inst as u32)) by {
        lemma_rvc_bits(inst);
    }
    r
}

/// Stack-relative word offset of the CSS format (`c.swsp`, `c.fswsp`):
/// uimm[5:2] = inst[12:9], uimm[7:6] = inst[8:7].
pub fn css_word_sp_offset(inst: u16) -> (r: u32)
    ensures
        r == css_word_sp_field(inst as u32),
{
    let r = ((inst.shift_then_mask(9, 0xF) as u32) << 2) | ((inst.shift_then_mask(7, 0x3) as u32)
        << 6);
    assert(r == css_word_sp_field(inst as u32)) by {
        lemma_rvc_bits(inst);
    }
    r
}

/// Stack-relative doubleword offset of the CSS format (`c.fsdsp`):
/// uimm[5:3] = inst[12:10], uimm[8:6] = inst[9:7].
pub fn css_double_sp_offset(inst: u16) -> (r: u32)
    ensures
        r == css_double_sp_field(inst as u32),
{
    let r = ((inst.shift_then_mask(10, 0x7) as u32) << 3) | ((inst.shift_then_mask(7, 0x7) as u32)
        << 6);
    assert(r == css_double_sp_field(inst as u32)) by {
        lemma_rvc_bits(inst);
    }
    r
}

/// The sign-extended CI immediate (`c.addi`, `c.li`, `c.andi`, `c.lui`).
pub(crate) fn ci_imm(inst: u16) -> (r: i32)
    ensures
        r as int == sext6(ci_field(inst as u32)),
        -32 <= r < 32,
{
    let imm6 = (inst.shift_then_mask(12, 1) << 5) | inst.shift_then_mask(2, 0x1F);
    let v = ((imm6 as i16) << 10) >> 10;
    assert(v as int == sext6(ci_field(inst as u32)) && -32 <= v < 32) by {
        lemma_rvc_bits(inst);
    }
    v as i32
}

/// The sign-extended CJ jump offset (`c.j`, `c.jal`).
pub(crate) fn cj_offset(inst: u16) -> (r: i32)
    ensures
        r as int == sext12(cj_field(inst as u32)),
{
    let imm11 = (inst.shift_then_mask(12, 1) << 11) | (inst.shift_then_mask(8, 1) << 10) | (
    inst.shift_then_mask(9, 3) << 8) | (inst.shift_then_mask(6, 1) << 7) | (inst.shift_then_mask(
        7,
        1,
    ) << 6) | (inst.shift_then_mask(2, 1) << 5) | (inst.shift_then_mask(11, 1) << 4) | (
    inst.shift_then_mask(3, 7) << 1);
    let v = ((imm11 as i16) << 4) >> 4;
    assert(v as int == sext12(cj_field(inst as u32))) by {
        lemma_rvc_bits(inst);
    }
    v as i32
}

/// The sign-extended CB branch offset (`c.beqz`, `c.bnez`).
pub(crate) fn cb_offset(inst: u16) -> (r: i32)
    ensures
        r as int == sext9(cb_field(inst as u32)),
{
    let imm = (inst.shift_then_mask(12, 1) << 8) | (inst.shift_then_mask(5, 3) << 6) | (
    inst.shift_then_mask(2, 1) << 5) | (inst.shift_then_mask(10, 3) << 3) | (inst.shift_then_mask(
        3,
        3,
    ) << 1);
    let v = ((imm as i16) << 7) >> 7;
    assert(v as int == sext9(cb_field(inst as u32))) by {
        lemma_rvc_bits(inst);
    }
    v as i32
}

/// `a + b`, wrapping, is `a + b` wrapped into a register.
pub(crate) proof fn lemma_add_u32(a: u32, b: u32)
    ensures
        vstd::wrapping::u32_specs::wrapping_add(a, b) == word(a + b),
{
    lemma_wrapping_add_word(a, b as int);
    vstd::arithmetic::div_mod::lemma_small_mod(b as nat, 0x1_0000_0000);
}

/// `a` plus a signed offset, wrapping.
proof fn lemma_add_i32(a: u32, off: i32)
    ensures
        vstd::wrapping::u32_specs::wrapping_add(a, off as u32) == word(a + off),
{
    lemma_i32_as_u32(off);
    lemma_wrapping_add_word(a, off as int);
}

/// What a compressed instruction that succeeds leaves: state `s`, memory untouched.
pub open spec fn done(r: Result<(), CpuError>, post: CpuView, ram: Map<u32, u8>, ram_post: Map<u32, u8>, s: CpuView) -> bool {
    r is Ok && post == s && ram_post == ram
}

/// A compressed instruction that is a reserved or unknown encoding: it fails
/// and changes nothing.
pub open spec fn refused(pre: CpuView, x: u32, r: Result<(), CpuError>, post: CpuView, ram: Map<u32, u8>, ram_post: Map<u32, u8>) -> bool {
    r == Err::<(), CpuError>(CpuError::IllegalInstruction { pc: pre.pc, raw: x }) && post == pre
        && ram_post == ram
}

/// The effect of a floating-point load into `fregs[rd]` from `addr`: a word
/// NaN-boxed, or a doubleword with a NaN made canonical.
pub open spec fn fp_loaded(pre: CpuView, post: CpuView, rd: int, ram: Map<u32, u8>, addr: u32, double: bool) -> bool {
    &&& post == pre.with_freg(rd, post.fregs[rd])
    &&& !double && in_ram(ram, addr, 4) ==> post.fregs[rd] == box32(ram_u32(ram, addr))
    &&& double && in_ram(ram, addr, 4) && in_ram(ram, addr_add(addr, 4), 4) ==> post.fregs[rd]
        == store64(ram_u64(ram, addr))
}

/// The effect of a quadrant-0 instruction `x` (stack-pointer adds, and loads and
/// stores relative to x8..x15), see `exec16_effect`.
pub open spec fn c0_effect(pre: CpuView, ram: Map<u32, u8>, x: u32, post: CpuView, ram_post: Map<u32, u8>, r: Result<(), CpuError>) -> bool {
    let f3 = (x >> 13) & 7;
    let seq = seq_pc(pre.pc, 2);
    let rdp = creg_of(x, 2);
    let base = pre.reg(creg_of(x, 7));
    let waddr = word(base + cl_word_field(x));
    let daddr = word(base + cl_double_field(x));
    if f3 == 0 {
        if addi4spn_field(x) == 0 {
            refused(pre, x, r, post, ram, ram_post)
        } else {
            done(r, post, ram, ram_post, pre.with_reg(rdp, word(pre.reg(2) + addi4spn_field(x))).with_pc(seq))
        }
    } else if f3 == 1 {
        r is Ok && ram_post == ram && fp_loaded(pre.with_pc(seq), post, rdp, ram, daddr, true)
    } else if f3 == 2 {
        r is Ok && ram_post == ram && loaded(pre.with_pc(seq), post, rdp, ram, waddr, 4, ram_u32(ram, waddr))
    } else if f3 == 3 {
        r is Ok && ram_post == ram && fp_loaded(pre.with_pc(seq), post, rdp, ram, waddr, false)
    } else if f3 == 5 {
        r is Ok && post == pre.with_pc(seq) && stored_double(ram, ram_post, daddr, pre.fregs[rdp])
    } else if f3 == 6 {
        r is Ok && post == pre.with_pc(seq) && stored(ram, ram_post, waddr, 4, pre.reg(rdp))
    } else if f3 == 7 {
        r is Ok && post == pre.with_pc(seq) && stored(ram, ram_post, waddr, 4, (pre.fregs[rdp] % 0x1_0000_0000) as u32)
    } else {
        refused(pre, x, r, post, ram, ram_post)
    }
}

/// The effect of a quadrant-1 instruction `x` (immediates, arithmetic on
/// x8..x15, jumps and branches), see `exec16_effect`.
pub open spec fn c1_effect(pre: CpuView, ram: Map<u32, u8>, x: u32, post: CpuView, ram_post: Map<u32, u8>, r: Result<(), CpuError>) -> bool {
    let f3 = (x >> 13) & 7;
    let seq = seq_pc(pre.pc, 2);
    let rd = ((x >> 7) & 0x1F) as int;
    let imm = sext6(ci_field(x));
    let rdp = creg_of(x, 7);
    let rs2p = creg_of(x, 2);
    let a = pre.reg(rdp);
    let b = pre.reg(rs2p);
    let shamt = (x >> 2) & 0x1F;
    let bit12 = (x >> 12) & 1;
    if f3 == 0 {
        // C.ADDI (C.NOP for x0)
        done(r, post, ram, ram_post, pre.with_reg(rd, word(pre.reg(rd) + imm)).with_pc(seq))
    } else if f3 == 1 {
        // C.JAL
        done(r, post, ram, ram_post, pre.with_reg(1, seq).with_pc(pc_rel(pre.pc, sext12(cj_field(x)))))
    } else if f3 == 2 {
        // C.LI
        done(r, post, ram, ram_post, pre.with_reg(rd, word(imm)).with_pc(seq))
    } else if f3 == 3 {
        if rd == 2 {
            // C.ADDI16SP
            if addi16sp_field(x) == 0 {
                refused(pre, x, r, post, ram, ram_post)
            } else {
                done(r, post, ram, ram_post, pre.with_reg(2, word(pre.reg(2) + sext10(addi16sp_field(x)))).with_pc(seq))
            }
        } else if rd != 0 && ci_field(x) != 0 {
            // C.LUI
            done(r, post, ram, ram_post, pre.with_reg(rd, word(imm * 0x1000)).with_pc(seq))
        } else {
            refused(pre, x, r, post, ram, ram_post)
        }
    } else if f3 == 4 {
        let sub = (x >> 10) & 3;
        if sub == 0 && bit12 == 0 {
            // C.SRLI
            done(r, post, ram, ram_post, pre.with_reg(rdp, a >> shamt).with_pc(seq))
        } else if sub == 1 && bit12 == 0 {
            // C.SRAI
            done(r, post, ram, ram_post, pre.with_reg(rdp, ((a as i32) >> shamt) as u32).with_pc(seq))
        } else if sub == 2 {
            // C.ANDI
            done(r, post, ram, ram_post, pre.with_reg(rdp, a & word(imm)).with_pc(seq))
        } else if sub == 3 && bit12 == 0 {
            let f2 = (x >> 5) & 3;
            let v = if f2 == 0 {
                word(a - b)
            } else if f2 == 1 {
                a ^ b
            } else if f2 == 2 {
                a | b
            } else {
                a & b
            };
            done(r, post, ram, ram_post, pre.with_reg(rdp, v).with_pc(seq))
        } else {
            refused(pre, x, r, post, ram, ram_post)
        }
    } else if f3 == 5 {
        // C.J
        done(r, post, ram, ram_post, pre.with_pc(pc_rel(pre.pc, sext12(cj_field(x)))))
    } else {
        // C.BEQZ, C.BNEZ
        let taken = if f3 == 6 {
            pre.reg(rdp) == 0
        } else {
            pre.reg(rdp) != 0
        };
        done(r, post, ram, ram_post, pre.with_pc(if taken { pc_rel(pre.pc, sext9(cb_field(x))) } else { seq }))
    }
}

/// The effect of a quadrant-2 instruction `x` (shifts, stack loads and
/// stores, register moves, jumps through registers), see `exec16_effect`.
pub open spec fn c2_effect(pre: CpuView, ram: Map<u32, u8>, x: u32, post: CpuView, ram_post: Map<u32, u8>, r: Result<(), CpuError>) -> bool {
    let f3 = (x >> 13) & 7;
    let seq = seq_pc(pre.pc, 2);
    let rd = ((x >> 7) & 0x1F) as int;
    let rs2 = ((x >> 2) & 0x1F) as int;
    let bit12 = (x >> 12) & 1;
    let sp = pre.reg(2);
    if f3 == 0 {
        // C.SLLI
        if bit12 != 0 {
            refused(pre, x, r, post, ram, ram_post)
        } else {
            done(r, post, ram, ram_post, pre.with_reg(rd, pre.reg(rd) << ((x >> 2) & 0x1F)).with_pc(seq))
        }
    } else if f3 == 1 {
        r is Ok && ram_post == ram && fp_loaded(pre.with_pc(seq), post, rd, ram, word(sp + ci_double_sp_field(x)), true)
    } else if f3 == 2 {
        let addr = word(sp + ci_word_sp_field(x));
        if rd == 0 {
            refused(pre, x, r, post, ram, ram_post)
        } else {
            r is Ok && ram_post == ram && loaded(pre.with_pc(seq), post, rd, ram, addr, 4, ram_u32(ram, addr))
        }
    } else if f3 == 3 {
        r is Ok && ram_post == ram && fp_loaded(pre.with_pc(seq), post, rd, ram, word(sp + ci_word_sp_field(x)), false)
    } else if f3 == 4 {
        if bit12 == 0 && rs2 == 0 {
            // C.JR
            if rd == 0 {
                refused(pre, x, r, post, ram, ram_post)
            } else {
                done(r, post, ram, ram_post, pre.with_pc(pre.reg(rd) & !1u32))
            }
        } else if bit12 == 0 {
            // C.MV
            done(r, post, ram, ram_post, pre.with_reg(rd, pre.reg(rs2)).with_pc(seq))
        } else if rd == 0 && rs2 == 0 {
            // C.EBREAK
            done(r, post, ram, ram_post, CpuView { is_halted: true, ..pre }.with_pc(seq))
        } else if rs2 == 0 {
            // C.JALR
            done(r, post, ram, ram_post, pre.with_reg(1, seq).with_pc(pre.reg(rd) & !1u32))
        } else {
            // C.ADD
            done(r, post, ram, ram_post, pre.with_reg(rd, word(pre.reg(rd) + pre.reg(rs2))).with_pc(seq))
        }
    } else if f3 == 5 {
        r is Ok && post == pre.with_pc(seq) && stored_double(ram, ram_post, word(sp + css_double_sp_field(x)), pre.fregs[rs2])
    } else if f3 == 6 {
        r is Ok && post == pre.with_pc(seq) && stored(ram, ram_post, word(sp + css_word_sp_field(x)), 4, pre.reg(rs2))
    } else {
        r is Ok && post == pre.with_pc(seq) && stored(ram, ram_post, word(sp + css_word_sp_field(x)), 4, (pre.fregs[rs2] % 0x1_0000_0000) as u32)
    }
}

/// The effect of executing the compressed instruction `inst` in state `pre`
/// with ordinary memory `ram`: the result `r`, and the state and memory after
/// it. On success `post.pc` is the address of the next instruction; a
/// reserved encoding, or a halfword whose low two bits are set, fails as an
/// illegal instruction and changes nothing.
pub open spec fn exec16_effect(pre: CpuView, ram: Map<u32, u8>, inst: u16, post: CpuView, ram_post: Map<u32, u8>, r: Result<(), CpuError>) -> bool {
    let x = inst as u32;
    let op = x & 3;
    if op == 0 {
        c0_effect(pre, ram, x, post, ram_post, r)
    } else if op == 1 {
        c1_effect(pre, ram, x, post, ram_post, r)
    } else if op == 2 {
        c2_effect(pre, ram, x, post, ram_post, r)
    } else {
        refused(pre, x, r, post, ram, ram_post)
    }
}

impl Cpu {
    #[verifier::spinoff_prover]
    #[verifier::rlimit(40)]
    fn exec_c0<M: MemoryOps>(&mut self, inst: u16, mem: &mut M, next_pc: &u32) -> (r: Result<(), CpuError>)
        requires
            old(mem).inv(),
            (inst as u32) & 3 == 0,
            *next_pc == seq_pc(old(self).pc, 2),
        ensures
            final(mem).inv(),
            final(mem).brk() == old(mem).brk(),
            final(self)@.pc == old(self)@.pc,
            final(self).same_attachments(old(self)),
            c0_effect(
                old(self)@,
                old(mem).ram(),
                inst as u32,
                if r is Ok {
                    final(self)@.with_pc(*next_pc)
                } else {
                    final(self)@
                },
                final(mem).ram(),
                r,
            ),
    {
        let f3 = inst.shift_then_mask(13, 0x7);
        assert(f3 as u32 == ((inst as u32) >> 13) & 7) by {
            lemma_rvc_bits(inst);
        }
        let rdc = creg(inst, 2);
        let rs1c = creg(inst, 7);
        if f3 == 0 {
            // C.ADDI4SPN. The all-zero immediate is a reserved encoding, and
            // the all-zero halfword is the canonical illegal instruction.
            let imm = (inst.shift_then_mask(7, 0x30) | inst.shift_then_mask(1, 0x3C0)
                | inst.shift_then_mask(4, 0x4) | inst.shift_then_mask(2, 0x8)) as u32;
            assert(imm == addi4spn_field(inst as u32)) by {
                lemma_rvc_bits(inst);
            }
            if imm == 0 {
                return Err(CpuError::IllegalInstruction { pc: self.pc, raw: inst as u32 });
            }
            let sp = self.read_reg(2);
            proof {
                lemma_add_u32(sp, imm);
            }
            self.write_reg(rdc, sp.wrapping_add(imm));
        } else if f3 == 1 {
            // C.FLD
            let base = self.read_reg(rs1c);
            let off = cl_double_offset(inst);
            proof {
                lemma_add_u32(base, off);
            }
            self.load_double(mem, base.wrapping_add(off), rdc);
        } else if f3 == 2 {
            // C.LW
            let base = self.read_reg(rs1c);
            let off = cl_word_offset(inst);
            proof {
                lemma_add_u32(base, off);
            }
            let addr = base.wrapping_add(off);
            proof {
                assert(addr_add(addr, 0) == addr);
            }
            let v = mem.read_u32(addr);
            self.write_reg(rdc, v);
        } else if f3 == 3 {
            // C.FLW
            let base = self.read_reg(rs1c);
            let off = cl_word_offset(inst);
            proof {
                lemma_add_u32(base, off);
            }
            self.load_single(mem, base.wrapping_add(off), rdc);
        } else if f3 == 5 {
            // C.FSD
            let base = self.read_reg(rs1c);
            let off = cl_double_offset(inst);
            proof {
                lemma_add_u32(base, off);
            }
            self.store_double(mem, base.wrapping_add(off), rdc);
        } else if f3 == 6 {
            // C.SW
            let base = self.read_reg(rs1c);
            let off = cl_word_offset(inst);
            proof {
                lemma_add_u32(base, off);
            }
            let addr = base.wrapping_add(off);
            let v = self.read_reg(rdc);
            mem.write_u32(addr, v);
            proof {
                assert(addr_add(addr, 0) == addr);
            }
        } else if f3 == 7 {
            // C.FSW
            let base = self.read_reg(rs1c);
            let off = cl_word_offset(inst);
            proof {
                lemma_add_u32(base, off);
            }
            self.store_single(mem, base.wrapping_add(off), rdc);
        } else {
            return Err(CpuError::IllegalInstruction { pc: self.pc, raw: inst as u32 });
        }
        Ok(())
    }

    #[verifier::spinoff_prover]
    #[verifier::rlimit(60)]
    fn exec_c1(&mut self, inst: u16, next_pc: &mut u32) -> (r: Result<(), CpuError>)
        requires
            (inst as u32) & 3 == 1,
            *old(next_pc) == seq_pc(old(self).pc, 2),
        ensures
            final(self)@.pc == old(self)@.pc,
            final(self).same_attachments(old(self)),
            c1_effect(
                old(self)@,
                Map::empty(),
                inst as u32,
                if r is Ok {
                    final(self)@.with_pc(*final(next_pc))
                } else {
                    final(self)@
                },
                Map::empty(),
                r,
            ),
    {
        let ghost pre = self@;
        let x = inst as u32;
        let f3 = inst.shift_then_mask(13, 0x7);
        let rd = inst.shift_then_mask(7, 0x1F) as usize;
        let shamt = inst.shift_then_mask(2, 0x1F) as u32;
        let bit12 = inst.shift_then_mask(12, 1);
        let sub = inst.shift_then_mask(10, 0x3);
        assert(f3 as u32 == (x >> 13) & 7 && rd as u32 == (x >> 7) & 0x1F && rd < 32 && shamt == (x
            >> 2) & 0x1F && shamt < 32 && bit12 as u32 == (x >> 12) & 1 && sub as u32 == (x >> 10) & 3 && sub < 4)
            by {
                lemma_rvc_bits(inst);
            }
        let pc = self.pc;
        if f3 == 0 {
            // C.NOP / C.ADDI
            let imm = ci_imm(inst);
            let v = self.read_reg(rd);
            proof {
                lemma_add_i32(v, imm);
                vstd::arithmetic::div_mod::lemma_small_mod(v as nat, 0x1_0000_0000);
                assert(pre.regs.update(rd as int, pre.regs[rd as int]) =~= pre.regs);
            }
            if rd != 0 && imm != 0 {
                self.write_reg(rd, v.wrapping_add(imm as u32));
            }
        } else if f3 == 1 {
            // C.JAL
            let offset = cj_offset(inst);
            proof {
                lemma_add_i32(pc, offset);
            }
            self.write_reg(1, *next_pc);
            *next_pc = pc.wrapping_add(offset as u32);
        } else if f3 == 2 {
            // C.LI
            let imm = ci_imm(inst);
            proof {
                lemma_i32_as_u32(imm);
            }
            self.write_reg(rd, imm as u32);
        } else if f3 == 3 {
            if rd == 2 {
                // C.ADDI16SP. The immediate already carries its scale: the
                // encoded bits are nzimm[9:4], so it is only sign extended
                // from bit 9 and never shifted again.
                let imm = (inst.shift_then_mask(12, 1) << 9) | (inst.shift_then_mask(3, 3) << 7)
                    | (inst.shift_then_mask(5, 1) << 6) | (inst.shift_then_mask(2, 1) << 5) | (
                inst.shift_then_mask(6, 1) << 4);
                let offset = ((imm as i16) << 6) >> 6;
                assert(imm as u32 == addi16sp_field(x) && offset as int == sext10(addi16sp_field(x)))
                    by {
                        lemma_rvc_bits(inst);
                    }
                if imm == 0 {
                    return Err(CpuError::IllegalInstruction { pc: self.pc, raw: inst as u32 });
                }
                let sp = self.read_reg(2);
                proof {
                    lemma_add_i32(sp, offset as i32);
                }
                self.write_reg(2, sp.wrapping_add(offset as i32 as u32));
            } else if rd != 0 {
                // C.LUI. A zero immediate is a reserved encoding.
                let imm6 = (inst.shift_then_mask(12, 1) << 5) | inst.shift_then_mask(2, 0x1F);
                assert(imm6 as u32 == ci_field(x)) by {
                    lemma_rvc_bits(inst);
                }
                if imm6 == 0 {
                    return Err(CpuError::IllegalInstruction { pc: self.pc, raw: inst as u32 });
                }
                let imm = ci_imm(inst);
                assert((imm as u32) << 12 == ((imm * 0x1000) as i32) as u32) by (bit_vector)
                    requires
                        -32 <= imm < 32,
                ;
                proof {
                    lemma_i32_as_u32((imm * 0x1000) as i32);
                }
                self.write_reg(rd, (imm as u32) << 12);
            } else {
                // rd = x0 is reserved in this group.
                return Err(CpuError::IllegalInstruction { pc: self.pc, raw: inst as u32 });
            }
        } else if f3 == 4 {
            // C.SRLI / C.SRAI / C.ANDI / C.SUB / C.XOR / C.OR / C.AND
            let rdc = creg(inst, 7);
            let src = self.read_reg(rdc);
            if sub == 0 || sub == 1 {
                // C.SRLI / C.SRAI. RV32C requires shamt[5] to be zero;
                // the shamt[5] = 1 code points are reserved.
                if bit12 != 0 {
                    return Err(CpuError::IllegalInstruction { pc: self.pc, raw: inst as u32 });
                }
                assert(src >> 0u32 == src && ((src as i32) >> 0u32) as u32 == src) by {
                    lemma_u32_bits(src);
                }
                proof {
                    assert(pre.regs.update(rdc as int, pre.regs[rdc as int]) =~= pre.regs);
                }
                // shamt = 0 encodes the RV128 c.srli64/c.srai64 hints,
                // which act as a no-op here.
                if shamt != 0 {
                    let val = if sub == 0 {
                        src >> shamt
                    } else {
                        ((src as i32) >> shamt) as u32
                    };
                    self.write_reg(rdc, val);
                }
            } else if sub == 2 {
                // C.ANDI
                let imm = ci_imm(inst);
                proof {
                    lemma_i32_as_u32(imm);
                }
                self.write_reg(rdc, src & (imm as u32));
            } else {
                // bit 12 selects the RV64-only C.SUBW / C.ADDW group,
                // whose four code points are all reserved on RV32.
                if bit12 != 0 {
                    return Err(CpuError::IllegalInstruction { pc: self.pc, raw: inst as u32 });
                }
                let rs2c = creg(inst, 2);
                let src2 = self.read_reg(rs2c);
                let f2 = inst.shift_then_mask(5, 0x3);
                assert(f2 as u32 == (x >> 5) & 3) by {
                    lemma_rvc_bits(inst);
                }
                let val = if f2 == 0 {
                    src.wrapping_sub(src2)  // C.SUB
                } else if f2 == 1 {
                    src ^ src2  // C.XOR
                } else if f2 == 2 {
                    src | src2  // C.OR
                } else {
                    src & src2  // C.AND
                };
                self.write_reg(rdc, val);
            }
        } else if f3 == 5 {
            // C.J
            let offset = cj_offset(inst);
            proof {
                lemma_add_i32(pc, offset);
            }
            *next_pc = pc.wrapping_add(offset as u32);
        } else {
            // C.BEQZ / C.BNEZ
            let rs1c = creg(inst, 7);
            let offset = cb_offset(inst);
            proof {
                lemma_add_i32(pc, offset);
            }
            let v = self.read_reg(rs1c);
            let taken = if f3 == 6 {
                v == 0
            } else {
                v != 0
            };
            if taken {
                *next_pc = pc.wrapping_add(offset as u32);
            }
        }
        Ok(())
    }

    #[verifier::spinoff_prover]
    #[verifier::rlimit(60)]
    fn exec_c2<M: MemoryOps>(&mut self, inst: u16, mem: &mut M, next_pc: &mut u32) -> (r: Result<(), CpuError>)
        requires
            old(mem).inv(),
            (inst as u32) & 3 == 2,
            *old(next_pc) == seq_pc(old(self).pc, 2),
        ensures
            final(mem).inv(),
            final(mem).brk() == old(mem).brk(),
            final(self)@.pc == old(self)@.pc,
            final(self).same_attachments(old(self)),
            c2_effect(
                old(self)@,
                old(mem).ram(),
                inst as u32,
                if r is Ok {
                    final(self)@.with_pc(*final(next_pc))
                } else {
                    final(self)@
                },
                final(mem).ram(),
                r,
            ),
    {
        let ghost pre = self@;
        let x = inst as u32;
        let f3 = inst.shift_then_mask(13, 0x7);
        let rd = inst.shift_then_mask(7, 0x1F) as usize;
        let rs2 = inst.shift_then_mask(2, 0x1F) as usize;
        let bit12 = inst.shift_then_mask(12, 1);
        assert(f3 as u32 == (x >> 13) & 7 && rd as u32 == (x >> 7) & 0x1F && rd < 32 && rs2 as u32
            == (x >> 2) & 0x1F && rs2 < 32 && bit12 as u32 == (x >> 12) & 1) by {
                lemma_rvc_bits(inst);
            }
        let sp = self.read_reg(2);
        if f3 == 0 {
            // C.SLLI. RV32C requires shamt[5] to be zero.
            if bit12 != 0 {
                return Err(CpuError::IllegalInstruction { pc: self.pc, raw: inst as u32 });
            }
            let shamt = rs2 as u32;
            let v = self.read_reg(rd);
            assert(v << 0u32 == v) by {
                lemma_u32_bits(v);
            }
            proof {
                assert(pre.regs.update(rd as int, pre.regs[rd as int]) =~= pre.regs);
            }
            if rd != 0 && shamt != 0 {
                self.write_reg(rd, v << shamt);
            }
        } else if f3 == 1 {
            // C.FLDSP
            let off = ci_double_sp_offset(inst);
            proof {
                lemma_add_u32(sp, off);
            }
            self.load_double(mem, sp.wrapping_add(off), rd);
        } else if f3 == 2 {
            // C.LWSP. rd = x0 is a reserved encoding.
            if rd == 0 {
                return Err(CpuError::IllegalInstruction { pc: self.pc, raw: inst as u32 });
            }
            let off = ci_word_sp_offset(inst);
            proof {
                lemma_add_u32(sp, off);
            }
            let addr = sp.wrapping_add(off);
            proof {
                assert(addr_add(addr, 0) == addr);
            }
            let v = mem.read_u32(addr);
            self.write_reg(rd, v);
        } else if f3 == 3 {
            // C.FLWSP
            let off = ci_word_sp_offset(inst);
            proof {
                lemma_add_u32(sp, off);
            }
            self.load_single(mem, sp.wrapping_add(off), rd);
        } else if f3 == 4 {
            if bit12 == 0 && rs2 == 0 {
                // C.JR. rs1 = x0 is a reserved encoding.
                if rd == 0 {
                    return Err(CpuError::IllegalInstruction { pc: self.pc, raw: inst as u32 });
                }
                *next_pc = self.read_reg(rd) & !1;
            } else if bit12 == 0 && rs2 != 0 {
                // C.MV (rd = x0 is a hint)
                if rd != 0 {
                    let v = self.read_reg(rs2);
                    self.write_reg(rd, v);
                }
            } else if rd == 0 && rs2 == 0 {
                // C.EBREAK
                self.is_halted = true;
            } else if rs2 == 0 {
                // C.JALR
                let target = self.read_reg(rd) & !1;
                self.write_reg(1, *next_pc);
                *next_pc = target;
            } else {
                // C.ADD (rd = x0 is a hint)
                if rd != 0 {
                    let a = self.read_reg(rd);
                    let b = self.read_reg(rs2);
                    proof {
                        lemma_add_u32(a, b);
                    }
                    self.write_reg(rd, a.wrapping_add(b));
                }
            }
        } else if f3 == 5 {
            // C.FSDSP
            let off = css_double_sp_offset(inst);
            proof {
                lemma_add_u32(sp, off);
            }
            self.store_double(mem, sp.wrapping_add(off), rs2);
        } else if f3 == 6 {
            // C.SWSP
            let off = css_word_sp_offset(inst);
            proof {
                lemma_add_u32(sp, off);
            }
            let addr = sp.wrapping_add(off);
            let v = self.read_reg(rs2);
            mem.write_u32(addr, v);
            proof {
                assert(addr_add(addr, 0) == addr);
            }
        } else {
            // C.FSWSP
            let off = css_word_sp_offset(inst);
            proof {
                lemma_add_u32(sp, off);
            }
            self.store_single(mem, sp.wrapping_add(off), rs2);
        }
        Ok(())
    }

    /// Execute one compressed (16-bit) instruction at the current `pc`.
    pub fn execute_inst16<M: MemoryOps>(&mut self, inst: u16, mem: &mut M) -> (r: Result<(), CpuError>)
        requires
            old(mem).inv(),
        ensures
            final(mem).inv(),
            final(mem).brk() == old(mem).brk(),
            final(self).same_attachments(old(self)),
            exec16_effect(old(self)@, old(mem).ram(), inst, final(self)@, final(mem).ram(), r),
    {
        let op = inst & 0x3;
        assert(op as u32 == (inst as u32) & 3 && op < 4) by {
            lemma_rvc_bits(inst);
        }
        proof {
            lemma_add_u32(self.pc, 2);
        }
        let mut next_pc = self.pc.wrapping_add(2);
        let res = if op == 0 {
            self.exec_c0(inst, mem, &next_pc)
        } else if op == 1 {
            self.exec_c1(inst, &mut next_pc)
        } else if op == 2 {
            self.exec_c2(inst, mem, &mut next_pc)
        } else {
            return Err(CpuError::IllegalInstruction { pc: self.pc, raw: inst as u32 });
        };
        match res {
            Ok(()) => {},
            Err(e) => {
                return Err(e);
            },
        }
        self.pc = next_pc;
        Ok(())
    }
}

} // verus!
