//! A disassembler: the assembly text of an instruction word, with the
//! targets of jumps and branches named by a symbol table when one is given.
use crate::compressed::{
    addi16sp_field, addi4spn_field, cb_field, cb_offset, ci_double_sp_field, ci_double_sp_offset,
    ci_field, ci_imm, ci_word_sp_field, ci_word_sp_offset, cj_field, cj_offset, cl_double_field,
    cl_double_offset, cl_word_field, cl_word_offset, creg, creg_of, css_double_sp_field,
    css_double_sp_offset, css_word_sp_field, css_word_sp_offset, lemma_rvc_bits, sext10, sext6, sext9,
};
use crate::cpu::{lemma_i32_as_u32, lemma_wrapping_add_word};
use crate::inst::{
    b_field, i_field, j_field, s_field, sext12, sext13, sext21, DecodedInst32, OP_AUIPC, OP_BRANCH,
    OP_IMM, OP_JAL, OP_JALR, OP_LOAD, OP_LOAD_FP, OP_LUI, OP_OP, OP_STORE, OP_STORE_FP, OP_SYSTEM,
};
use crate::isa::{lemma_u32_bits, word};
use crate::text::{
    dec_digits, hex_digits, hex_text, int_text, push_dec, push_hex, push_hex_plain, push_int,
    push_str, zero_padded,
};
use crate::utils::ShiftThenMask;
use std::collections::HashMap;
use vstd::prelude::*;

verus! {

broadcast use vstd::std_specs::hash::group_hash_axioms;

/// The ABI name of integer register `reg` (its low five bits).
pub open spec fn reg_text(reg: u32) -> Seq<char> {
    let k = reg & 0x1f;
    if k == 0 {
        "zero"@
    } else if k == 1 {
        "ra"@
    } else if k == 2 {
        "sp"@
    } else if k == 3 {
        "gp"@
    } else if k == 4 {
        "tp"@
    } else if k == 5 {
        "t0"@
    } else if k == 6 {
        "t1"@
    } else if k == 7 {
        "t2"@
    } else if k == 8 {
        "s0"@
    } else if k == 9 {
        "s1"@
    } else if k == 10 {
        "a0"@
    } else if k == 11 {
        "a1"@
    } else if k == 12 {
        "a2"@
    } else if k == 13 {
        "a3"@
    } else if k == 14 {
        "a4"@
    } else if k == 15 {
        "a5"@
    } else if k == 16 {
        "a6"@
    } else if k == 17 {
        "a7"@
    } else if k == 18 {
        "s2"@
    } else if k == 19 {
        "s3"@
    } else if k == 20 {
        "s4"@
    } else if k == 21 {
        "s5"@
    } else if k == 22 {
        "s6"@
    } else if k == 23 {
        "s7"@
    } else if k == 24 {
        "s8"@
    } else if k == 25 {
        "s9"@
    } else if k == 26 {
        "s10"@
    } else if k == 27 {
        "s11"@
    } else if k == 28 {
        "t3"@
    } else if k == 29 {
        "t4"@
    } else if k == 30 {
        "t5"@
    } else if k == 31 {
        "t6"@
    } else {
        "unknown"@
    }
}

/// The ABI name of floating-point register `reg` (its low five bits).
pub open spec fn freg_text(reg: u32) -> Seq<char> {
    let k = reg & 0x1f;
    if k == 0 {
        "ft0"@
    } else if k == 1 {
        "ft1"@
    } else if k == 2 {
        "ft2"@
    } else if k == 3 {
        "ft3"@
    } else if k == 4 {
        "ft4"@
    } else if k == 5 {
        "ft5"@
    } else if k == 6 {
        "ft6"@
    } else if k == 7 {
        "ft7"@
    } else if k == 8 {
        "fs0"@
    } else if k == 9 {
        "fs1"@
    } else if k == 10 {
        "fa0"@
    } else if k == 11 {
        "fa1"@
    } else if k == 12 {
        "fa2"@
    } else if k == 13 {
        "fa3"@
    } else if k == 14 {
        "fa4"@
    } else if k == 15 {
        "fa5"@
    } else if k == 16 {
        "fa6"@
    } else if k == 17 {
        "fa7"@
    } else if k == 18 {
        "fs2"@
    } else if k == 19 {
        "fs3"@
    } else if k == 20 {
        "fs4"@
    } else if k == 21 {
        "fs5"@
    } else if k == 22 {
        "fs6"@
    } else if k == 23 {
        "fs7"@
    } else if k == 24 {
        "fs8"@
    } else if k == 25 {
        "fs9"@
    } else if k == 26 {
        "fs10"@
    } else if k == 27 {
        "fs11"@
    } else if k == 28 {
        "ft8"@
    } else if k == 29 {
        "ft9"@
    } else if k == 30 {
        "ft10"@
    } else if k == 31 {
        "ft11"@
    } else {
        "unknown"@
    }
}

/// Every integer register has an ABI name of its own: the name of `reg`
/// is never the fallback "unknown", whatever the bits above the low five.
pub proof fn law_reg_name_known(reg: u32)
    ensures
        reg_text(reg) != "unknown"@,
        reg_text(reg).len() <= 4,
{
    reveal_strlit("zero");
    reveal_strlit("ra");
    reveal_strlit("sp");
    reveal_strlit("gp");
    reveal_strlit("tp");
    reveal_strlit("t0");
    reveal_strlit("t1");
    reveal_strlit("t2");
    reveal_strlit("s0");
    reveal_strlit("s1");
    reveal_strlit("a0");
    reveal_strlit("a1");
    reveal_strlit("a2");
    reveal_strlit("a3");
    reveal_strlit("a4");
    reveal_strlit("a5");
    reveal_strlit("a6");
    reveal_strlit("a7");
    reveal_strlit("s2");
    reveal_strlit("s3");
    reveal_strlit("s4");
    reveal_strlit("s5");
    reveal_strlit("s6");
    reveal_strlit("s7");
    reveal_strlit("s8");
    reveal_strlit("s9");
    reveal_strlit("s10");
    reveal_strlit("s11");
    reveal_strlit("t3");
    reveal_strlit("t4");
    reveal_strlit("t5");
    reveal_strlit("t6");
    reveal_strlit("unknown");
    assert(reg & 0x1f < 32) by (bit_vector);
    assert(reg_text(reg).len() <= 4);
}

/// The ABI names of different registers are different.
pub proof fn law_reg_names_distinct(a: u32, b: u32)
    requires
        a < 32,
        b < 32,
        a != b,
    ensures
        reg_text(a) != reg_text(b),
{
    reveal_strlit("zero");
    reveal_strlit("ra");
    reveal_strlit("sp");
    reveal_strlit("gp");
    reveal_strlit("tp");
    reveal_strlit("t0");
    reveal_strlit("t1");
    reveal_strlit("t2");
    reveal_strlit("s0");
    reveal_strlit("s1");
    reveal_strlit("a0");
    reveal_strlit("a1");
    reveal_strlit("a2");
    reveal_strlit("a3");
    reveal_strlit("a4");
    reveal_strlit("a5");
    reveal_strlit("a6");
    reveal_strlit("a7");
    reveal_strlit("s2");
    reveal_strlit("s3");
    reveal_strlit("s4");
    reveal_strlit("s5");
    reveal_strlit("s6");
    reveal_strlit("s7");
    reveal_strlit("s8");
    reveal_strlit("s9");
    reveal_strlit("s10");
    reveal_strlit("s11");
    reveal_strlit("t3");
    reveal_strlit("t4");
    reveal_strlit("t5");
    reveal_strlit("t6");
    assert(a & 0x1f == a && b & 0x1f == b) by (bit_vector)
        requires
            a < 32,
            b < 32,
    ;
    if reg_text(a) == reg_text(b) {
        assert(reg_text(a).len() == reg_text(b).len() && reg_text(a)[0] == reg_text(b)[0] && reg_text(a)[1] == reg_text(b)[1]
            && reg_text(a)[2] == reg_text(b)[2] && reg_text(a)[3] == reg_text(b)[3]);
    }
}

/// Every floating-point register has an ABI name of its own: the name of `reg`
/// is never the fallback "unknown", whatever the bits above the low five.
pub proof fn law_freg_name_known(reg: u32)
    ensures
        freg_text(reg) != "unknown"@,
        freg_text(reg).len() <= 4,
{
    reveal_strlit("ft0");
    reveal_strlit("ft1");
    reveal_strlit("ft2");
    reveal_strlit("ft3");
    reveal_strlit("ft4");
    reveal_strlit("ft5");
    reveal_strlit("ft6");
    reveal_strlit("ft7");
    reveal_strlit("fs0");
    reveal_strlit("fs1");
    reveal_strlit("fa0");
    reveal_strlit("fa1");
    reveal_strlit("fa2");
    reveal_strlit("fa3");
    reveal_strlit("fa4");
    reveal_strlit("fa5");
    reveal_strlit("fa6");
    reveal_strlit("fa7");
    reveal_strlit("fs2");
    reveal_strlit("fs3");
    reveal_strlit("fs4");
    reveal_strlit("fs5");
    reveal_strlit("fs6");
    reveal_strlit("fs7");
    reveal_strlit("fs8");
    reveal_strlit("fs9");
    reveal_strlit("fs10");
    reveal_strlit("fs11");
    reveal_strlit("ft8");
    reveal_strlit("ft9");
    reveal_strlit("ft10");
    reveal_strlit("ft11");
    reveal_strlit("unknown");
    assert(reg & 0x1f < 32) by (bit_vector);
    assert(freg_text(reg).len() <= 4);
}

/// The floating-point ABI names of different registers are different.
pub proof fn law_freg_names_distinct(a: u32, b: u32)
    requires
        a < 32,
        b < 32,
        a != b,
    ensures
        freg_text(a) != freg_text(b),
{
    reveal_strlit("ft0");
    reveal_strlit("ft1");
    reveal_strlit("ft2");
    reveal_strlit("ft3");
    reveal_strlit("ft4");
    reveal_strlit("ft5");
    reveal_strlit("ft6");
    reveal_strlit("ft7");
    reveal_strlit("fs0");
    reveal_strlit("fs1");
    reveal_strlit("fa0");
    reveal_strlit("fa1");
    reveal_strlit("fa2");
    reveal_strlit("fa3");
    reveal_strlit("fa4");
    reveal_strlit("fa5");
    reveal_strlit("fa6");
    reveal_strlit("fa7");
    reveal_strlit("fs2");
    reveal_strlit("fs3");
    reveal_strlit("fs4");
    reveal_strlit("fs5");
    reveal_strlit("fs6");
    reveal_strlit("fs7");
    reveal_strlit("fs8");
    reveal_strlit("fs9");
    reveal_strlit("fs10");
    reveal_strlit("fs11");
    reveal_strlit("ft8");
    reveal_strlit("ft9");
    reveal_strlit("ft10");
    reveal_strlit("ft11");
    assert(a & 0x1f == a && b & 0x1f == b) by (bit_vector)
        requires
            a < 32,
            b < 32,
    ;
    if freg_text(a) == freg_text(b) {
        assert(freg_text(a).len() == freg_text(b).len() && freg_text(a)[0] == freg_text(b)[0] && freg_text(a)[1] == freg_text(b)[1]
            && freg_text(a)[2] == freg_text(b)[2] && freg_text(a)[3] == freg_text(b)[3]);
    }
}

/// The ABI name of integer register `reg` (its low five bits).
pub fn reg_name(reg: u32) -> (r: &'static str)
    ensures
        r@ == reg_text(reg),
{
    match reg & 0x1f {
        0 => "zero",
        1 => "ra",
        2 => "sp",
        3 => "gp",
        4 => "tp",
        5 => "t0",
        6 => "t1",
        7 => "t2",
        8 => "s0",
        9 => "s1",
        10 => "a0",
        11 => "a1",
        12 => "a2",
        13 => "a3",
        14 => "a4",
        15 => "a5",
        16 => "a6",
        17 => "a7",
        18 => "s2",
        19 => "s3",
        20 => "s4",
        21 => "s5",
        22 => "s6",
        23 => "s7",
        24 => "s8",
        25 => "s9",
        26 => "s10",
        27 => "s11",
        28 => "t3",
        29 => "t4",
        30 => "t5",
        31 => "t6",
        _ => "unknown",
    }
}

/// The ABI name of floating-point register `reg` (its low five bits).
pub fn freg_name(reg: u32) -> (r: &'static str)
    ensures
        r@ == freg_text(reg),
{
    match reg & 0x1f {
        0 => "ft0",
        1 => "ft1",
        2 => "ft2",
        3 => "ft3",
        4 => "ft4",
        5 => "ft5",
        6 => "ft6",
        7 => "ft7",
        8 => "fs0",
        9 => "fs1",
        10 => "fa0",
        11 => "fa1",
        12 => "fa2",
        13 => "fa3",
        14 => "fa4",
        15 => "fa5",
        16 => "fa6",
        17 => "fa7",
        18 => "fs2",
        19 => "fs3",
        20 => "fs4",
        21 => "fs5",
        22 => "fs6",
        23 => "fs7",
        24 => "fs8",
        25 => "fs9",
        26 => "fs10",
        27 => "fs11",
        28 => "ft8",
        29 => "ft9",
        30 => "ft10",
        31 => "ft11",
        _ => "unknown",
    }
}

/// What a symbol table holds, if there is one.
pub open spec fn symbols_view(symbols: Option<&HashMap<u32, String>>) -> Option<Map<u32, String>> {
    match symbols {
        Some(m) => Some(m@),
        None => None,
    }
}

/// A code address as shown: `0x` and its hexadecimal digits, followed by
/// `<name>` when the symbol table names it.
pub open spec fn target_text(addr: u32, syms: Option<Map<u32, String>>) -> Seq<char> {
    if syms is Some && syms.unwrap().contains_key(addr) {
        hex_text(addr as nat, 0) + " <"@ + syms.unwrap()[addr]@ + ">"@
    } else {
        hex_text(addr as nat, 0)
    }
}

/// The name `symbols` gives `addr`, if any.
fn symbol_at(symbols: Option<&HashMap<u32, String>>, addr: u32) -> (r: Option<String>)
    ensures
        r is Some <==> (symbols_view(symbols) is Some && symbols_view(symbols).unwrap().contains_key(
            addr,
        )),
        r is Some ==> r.unwrap() == symbols_view(symbols).unwrap()[addr],
{
    match symbols {
        Some(syms) => match syms.get(&addr) {
            Some(name) => Some(name.clone()),
            None => None,
        },
        None => None,
    }
}

/// Appends the text of the code address `addr`.
fn push_target(s: &mut String, addr: u32, symbols: Option<&HashMap<u32, String>>)
    ensures
        final(s)@ == old(s)@ + target_text(addr, symbols_view(symbols)),
{
    let ghost start = s@;
    push_hex(s, addr as u64, 0);
    match symbol_at(symbols, addr) {
        Some(name) => {
            push_str(s, " <");
            push_str(s, name.as_str());
            push_str(s, ">");
        },
        None => {},
    }
    assert(s@ =~= start + target_text(addr, symbols_view(symbols)));
}

/// A code address as text: `0x` and its digits, with its symbol when known.
pub fn format_target(addr: u32, symbols: Option<&HashMap<u32, String>>) -> (r: String)
    ensures
        r@ == target_text(addr, symbols_view(symbols)),
{
    let mut s = String::new();
    push_target(&mut s, addr, symbols);
    assert(s@ =~= target_text(addr, symbols_view(symbols)));
    s
}

/// The mnemonic of a conditional branch; comparisons with `x0` take the
/// one-register form (`beqz`, `bnez`, `bltz`, `bgez`).
pub open spec fn branch_mnemonic(funct3: u8, rs2: u32) -> Seq<char> {
    if funct3 == 0 {
        if rs2 == 0 { "beqz"@ } else { "beq"@ }
    } else if funct3 == 1 {
        if rs2 == 0 { "bnez"@ } else { "bne"@ }
    } else if funct3 == 4 {
        if rs2 == 0 { "bltz"@ } else { "blt"@ }
    } else if funct3 == 5 {
        if rs2 == 0 { "bgez"@ } else { "bge"@ }
    } else if funct3 == 6 {
        "bltu"@
    } else if funct3 == 7 {
        "bgeu"@
    } else {
        "unknown_branch"@
    }
}

/// Whether a branch is shown in its one-register form.
pub open spec fn branch_against_zero(funct3: u8, rs2: u32) -> bool {
    (funct3 == 0 || funct3 == 1 || funct3 == 4 || funct3 == 5) && rs2 == 0
}

fn branch_op(funct3: u8, rs2: u32) -> (r: (&'static str, bool))
    ensures
        r.0@ == branch_mnemonic(funct3, rs2),
        r.1 == branch_against_zero(funct3, rs2),
{
    match funct3 {
        0x0 => if rs2 == 0 { ("beqz", true) } else { ("beq", false) },
        0x1 => if rs2 == 0 { ("bnez", true) } else { ("bne", false) },
        0x4 => if rs2 == 0 { ("bltz", true) } else { ("blt", false) },
        0x5 => if rs2 == 0 { ("bgez", true) } else { ("bge", false) },
        0x6 => ("bltu", false),
        0x7 => ("bgeu", false),
        _ => ("unknown_branch", false),
    }
}

pub open spec fn load_mnemonic(funct3: u8) -> Seq<char> {
    if funct3 == 0 {
        "lb"@
    } else if funct3 == 1 {
        "lh"@
    } else if funct3 == 2 {
        "lw"@
    } else if funct3 == 4 {
        "lbu"@
    } else if funct3 == 5 {
        "lhu"@
    } else {
        "load_unknown"@
    }
}

fn load_op(funct3: u8) -> (r: &'static str)
    ensures
        r@ == load_mnemonic(funct3),
{
    match funct3 {
        0x0 => "lb",
        0x1 => "lh",
        0x2 => "lw",
        0x4 => "lbu",
        0x5 => "lhu",
        _ => "load_unknown",
    }
}

pub open spec fn store_mnemonic(funct3: u8) -> Seq<char> {
    if funct3 == 0 {
        "sb"@
    } else if funct3 == 1 {
        "sh"@
    } else if funct3 == 2 {
        "sw"@
    } else {
        "store_unknown"@
    }
}

fn store_op(funct3: u8) -> (r: &'static str)
    ensures
        r@ == store_mnemonic(funct3),
{
    match funct3 {
        0x0 => "sb",
        0x1 => "sh",
        0x2 => "sw",
        _ => "store_unknown",
    }
}

/// The mnemonic of a register-register instruction (base set and M extension).
pub open spec fn op_mnemonic(funct7: u8, funct3: u8) -> Seq<char> {
    if funct7 == 0x00 {
        if funct3 == 0 { "add"@ }
        else if funct3 == 1 { "sll"@ }
        else if funct3 == 2 { "slt"@ }
        else if funct3 == 3 { "sltu"@ }
        else if funct3 == 4 { "xor"@ }
        else if funct3 == 5 { "srl"@ }
        else if funct3 == 6 { "or"@ }
        else if funct3 == 7 { "and"@ }
        else { "op_unknown"@ }
    } else if funct7 == 0x20 {
        if funct3 == 0 { "sub"@ }
        else if funct3 == 5 { "sra"@ }
        else { "op_unknown"@ }
    } else if funct7 == 0x01 {
        if funct3 == 0 { "mul"@ }
        else if funct3 == 1 { "mulh"@ }
        else if funct3 == 2 { "mulhsu"@ }
        else if funct3 == 3 { "mulhu"@ }
        else if funct3 == 4 { "div"@ }
        else if funct3 == 5 { "divu"@ }
        else if funct3 == 6 { "rem"@ }
        else if funct3 == 7 { "remu"@ }
        else { "op_unknown"@ }
    } else {
        "op_unknown"@
    }
}

fn op_op(funct7: u8, funct3: u8) -> (r: &'static str)
    ensures
        r@ == op_mnemonic(funct7, funct3),
{
    match (funct7, funct3) {
        (0x00, 0x0) => "add",
        (0x20, 0x0) => "sub",
        (0x00, 0x1) => "sll",
        (0x00, 0x2) => "slt",
        (0x00, 0x3) => "sltu",
        (0x00, 0x4) => "xor",
        (0x00, 0x5) => "srl",
        (0x20, 0x5) => "sra",
        (0x00, 0x6) => "or",
        (0x00, 0x7) => "and",
        (0x01, 0x0) => "mul",
        (0x01, 0x1) => "mulh",
        (0x01, 0x2) => "mulhsu",
        (0x01, 0x3) => "mulhu",
        (0x01, 0x4) => "div",
        (0x01, 0x5) => "divu",
        (0x01, 0x6) => "rem",
        (0x01, 0x7) => "remu",
        _ => "op_unknown",
    }
}

pub open spec fn csr_mnemonic(funct3: u8) -> Seq<char> {
    if funct3 == 1 {
        "csrrw"@
    } else if funct3 == 2 {
        "csrrs"@
    } else if funct3 == 3 {
        "csrrc"@
    } else if funct3 == 5 {
        "csrrwi"@
    } else if funct3 == 6 {
        "csrrsi"@
    } else if funct3 == 7 {
        "csrrci"@
    } else {
        "csr_op"@
    }
}

fn csr_op(funct3: u8) -> (r: &'static str)
    ensures
        r@ == csr_mnemonic(funct3),
{
    match funct3 {
        0x1 => "csrrw",
        0x2 => "csrrs",
        0x3 => "csrrc",
        0x5 => "csrrwi",
        0x6 => "csrrsi",
        0x7 => "csrrci",
        _ => "csr_op",
    }
}

/// Sign extension of a 20-bit field (the U-type immediate as the assembler writes it).
pub open spec fn sext20(v: u32) -> int {
    if v >= 0x8_0000 { v - 0x10_0000 } else { v as int }
}

/// `base(offset)` as a load or store writes its address.
pub open spec fn mem_operand(offset: int, base: Seq<char>) -> Seq<char> {
    int_text(offset) + "("@ + base + ")"@
}

/// The text of a register-immediate instruction (OP-IMM major opcode).
pub open spec fn op_imm_text(raw: u32) -> Seq<char> {
    let d = DecodedInst32::spec_decode(raw);
    let rd = reg_text(d.rd as u32);
    let rs1 = reg_text(d.rs1 as u32);
    let imm = sext12(i_field(raw));
    let f3 = d.funct3;
    if f3 == 0 {
        if raw == 0x13 {
            "nop"@
        } else if d.rs1 == 0 {
            "li "@ + rd + ", "@ + int_text(imm)
        } else if imm == 0 {
            "mv "@ + rd + ", "@ + rs1
        } else {
            "addi "@ + rd + ", "@ + rs1 + ", "@ + int_text(imm)
        }
    } else if f3 == 2 {
        "slti "@ + rd + ", "@ + rs1 + ", "@ + int_text(imm)
    } else if f3 == 3 {
        "sltiu "@ + rd + ", "@ + rs1 + ", "@ + dec_digits(word(imm) as nat)
    } else if f3 == 4 {
        "xori "@ + rd + ", "@ + rs1 + ", "@ + int_text(imm)
    } else if f3 == 6 {
        "ori "@ + rd + ", "@ + rs1 + ", "@ + int_text(imm)
    } else if f3 == 7 {
        "andi "@ + rd + ", "@ + rs1 + ", "@ + int_text(imm)
    } else if f3 == 1 {
        "slli "@ + rd + ", "@ + rs1 + ", "@ + dec_digits(d.rs2 as nat)
    } else if f3 == 5 {
        (if d.funct7 == 0x20 { "srai "@ } else { "srli "@ }) + rd + ", "@ + rs1 + ", "@ + dec_digits(
            d.rs2 as nat,
        )
    } else {
        "op_imm_unknown "@ + hex_text(raw as nat, 8)
    }
}

/// The assembly text of the 32-bit instruction `raw` at `address`.
pub open spec fn rv32_text(address: u32, raw: u32, syms: Option<Map<u32, String>>) -> Seq<char> {
    let d = DecodedInst32::spec_decode(raw);
    let rd = d.rd as u32;
    let rs1 = d.rs1 as u32;
    let rs2 = d.rs2 as u32;
    let op = d.opcode;
    let imm_i = sext12(i_field(raw));
    let imm_s = sext12(s_field(raw));
    if op == OP_LUI {
        "lui "@ + reg_text(rd) + ", "@ + int_text(sext20(raw >> 12))
    } else if op == OP_AUIPC {
        "auipc "@ + reg_text(rd) + ", "@ + int_text(sext20(raw >> 12))
    } else if op == OP_JAL {
        let t = target_text(word(address + sext21(j_field(raw))), syms);
        if rd == 0 {
            "j "@ + t
        } else {
            "jal "@ + reg_text(rd) + ", "@ + t
        }
    } else if op == OP_JALR {
        if rd == 0 && rs1 == 1 && imm_i == 0 {
            "ret"@
        } else if rd == 0 && imm_i == 0 {
            "jr "@ + reg_text(rs1)
        } else {
            "jalr "@ + reg_text(rd) + ", "@ + mem_operand(imm_i, reg_text(rs1))
        }
    } else if op == OP_BRANCH {
        let t = target_text(word(address + sext13(b_field(raw))), syms);
        let m = branch_mnemonic(d.funct3, rs2);
        if branch_against_zero(d.funct3, rs2) {
            m + " "@ + reg_text(rs1) + ", "@ + t
        } else {
            m + " "@ + reg_text(rs1) + ", "@ + reg_text(rs2) + ", "@ + t
        }
    } else if op == OP_LOAD {
        load_mnemonic(d.funct3) + " "@ + reg_text(rd) + ", "@ + mem_operand(imm_i, reg_text(rs1))
    } else if op == OP_STORE {
        store_mnemonic(d.funct3) + " "@ + reg_text(rs2) + ", "@ + mem_operand(imm_s, reg_text(rs1))
    } else if op == OP_IMM {
        op_imm_text(raw)
    } else if op == OP_OP {
        op_mnemonic(d.funct7, d.funct3) + " "@ + reg_text(rd) + ", "@ + reg_text(rs1) + ", "@
            + reg_text(rs2)
    } else if op == OP_LOAD_FP {
        "flw "@ + freg_text(rd) + ", "@ + mem_operand(imm_i, reg_text(rs1))
    } else if op == OP_STORE_FP {
        "fsw "@ + freg_text(rs2) + ", "@ + mem_operand(imm_s, reg_text(rs1))
    } else if op == OP_SYSTEM {
        if raw == 0x73 {
            "ecall"@
        } else if raw == 0x0010_0073 {
            "ebreak"@
        } else if raw == 0x3020_0073 {
            "mret"@
        } else {
            csr_mnemonic(d.funct3) + " "@ + reg_text(rd) + ", "@ + hex_text((raw >> 20) as nat, 0)
                + ", "@ + reg_text(rs1)
        }
    } else {
        "unimpl "@ + hex_text(raw as nat, 8)
    }
}

/// Appends `imm(base)`.
fn push_mem_operand(s: &mut String, imm: i32, base: &str)
    ensures
        final(s)@ == old(s)@ + mem_operand(imm as int, base@),
{
    let ghost start = s@;
    push_int(s, imm as i64);
    push_str(s, "(");
    push_str(s, base);
    push_str(s, ")");
    assert(s@ =~= start + mem_operand(imm as int, base@));
}

/// `a`, `, ` and `b`, appended.
fn push_pair(s: &mut String, a: &str, b: &str)
    ensures
        final(s)@ == old(s)@ + a@ + ", "@ + b@,
{
    push_str(s, a);
    push_str(s, ", ");
    push_str(s, b);
}

fn op_imm_asm(raw: u32, d: &DecodedInst32) -> (r: String)
    requires
        *d == DecodedInst32::spec_decode(raw),
    ensures
        r@ == op_imm_text(raw),
{
    proof {
        DecodedInst32::lemma_fields_in_range(raw);
    }
    let rd = reg_name(d.rd as u32);
    let rs1 = reg_name(d.rs1 as u32);
    let imm = d.i_imm();
    let mut s = String::new();
    if d.funct3 == 0 {
        if raw == 0x00000013 {
            push_str(&mut s, "nop");
        } else if d.rs1 == 0 {
            push_str(&mut s, "li ");
            push_str(&mut s, rd);
            push_str(&mut s, ", ");
            push_int(&mut s, imm as i64);
        } else if imm == 0 {
            push_str(&mut s, "mv ");
            push_pair(&mut s, rd, rs1);
        } else {
            push_str(&mut s, "addi ");
            push_pair(&mut s, rd, rs1);
            push_str(&mut s, ", ");
            push_int(&mut s, imm as i64);
        }
    } else if d.funct3 == 3 {
        push_str(&mut s, "sltiu ");
        push_pair(&mut s, rd, rs1);
        push_str(&mut s, ", ");
        proof {
            lemma_i32_as_u32(imm);
        }
        push_dec(&mut s, (imm as u32) as u64);
    } else if d.funct3 == 1 || d.funct3 == 5 {
        if d.funct3 == 1 {
            push_str(&mut s, "slli ");
        } else if d.funct7 == 0x20 {
            push_str(&mut s, "srai ");
        } else {
            push_str(&mut s, "srli ");
        }
        push_pair(&mut s, rd, rs1);
        push_str(&mut s, ", ");
        push_dec(&mut s, d.rs2 as u64);
    } else {
        if d.funct3 == 2 {
            push_str(&mut s, "slti ");
        } else if d.funct3 == 4 {
            push_str(&mut s, "xori ");
        } else if d.funct3 == 6 {
            push_str(&mut s, "ori ");
        } else {
            push_str(&mut s, "andi ");
        }
        push_pair(&mut s, rd, rs1);
        push_str(&mut s, ", ");
        push_int(&mut s, imm as i64);
    }
    assert(s@ =~= op_imm_text(raw));
    s
}

/// `r` is the disassembly of the word `opcode` at `address` with symbol
/// table `syms`: a word whose low two bits are not both set is a compressed
/// instruction, shown by its low halfword.
pub open spec fn disassembled(address: u32, opcode: u32, syms: Option<Map<u32, String>>, r: DisassembledInst) -> bool {
    let compressed = opcode & 3 != 3;
    &&& r.address == address
    &&& r.is_compressed == compressed
    &&& r.opcode_hex@ == (if compressed {
        zero_padded(hex_digits((opcode & 0xFFFF) as nat), 4)
    } else {
        zero_padded(hex_digits(opcode as nat), 8)
    })
    &&& r.asm_text@ == (if compressed {
        rvc_text(address, (opcode & 0xFFFF) as u16)
    } else {
        rv32_text(address, opcode, syms)
    })
    &&& r.label == (if syms is Some && syms.unwrap().contains_key(address) {
        Some(syms.unwrap()[address])
    } else {
        None
    })
}

/// The disassembler.
pub struct Disassembler;

impl Disassembler {
    #[verifier::spinoff_prover]
    #[verifier::rlimit(40)]
    fn decode_rv32(address: u32, raw_inst: u32, symbols: Option<&HashMap<u32, String>>) -> (r: String)
        ensures
            r@ == rv32_text(address, raw_inst, symbols_view(symbols)),
    {
        let decoded = DecodedInst32::decode(raw_inst);
        let rd = decoded.rd as u32;
        let rs1 = decoded.rs1 as u32;
        let rs2 = decoded.rs2 as u32;
        let op = decoded.opcode;
        let mut s = String::new();
        if op == OP_LUI || op == OP_AUIPC {
            let upper = decoded.u_imm();
            let imm = (upper as i32) >> 12;
            assert(imm as int == sext20(raw_inst >> 12)) by (bit_vector)
                requires
                    upper == raw_inst & 0xFFFF_F000,
                    imm == (upper as i32) >> 12,
            ;
            if op == OP_LUI {
                push_str(&mut s, "lui ");
            } else {
                push_str(&mut s, "auipc ");
            }
            push_str(&mut s, reg_name(rd));
            push_str(&mut s, ", ");
            push_int(&mut s, imm as i64);
        } else if op == OP_JAL {
            let offset = decoded.j_imm();
            proof {
                lemma_i32_as_u32(offset);
                lemma_wrapping_add_word(address, offset as int);
            }
            let target = address.wrapping_add(offset as u32);
            if rd == 0 {
                push_str(&mut s, "j ");
            } else {
                push_str(&mut s, "jal ");
                push_str(&mut s, reg_name(rd));
                push_str(&mut s, ", ");
            }
            push_target(&mut s, target, symbols);
        } else if op == OP_JALR {
            let imm = decoded.i_imm();
            if rd == 0 && rs1 == 1 && imm == 0 {
                push_str(&mut s, "ret");
            } else if rd == 0 && imm == 0 {
                push_str(&mut s, "jr ");
                push_str(&mut s, reg_name(rs1));
            } else {
                push_str(&mut s, "jalr ");
                push_str(&mut s, reg_name(rd));
                push_str(&mut s, ", ");
                push_mem_operand(&mut s, imm, reg_name(rs1));
            }
        } else if op == OP_BRANCH {
            let offset = decoded.b_imm();
            proof {
                lemma_i32_as_u32(offset);
                lemma_wrapping_add_word(address, offset as int);
            }
            let target = address.wrapping_add(offset as u32);
            let (name, against_zero) = branch_op(decoded.funct3, rs2);
            push_str(&mut s, name);
            push_str(&mut s, " ");
            push_str(&mut s, reg_name(rs1));
            push_str(&mut s, ", ");
            if !against_zero {
                push_str(&mut s, reg_name(rs2));
                push_str(&mut s, ", ");
            }
            push_target(&mut s, target, symbols);
        } else if op == OP_LOAD || op == OP_LOAD_FP {
            if op == OP_LOAD {
                push_str(&mut s, load_op(decoded.funct3));
                push_str(&mut s, " ");
                push_str(&mut s, reg_name(rd));
            } else {
                push_str(&mut s, "flw ");
                push_str(&mut s, freg_name(rd));
            }
            push_str(&mut s, ", ");
            push_mem_operand(&mut s, decoded.i_imm(), reg_name(rs1));
        } else if op == OP_STORE || op == OP_STORE_FP {
            if op == OP_STORE {
                push_str(&mut s, store_op(decoded.funct3));
                push_str(&mut s, " ");
                push_str(&mut s, reg_name(rs2));
            } else {
                push_str(&mut s, "fsw ");
                push_str(&mut s, freg_name(rs2));
            }
            push_str(&mut s, ", ");
            push_mem_operand(&mut s, decoded.s_imm(), reg_name(rs1));
        } else if op == OP_IMM {
            s = op_imm_asm(raw_inst, &decoded);
        } else if op == OP_OP {
            push_str(&mut s, op_op(decoded.funct7, decoded.funct3));
            push_str(&mut s, " ");
            push_pair(&mut s, reg_name(rd), reg_name(rs1));
            push_str(&mut s, ", ");
            push_str(&mut s, reg_name(rs2));
        } else if op == OP_SYSTEM {
            if raw_inst == 0x00000073 {
                push_str(&mut s, "ecall");
            } else if raw_inst == 0x00100073 {
                push_str(&mut s, "ebreak");
            } else if raw_inst == 0x30200073 {
                push_str(&mut s, "mret");
            } else {
                push_str(&mut s, csr_op(decoded.funct3));
                push_str(&mut s, " ");
                push_str(&mut s, reg_name(rd));
                push_str(&mut s, ", ");
                push_hex(&mut s, (raw_inst >> 20) as u64, 0);
                push_str(&mut s, ", ");
                push_str(&mut s, reg_name(rs1));
            }
        } else {
            push_str(&mut s, "unimpl ");
            push_hex(&mut s, raw_inst as u64, 8);
        }
        assert(s@ =~= rv32_text(address, raw_inst, symbols_view(symbols)));
        s
    }
}

/// The text shown for a reserved compressed encoding.
pub open spec fn rvc_reserved(x: u32) -> Seq<char> {
    "c.reserved "@ + hex_text(x as nat, 4)
}

/// `off(base)` for a compressed load or store, the offset unsigned.
pub open spec fn uoffset_operand(off: u32, base: Seq<char>) -> Seq<char> {
    dec_digits(off as nat) + "("@ + base + ")"@
}

/// The assembly text of a quadrant-0 compressed instruction.
pub open spec fn rvc0_text(x: u32) -> Seq<char> {
    let f3 = (x >> 13) & 7;
    let rdc = creg_of(x, 2) as u32;
    let rs1c = reg_text(creg_of(x, 7) as u32);
    if f3 == 0 {
        if addi4spn_field(x) == 0 {
            rvc_reserved(x)
        } else {
            "c.addi4spn "@ + reg_text(rdc) + ", sp, "@ + dec_digits(addi4spn_field(x) as nat)
        }
    } else if f3 == 1 {
        "c.fld "@ + freg_text(rdc) + ", "@ + uoffset_operand(cl_double_field(x), rs1c)
    } else if f3 == 2 {
        "c.lw "@ + reg_text(rdc) + ", "@ + uoffset_operand(cl_word_field(x), rs1c)
    } else if f3 == 3 {
        "c.flw "@ + freg_text(rdc) + ", "@ + uoffset_operand(cl_word_field(x), rs1c)
    } else if f3 == 5 {
        "c.fsd "@ + freg_text(rdc) + ", "@ + uoffset_operand(cl_double_field(x), rs1c)
    } else if f3 == 6 {
        "c.sw "@ + reg_text(rdc) + ", "@ + uoffset_operand(cl_word_field(x), rs1c)
    } else if f3 == 7 {
        "c.fsw "@ + freg_text(rdc) + ", "@ + uoffset_operand(cl_word_field(x), rs1c)
    } else {
        rvc_reserved(x)
    }
}

/// The assembly text of a quadrant-1 compressed instruction at `address`.
pub open spec fn rvc1_text(address: u32, x: u32) -> Seq<char> {
    let f3 = (x >> 13) & 7;
    let rd = (x >> 7) & 0x1F;
    let rs1c = reg_text(creg_of(x, 7) as u32);
    let imm = int_text(sext6(ci_field(x)));
    let bit12 = (x >> 12) & 1;
    if f3 == 0 {
        if rd == 0 {
            "c.nop"@
        } else {
            "c.addi "@ + reg_text(rd) + ", "@ + imm
        }
    } else if f3 == 1 {
        "c.jal "@ + hex_text(word(address + sext12(cj_field(x))) as nat, 0)
    } else if f3 == 2 {
        "c.li "@ + reg_text(rd) + ", "@ + imm
    } else if f3 == 3 {
        if rd == 2 {
            if addi16sp_field(x) == 0 {
                rvc_reserved(x)
            } else {
                "c.addi16sp sp, "@ + int_text(sext10(addi16sp_field(x)))
            }
        } else if rd == 0 || ci_field(x) == 0 {
            rvc_reserved(x)
        } else {
            "c.lui "@ + reg_text(rd) + ", "@ + imm
        }
    } else if f3 == 4 {
        let sub = (x >> 10) & 3;
        if sub == 0 || sub == 1 {
            if bit12 != 0 {
                rvc_reserved(x)
            } else {
                (if sub == 0 {
                    "c.srli "@
                } else {
                    "c.srai "@
                }) + rs1c + ", "@ + dec_digits(((x >> 2) & 0x1F) as nat)
            }
        } else if sub == 2 {
            "c.andi "@ + rs1c + ", "@ + imm
        } else if bit12 != 0 {
            rvc_reserved(x)
        } else {
            let f2 = (x >> 5) & 3;
            (if f2 == 0 {
                "c.sub "@
            } else if f2 == 1 {
                "c.xor "@
            } else if f2 == 2 {
                "c.or "@
            } else {
                "c.and "@
            }) + rs1c + ", "@ + reg_text(creg_of(x, 2) as u32)
        }
    } else if f3 == 5 {
        "c.j "@ + hex_text(word(address + sext12(cj_field(x))) as nat, 0)
    } else if f3 == 6 {
        "c.beqz "@ + rs1c + ", "@ + hex_text(word(address + sext9(cb_field(x))) as nat, 0)
    } else {
        "c.bnez "@ + rs1c + ", "@ + hex_text(word(address + sext9(cb_field(x))) as nat, 0)
    }
}

/// The assembly text of a quadrant-2 compressed instruction.
pub open spec fn rvc2_text(x: u32) -> Seq<char> {
    let f3 = (x >> 13) & 7;
    let rd = (x >> 7) & 0x1F;
    let rs2 = (x >> 2) & 0x1F;
    let bit12 = (x >> 12) & 1;
    if f3 == 0 {
        if bit12 != 0 {
            rvc_reserved(x)
        } else {
            "c.slli "@ + reg_text(rd) + ", "@ + dec_digits(rs2 as nat)
        }
    } else if f3 == 1 {
        "c.fldsp "@ + freg_text(rd) + ", "@ + uoffset_operand(ci_double_sp_field(x), "sp"@)
    } else if f3 == 2 {
        if rd == 0 {
            rvc_reserved(x)
        } else {
            "c.lwsp "@ + reg_text(rd) + ", "@ + uoffset_operand(ci_word_sp_field(x), "sp"@)
        }
    } else if f3 == 3 {
        "c.flwsp "@ + freg_text(rd) + ", "@ + uoffset_operand(ci_word_sp_field(x), "sp"@)
    } else if f3 == 4 {
        if bit12 == 0 && rs2 == 0 {
            if rd == 0 {
                rvc_reserved(x)
            } else {
                "c.jr "@ + reg_text(rd)
            }
        } else if bit12 == 0 {
            "c.mv "@ + reg_text(rd) + ", "@ + reg_text(rs2)
        } else if rd == 0 && rs2 == 0 {
            "c.ebreak"@
        } else if rs2 == 0 {
            "c.jalr "@ + reg_text(rd)
        } else {
            "c.add "@ + reg_text(rd) + ", "@ + reg_text(rs2)
        }
    } else if f3 == 5 {
        "c.fsdsp "@ + freg_text(rs2) + ", "@ + uoffset_operand(css_double_sp_field(x), "sp"@)
    } else if f3 == 6 {
        "c.swsp "@ + reg_text(rs2) + ", "@ + uoffset_operand(css_word_sp_field(x), "sp"@)
    } else {
        "c.fswsp "@ + freg_text(rs2) + ", "@ + uoffset_operand(css_word_sp_field(x), "sp"@)
    }
}

/// The assembly text of the compressed instruction `inst` at `address`.
pub open spec fn rvc_text(address: u32, inst: u16) -> Seq<char> {
    let x = inst as u32;
    let op = x & 3;
    if op == 0 {
        rvc0_text(x)
    } else if op == 1 {
        rvc1_text(address, x)
    } else if op == 2 {
        rvc2_text(x)
    } else {
        rvc_reserved(x)
    }
}

/// Appends `off(base)`.
fn push_uoffset(s: &mut String, off: u32, base: &str)
    ensures
        final(s)@ == old(s)@ + uoffset_operand(off, base@),
{
    let ghost start = s@;
    push_dec(s, off as u64);
    push_str(s, "(");
    push_str(s, base);
    push_str(s, ")");
    assert(s@ =~= start + uoffset_operand(off, base@));
}

/// Sign-extended jump offset of the CJ format (`c.j`, `c.jal`), rendered as an
/// absolute target address.
pub fn format_target_rvc(address: u32, inst: u16) -> (r: String)
    ensures
        r@ == hex_text(word(address + sext12(cj_field(inst as u32))) as nat, 0),
{
    let offset = cj_offset(inst);
    proof {
        lemma_i32_as_u32(offset);
        lemma_wrapping_add_word(address, offset as int);
    }
    let mut s = String::new();
    push_hex(&mut s, address.wrapping_add(offset as u32) as u64, 0);
    assert(s@ =~= hex_text(word(address + sext12(cj_field(inst as u32))) as nat, 0));
    s
}

/// Sign-extended branch offset of the CB format (`c.beqz`, `c.bnez`), rendered
/// as an absolute target address.
pub fn format_branch_target_rvc(address: u32, inst: u16) -> (r: String)
    ensures
        r@ == hex_text(word(address + sext9(cb_field(inst as u32))) as nat, 0),
{
    let offset = cb_offset(inst);
    proof {
        lemma_i32_as_u32(offset);
        lemma_wrapping_add_word(address, offset as int);
    }
    let mut s = String::new();
    push_hex(&mut s, address.wrapping_add(offset as u32) as u64, 0);
    assert(s@ =~= hex_text(word(address + sext9(cb_field(inst as u32))) as nat, 0));
    s
}

/// Appends the text of a reserved compressed encoding.
fn push_reserved(s: &mut String, inst: u16)
    ensures
        final(s)@ == old(s)@ + rvc_reserved(inst as u32),
{
    let ghost start = s@;
    push_str(s, "c.reserved ");
    push_hex(s, inst as u64, 4);
    assert(s@ =~= start + rvc_reserved(inst as u32));
}

fn decode_rvc0(inst: u16) -> (r: String)
    requires
        (inst as u32) & 3 == 0,
    ensures
        r@ == rvc0_text(inst as u32),
{
    let x = inst as u32;
    let funct3 = inst.shift_then_mask(13, 0x7);
    assert(funct3 as u32 == (x >> 13) & 7) by {
        lemma_rvc_bits(inst);
    }
    let rdc = creg(inst, 2) as u32;
    let rs1c = reg_name(creg(inst, 7) as u32);
    let mut s = String::new();
    if funct3 == 0 {
        let imm = inst.shift_then_mask(7, 0x30) | inst.shift_then_mask(1, 0x3C0)
            | inst.shift_then_mask(4, 0x4) | inst.shift_then_mask(2, 0x8);
        assert(imm as u32 == addi4spn_field(x)) by {
            lemma_rvc_bits(inst);
        }
        if imm == 0 {
            push_reserved(&mut s, inst);
        } else {
            push_str(&mut s, "c.addi4spn ");
            push_str(&mut s, reg_name(rdc));
            push_str(&mut s, ", sp, ");
            push_dec(&mut s, imm as u64);
        }
    } else if funct3 == 1 || funct3 == 5 {
        if funct3 == 1 {
            push_str(&mut s, "c.fld ");
        } else {
            push_str(&mut s, "c.fsd ");
        }
        push_str(&mut s, freg_name(rdc));
        push_str(&mut s, ", ");
        push_uoffset(&mut s, cl_double_offset(inst), rs1c);
    } else if funct3 == 2 || funct3 == 6 {
        if funct3 == 2 {
            push_str(&mut s, "c.lw ");
        } else {
            push_str(&mut s, "c.sw ");
        }
        push_str(&mut s, reg_name(rdc));
        push_str(&mut s, ", ");
        push_uoffset(&mut s, cl_word_offset(inst), rs1c);
    } else if funct3 == 3 || funct3 == 7 {
        if funct3 == 3 {
            push_str(&mut s, "c.flw ");
        } else {
            push_str(&mut s, "c.fsw ");
        }
        push_str(&mut s, freg_name(rdc));
        push_str(&mut s, ", ");
        push_uoffset(&mut s, cl_word_offset(inst), rs1c);
    } else {
        push_reserved(&mut s, inst);
    }
    assert(s@ =~= rvc0_text(x));
    s
}

#[verifier::spinoff_prover]
#[verifier::rlimit(40)]
fn decode_rvc1(address: u32, inst: u16) -> (r: String)
    requires
        (inst as u32) & 3 == 1,
    ensures
        r@ == rvc1_text(address, inst as u32),
{
    let x = inst as u32;
    let funct3 = inst.shift_then_mask(13, 0x7);
    let rd = inst.shift_then_mask(7, 0x1F) as u32;
    let bit12 = inst.shift_then_mask(12, 1);
    let sub = inst.shift_then_mask(10, 0x3);
    let f2 = inst.shift_then_mask(5, 0x3);
    let shamt = inst.shift_then_mask(2, 0x1F);
    assert(funct3 as u32 == (x >> 13) & 7 && rd == (x >> 7) & 0x1F && bit12 as u32 == (x >> 12) & 1
        && sub as u32 == (x >> 10) & 3 && sub < 4 && f2 as u32 == (x >> 5) & 3 && shamt as u32 == (x
        >> 2) & 0x1F) by {
            lemma_rvc_bits(inst);
        }
    let rs1c = reg_name(creg(inst, 7) as u32);
    let imm6 = ci_imm(inst);
    let mut s = String::new();
    if funct3 == 0 {
        if rd == 0 {
            push_str(&mut s, "c.nop");
        } else {
            push_str(&mut s, "c.addi ");
            push_str(&mut s, reg_name(rd));
            push_str(&mut s, ", ");
            push_int(&mut s, imm6 as i64);
        }
    } else if funct3 == 1 || funct3 == 5 {
        if funct3 == 1 {
            push_str(&mut s, "c.jal ");
        } else {
            push_str(&mut s, "c.j ");
        }
        let t = format_target_rvc(address, inst);
        push_str(&mut s, t.as_str());
    } else if funct3 == 2 {
        push_str(&mut s, "c.li ");
        push_str(&mut s, reg_name(rd));
        push_str(&mut s, ", ");
        push_int(&mut s, imm6 as i64);
    } else if funct3 == 3 {
        if rd == 2 {
            let imm = (inst.shift_then_mask(12, 1) << 9) | (inst.shift_then_mask(3, 3) << 7) | (
            inst.shift_then_mask(5, 1) << 6) | (inst.shift_then_mask(2, 1) << 5) | (
            inst.shift_then_mask(6, 1) << 4);
            let offset = ((imm as i16) << 6) >> 6;
            assert(imm as u32 == addi16sp_field(x) && offset as int == sext10(addi16sp_field(x)))
                by {
                    lemma_rvc_bits(inst);
                }
            if imm == 0 {
                push_reserved(&mut s, inst);
            } else {
                push_str(&mut s, "c.addi16sp sp, ");
                push_int(&mut s, offset as i64);
            }
        } else {
            let field = (inst.shift_then_mask(12, 1) << 5) | inst.shift_then_mask(2, 0x1F);
            assert(field as u32 == ci_field(x)) by {
                lemma_rvc_bits(inst);
            }
            if rd == 0 || field == 0 {
                push_reserved(&mut s, inst);
            } else {
                push_str(&mut s, "c.lui ");
                push_str(&mut s, reg_name(rd));
                push_str(&mut s, ", ");
                push_int(&mut s, imm6 as i64);
            }
        }
    } else if funct3 == 4 {
        if sub == 0 || sub == 1 {
            if bit12 != 0 {
                push_reserved(&mut s, inst);
            } else {
                if sub == 0 {
                    push_str(&mut s, "c.srli ");
                } else {
                    push_str(&mut s, "c.srai ");
                }
                push_str(&mut s, rs1c);
                push_str(&mut s, ", ");
                push_dec(&mut s, shamt as u64);
            }
        } else if sub == 2 {
            push_str(&mut s, "c.andi ");
            push_str(&mut s, rs1c);
            push_str(&mut s, ", ");
            push_int(&mut s, imm6 as i64);
        } else if bit12 != 0 {
            push_reserved(&mut s, inst);
        } else {
            if f2 == 0 {
                push_str(&mut s, "c.sub ");
            } else if f2 == 1 {
                push_str(&mut s, "c.xor ");
            } else if f2 == 2 {
                push_str(&mut s, "c.or ");
            } else {
                push_str(&mut s, "c.and ");
            }
            push_str(&mut s, rs1c);
            push_str(&mut s, ", ");
            push_str(&mut s, reg_name(creg(inst, 2) as u32));
        }
    } else {
        if funct3 == 6 {
            push_str(&mut s, "c.beqz ");
        } else {
            push_str(&mut s, "c.bnez ");
        }
        push_str(&mut s, rs1c);
        push_str(&mut s, ", ");
        let t = format_branch_target_rvc(address, inst);
        push_str(&mut s, t.as_str());
    }
    assert(s@ =~= rvc1_text(address, x));
    s
}

#[verifier::spinoff_prover]
#[verifier::rlimit(40)]
fn decode_rvc2(inst: u16) -> (r: String)
    requires
        (inst as u32) & 3 == 2,
    ensures
        r@ == rvc2_text(inst as u32),
{
    let x = inst as u32;
    let funct3 = inst.shift_then_mask(13, 0x7);
    let rd = inst.shift_then_mask(7, 0x1F) as u32;
    let rs2 = inst.shift_then_mask(2, 0x1F) as u32;
    let bit12 = inst.shift_then_mask(12, 1);
    assert(funct3 as u32 == (x >> 13) & 7 && rd == (x >> 7) & 0x1F && rs2 == (x >> 2) & 0x1F
        && bit12 as u32 == (x >> 12) & 1) by {
            lemma_rvc_bits(inst);
        }
    let mut s = String::new();
    if funct3 == 0 {
        if bit12 != 0 {
            push_reserved(&mut s, inst);
        } else {
            push_str(&mut s, "c.slli ");
            push_str(&mut s, reg_name(rd));
            push_str(&mut s, ", ");
            push_dec(&mut s, rs2 as u64);
        }
    } else if funct3 == 1 {
        push_str(&mut s, "c.fldsp ");
        push_str(&mut s, freg_name(rd));
        push_str(&mut s, ", ");
        push_uoffset(&mut s, ci_double_sp_offset(inst), "sp");
    } else if funct3 == 2 {
        if rd == 0 {
            push_reserved(&mut s, inst);
        } else {
            push_str(&mut s, "c.lwsp ");
            push_str(&mut s, reg_name(rd));
            push_str(&mut s, ", ");
            push_uoffset(&mut s, ci_word_sp_offset(inst), "sp");
        }
    } else if funct3 == 3 {
        push_str(&mut s, "c.flwsp ");
        push_str(&mut s, freg_name(rd));
        push_str(&mut s, ", ");
        push_uoffset(&mut s, ci_word_sp_offset(inst), "sp");
    } else if funct3 == 4 {
        if bit12 == 0 && rs2 == 0 {
            if rd == 0 {
                push_reserved(&mut s, inst);
            } else {
                push_str(&mut s, "c.jr ");
                push_str(&mut s, reg_name(rd));
            }
        } else if bit12 == 0 {
            push_str(&mut s, "c.mv ");
            push_pair(&mut s, reg_name(rd), reg_name(rs2));
        } else if rd == 0 && rs2 == 0 {
            push_str(&mut s, "c.ebreak");
        } else if rs2 == 0 {
            push_str(&mut s, "c.jalr ");
            push_str(&mut s, reg_name(rd));
        } else {
            push_str(&mut s, "c.add ");
            push_pair(&mut s, reg_name(rd), reg_name(rs2));
        }
    } else if funct3 == 5 {
        push_str(&mut s, "c.fsdsp ");
        push_str(&mut s, freg_name(rs2));
        push_str(&mut s, ", ");
        push_uoffset(&mut s, css_double_sp_offset(inst), "sp");
    } else if funct3 == 6 {
        push_str(&mut s, "c.swsp ");
        push_str(&mut s, reg_name(rs2));
        push_str(&mut s, ", ");
        push_uoffset(&mut s, css_word_sp_offset(inst), "sp");
    } else {
        push_str(&mut s, "c.fswsp ");
        push_str(&mut s, freg_name(rs2));
        push_str(&mut s, ", ");
        push_uoffset(&mut s, css_word_sp_offset(inst), "sp");
    }
    assert(s@ =~= rvc2_text(x));
    s
}

/// One disassembled instruction.
pub struct DisassembledInst {
    pub address: u32,
    /// The instruction bits in hexadecimal: four digits for a compressed
    /// instruction, eight otherwise.
    pub opcode_hex: String,
    pub asm_text: String,
    pub is_compressed: bool,
    /// The symbol naming the instruction's address, if any.
    pub label: Option<String>,
}

impl Disassembler {
    fn decode_rvc(address: u32, inst: u16) -> (r: String)
        ensures
            r@ == rvc_text(address, inst),
    {
        let op = inst & 0x3;
        assert(op as u32 == (inst as u32) & 3) by {
            lemma_rvc_bits(inst);
        }
        if op == 0 {
            decode_rvc0(inst)
        } else if op == 1 {
            decode_rvc1(address, inst)
        } else if op == 2 {
            decode_rvc2(inst)
        } else {
            let mut s = String::new();
            push_reserved(&mut s, inst);
            assert(s@ =~= rvc_reserved(inst as u32));
            s
        }
    }

    /// Disassemble the instruction word `opcode` found at `address`.
    pub fn decode_instruction(address: u32, opcode: u32) -> (r: DisassembledInst)
        ensures
            disassembled(address, opcode, None, r),
    {
        Self::decode_instruction_with_symbols(address, opcode, None)
    }

    /// Disassemble the instruction word `opcode` found at `address`, naming
    /// addresses by `symbols` where it names them.
    pub fn decode_instruction_with_symbols(
        address: u32,
        opcode: u32,
        symbols: Option<&HashMap<u32, String>>,
    ) -> (r: DisassembledInst)
        ensures
            disassembled(address, opcode, symbols_view(symbols), r),
    {
        let is_compressed = (opcode & 0x3) != 0x3;
        let mut hex_str = String::new();
        let text = if is_compressed {
            let half = (opcode & 0xFFFF) as u16;
            assert(half as u32 == opcode & 0xFFFF) by {
                lemma_u32_bits(opcode);
            }
            push_hex_plain(&mut hex_str, half as u64, 4);
            Self::decode_rvc(address, half)
        } else {
            push_hex_plain(&mut hex_str, opcode as u64, 8);
            Self::decode_rv32(address, opcode, symbols)
        };
        proof {
            assert(hex_str@ =~= (if is_compressed {
                zero_padded(hex_digits((opcode & 0xFFFF) as nat), 4)
            } else {
                zero_padded(hex_digits(opcode as nat), 8)
            }));
        }
        let label = symbol_at(symbols, address);
        DisassembledInst { address, opcode_hex: hex_str, asm_text: text, is_compressed, label }
    }
}

} // verus!

verus! {

/// The comparison an assembly branch mnemonic names, between the values `a`
/// and `b` of its two registers (the one-register forms compare `a` with 0):
/// `eq`/`ne` equality, `lt`/`ge` signed order, `ltu`/`geu` unsigned order.
pub open spec fn named_comparison(m: Seq<char>, a: u32, b: u32) -> Option<bool> {
    if m == "beq"@ {
        Some(a == b)
    } else if m == "beqz"@ {
        Some(a == 0)
    } else if m == "bne"@ {
        Some(a != b)
    } else if m == "bnez"@ {
        Some(a != 0)
    } else if m == "blt"@ {
        Some(crate::isa::sx32(a) < crate::isa::sx32(b))
    } else if m == "bltz"@ {
        Some(crate::isa::sx32(a) < 0)
    } else if m == "bge"@ {
        Some(crate::isa::sx32(a) >= crate::isa::sx32(b))
    } else if m == "bgez"@ {
        Some(crate::isa::sx32(a) >= 0)
    } else if m == "bltu"@ {
        Some(a < b)
    } else if m == "bgeu"@ {
        Some(a >= b)
    } else {
        None
    }
}

/// The mnemonic shown for a branch names the comparison the processor makes
/// for it: for every funct3 and register values, the named comparison is the
/// one `branch_taken` decides the branch by, with the second register x0 (value
/// 0) in the one-register forms.
pub proof fn law_branch_mnemonic_names_its_comparison(funct3: u8, rs2: u32, a: u32, b: u32)
    ensures
        rs2 != 0 ==> named_comparison(branch_mnemonic(funct3, rs2), a, b) == crate::isa::branch_taken(
            funct3,
            a,
            b,
        ),
        named_comparison(branch_mnemonic(funct3, 0), a, 0) == crate::isa::branch_taken(funct3, a, 0),
{
    reveal_strlit("beq");
    reveal_strlit("beqz");
    reveal_strlit("bne");
    reveal_strlit("bnez");
    reveal_strlit("blt");
    reveal_strlit("bltz");
    reveal_strlit("bge");
    reveal_strlit("bgez");
    reveal_strlit("bltu");
    reveal_strlit("bgeu");
    reveal_strlit("unknown_branch");
    assert("beq"@.len() == 3 && "beq"@[0] == 'b' && "beq"@[1] == 'e' && "beq"@[2] == 'q');
    assert("beqz"@.len() == 4 && "beqz"@[0] == 'b' && "beqz"@[1] == 'e' && "beqz"@[2] == 'q' && "beqz"@[3] == 'z');
    assert("bne"@.len() == 3 && "bne"@[0] == 'b' && "bne"@[1] == 'n' && "bne"@[2] == 'e');
    assert("bnez"@.len() == 4 && "bnez"@[0] == 'b' && "bnez"@[1] == 'n' && "bnez"@[2] == 'e' && "bnez"@[3] == 'z');
    assert("blt"@.len() == 3 && "blt"@[0] == 'b' && "blt"@[1] == 'l' && "blt"@[2] == 't');
    assert("bltz"@.len() == 4 && "bltz"@[0] == 'b' && "bltz"@[1] == 'l' && "bltz"@[2] == 't' && "bltz"@[3] == 'z');
    assert("bge"@.len() == 3 && "bge"@[0] == 'b' && "bge"@[1] == 'g' && "bge"@[2] == 'e');
    assert("bgez"@.len() == 4 && "bgez"@[0] == 'b' && "bgez"@[1] == 'g' && "bgez"@[2] == 'e' && "bgez"@[3] == 'z');
    assert("bltu"@.len() == 4 && "bltu"@[0] == 'b' && "bltu"@[1] == 'l' && "bltu"@[2] == 't' && "bltu"@[3] == 'u');
    assert("bgeu"@.len() == 4 && "bgeu"@[0] == 'b' && "bgeu"@[1] == 'g' && "bgeu"@[2] == 'e' && "bgeu"@[3] == 'u');
}

/// Branches of different kinds are shown with different mnemonics.
pub proof fn law_branch_mnemonics_distinct(f: u8, g: u8, rs2: u32)
    requires
        f == 0 || f == 1 || f == 4 || f == 5 || f == 6 || f == 7,
        g == 0 || g == 1 || g == 4 || g == 5 || g == 6 || g == 7,
        f != g,
    ensures
        branch_mnemonic(f, rs2) != branch_mnemonic(g, rs2),
{
    law_branch_mnemonic_names_its_comparison(f, rs2, 0, 0);
    reveal_strlit("beq");
    reveal_strlit("beqz");
    reveal_strlit("bne");
    reveal_strlit("bnez");
    reveal_strlit("blt");
    reveal_strlit("bltz");
    reveal_strlit("bge");
    reveal_strlit("bgez");
    reveal_strlit("bltu");
    reveal_strlit("bgeu");
    let m = branch_mnemonic(f, rs2);
    let n = branch_mnemonic(g, rs2);
    if m == n {
        assert(m.len() == n.len());
        assert(m[0] == n[0] && m[1] == n[1] && m[2] == n[2]);
        if m.len() > 3 {
            assert(m[3] == n[3]);
        }
    }
}

} // verus!
