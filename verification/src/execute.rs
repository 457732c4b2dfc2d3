//! Dispatch of a 32-bit instruction word to the extension that executes it.
use crate::cpu::{amo_effect, lemma_wrapping_add_word, rv32i_effect, seq_pc, Cpu, CpuError, CpuView};
use crate::float::fp_effect;
use crate::inst::{
    DecodedInst32, OP_AMO, OP_AUIPC, OP_BRANCH, OP_IMM, OP_JAL, OP_JALR, OP_LOAD, OP_LOAD_FP, OP_LUI,
    OP_MADD, OP_MISC_MEM, OP_MSUB, OP_NMADD, OP_NMSUB, OP_OP, OP_OP_FP, OP_STORE, OP_STORE_FP,
    OP_SYSTEM,
};
use crate::isa::muldiv_result;
use crate::memory::MemoryOps;
use crate::system::system_effect;
use vstd::prelude::*;

verus! {

/// Whether `op` is a major opcode of the base integer set.
pub open spec fn is_base_opcode(op: u8) -> bool {
    op == OP_LUI || op == OP_AUIPC || op == OP_JAL || op == OP_JALR || op == OP_BRANCH || op
        == OP_LOAD || op == OP_STORE || op == OP_IMM || op == OP_OP || op == OP_MISC_MEM
}

/// Whether `op` is a major opcode of the F and D extensions.
pub open spec fn is_fp_opcode(op: u8) -> bool {
    op == OP_LOAD_FP || op == OP_STORE_FP || op == OP_MADD || op == OP_MSUB || op == OP_NMSUB || op
        == OP_NMADD || op == OP_OP_FP
}

/// The effect of executing the 32-bit instruction word `raw` in state `pre`
/// with ordinary memory `ram` and program break `brk`: the result `r`, and
/// the state, memory and break after it. `has_host` and `has_fpu` say whether
/// a host and a floating-point unit are attached. On success `post.pc` is the
/// address of the next instruction; on failure nothing has changed, except
/// what a failed environment call leaves (nothing either).
pub open spec fn exec32_effect(
    pre: CpuView,
    ram: Map<u32, u8>,
    brk: u32,
    raw: u32,
    has_host: bool,
    has_fpu: bool,
    post: CpuView,
    ram_post: Map<u32, u8>,
    brk_post: u32,
    r: Result<(), CpuError>,
) -> bool {
    let d = DecodedInst32::spec_decode(raw);
    let op = d.opcode;
    if op == OP_OP && d.funct7 == 1 {
        &&& r is Ok
        &&& post == pre.with_reg(
            d.rd as int,
            muldiv_result(d.funct3, pre.reg(d.rs1 as int), pre.reg(d.rs2 as int)),
        ).with_pc(seq_pc(pre.pc, 4))
        &&& ram_post == ram
        &&& brk_post == brk
    } else if is_base_opcode(op) {
        rv32i_effect(pre, ram, d, post, ram_post, r) && brk_post == brk
    } else if op == OP_AMO {
        amo_effect(pre, ram, d, post, ram_post, r) && brk_post == brk
    } else if is_fp_opcode(op) {
        fp_effect(pre, ram, d, has_fpu, post, ram_post, r) && brk_post == brk
    } else if op == OP_SYSTEM {
        system_effect(pre, ram, brk, d, has_host, post, ram_post, brk_post, r)
    } else {
        &&& r == Err::<(), CpuError>(CpuError::UnknownOpcode { pc: pre.pc, opcode: op })
        &&& post == pre
        &&& ram_post == ram
        &&& brk_post == brk
    }
}

impl Cpu {
    /// Execute one 32-bit instruction word at the current `pc`.
    pub fn execute_inst32<M: MemoryOps>(&mut self, raw: u32, mem: &mut M) -> (r: Result<(), CpuError>)
        requires
            old(mem).inv(),
        ensures
            final(mem).inv(),
            final(self).same_attachments(old(self)),
            exec32_effect(
                old(self)@,
                old(mem).ram(),
                old(mem).brk(),
                raw,
                old(self).host is Some,
                old(self).fpu is Some,
                final(self)@,
                final(mem).ram(),
                final(mem).brk(),
                r,
            ),
    {
        let inst = DecodedInst32::decode(raw);
        proof {
            lemma_wrapping_add_word(self.pc, 4);
        }
        let mut next_pc = self.pc.wrapping_add(4);

        // The M extension shares the OP major opcode with the base integer
        // register-register instructions; `funct7 == 0x01` is what tells
        // them apart.
        if inst.opcode == OP_OP && inst.funct7 == 0x01 {
            match self.exec_rv32m(&inst) {
                Ok(()) => {},
                Err(e) => {
                    return Err(e);
                },
            }
        } else if inst.opcode == OP_OP || inst.opcode == OP_LUI || inst.opcode == OP_AUIPC
            || inst.opcode == OP_JAL || inst.opcode == OP_JALR || inst.opcode == OP_BRANCH
            || inst.opcode == OP_LOAD || inst.opcode == OP_STORE || inst.opcode == OP_IMM
            || inst.opcode == OP_MISC_MEM {
            match self.exec_rv32i(&inst, mem, &mut next_pc) {
                Ok(()) => {},
                Err(e) => {
                    return Err(e);
                },
            }
        } else if inst.opcode == OP_AMO {
            match self.exec_rv32a(&inst, mem) {
                Ok(()) => {},
                Err(e) => {
                    return Err(e);
                },
            }
        } else if inst.opcode == OP_LOAD_FP || inst.opcode == OP_STORE_FP || inst.opcode == OP_MADD
            || inst.opcode == OP_MSUB || inst.opcode == OP_NMSUB || inst.opcode == OP_NMADD
            || inst.opcode == OP_OP_FP {
            match self.exec_rv32fd(&inst, mem) {
                Ok(()) => {},
                Err(e) => {
                    return Err(e);
                },
            }
        } else if inst.opcode == OP_SYSTEM {
            match self.exec_csr(&inst, mem, &mut next_pc) {
                Ok(()) => {},
                Err(e) => {
                    return Err(e);
                },
            }
        } else {
            return Err(CpuError::UnknownOpcode { pc: self.pc, opcode: inst.opcode });
        }
        self.pc = next_pc;
        Ok(())
    }
}

} // verus!
