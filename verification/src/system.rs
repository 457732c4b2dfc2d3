//! Machine-mode control: CSR access, environment calls, breakpoints, trap
//! return, and the delivery of external interrupts.
use crate::cpu::{
    seq_pc, Cpu, CpuError, CpuView, MCAUSE, MEPC, MSTATUS, MSTATUS_MIE, MSTATUS_MPIE, MTVEC,
};
use crate::inst::DecodedInst32;
use crate::isa::csr_update;
use crate::memory::MemoryOps;
use crate::syscall::{ecall_effect, ecall_outcome, handle_ecall};
use vstd::prelude::*;

verus! {

/// `mstatus` after a trap is taken: `MIE` is saved into `MPIE` and cleared.
pub open spec fn trap_status(m: u32) -> u32 {
    let base = m & !(MSTATUS_MIE | MSTATUS_MPIE);
    if m & MSTATUS_MIE != 0 {
        base | MSTATUS_MPIE
    } else {
        base
    }
}

/// `mstatus` after `mret`: `MIE` is restored from `MPIE`, and `MPIE` is set.
pub open spec fn mret_status(m: u32) -> u32 {
    let base = (m & !MSTATUS_MIE) | MSTATUS_MPIE;
    if m & MSTATUS_MPIE != 0 {
        base | MSTATUS_MIE
    } else {
        base
    }
}

/// The CSR that a CSR instruction `d` names.
pub open spec fn csr_number(d: DecodedInst32) -> u16 {
    ((d.raw >> 20) & 0xFFF) as u16
}

/// The effect of a SYSTEM instruction decoded as `d` (see `rv32i_effect`);
/// `brk`, `brk_post` are the program break before and after it, and
/// `has_host` says whether a host is attached.
pub open spec fn system_effect(
    pre: CpuView,
    ram: Map<u32, u8>,
    brk: u32,
    d: DecodedInst32,
    has_host: bool,
    post: CpuView,
    ram_post: Map<u32, u8>,
    brk_post: u32,
    r: Result<(), CpuError>,
) -> bool {
    let seq = seq_pc(pre.pc, 4);
    let imm12 = d.raw >> 20;
    if d.funct3 == 0 && imm12 == 0 {
        match r {
            Ok(_) => post.pc == seq && ecall_effect(
                pre,
                ram,
                brk,
                has_host,
                post.with_pc(pre.pc),
                ram_post,
                brk_post,
                Ok(()),
            ),
            Err(CpuError::UnknownSyscall(u)) => ecall_effect(
                pre,
                ram,
                brk,
                has_host,
                post,
                ram_post,
                brk_post,
                Err(u),
            ),
            Err(_) => false,
        }
    } else {
        &&& r is Ok
        &&& ram_post == ram
        &&& brk_post == brk
        &&& post == if d.funct3 == 0 && imm12 == 1 {
            CpuView { is_halted: true, ..pre }.with_pc(seq)
        } else if d.funct3 == 0 && imm12 == 0x302 {
            pre.with_csr(MSTATUS, mret_status(pre.csr(MSTATUS))).with_pc(
                if pre.csrs.contains_key(MEPC) {
                    pre.csrs[MEPC]
                } else {
                    seq
                },
            )
        } else if d.funct3 == 0 {
            pre.with_pc(seq)
        } else {
            let old = pre.csr(csr_number(d));
            pre.with_csr(
                csr_number(d),
                csr_update(d.funct3, old, pre.reg(d.rs1 as int), d.rs1 as u32),
            ).with_reg(d.rd as int, old).with_pc(seq)
        }
    }
}

/// The state after external interrupt `irq` is taken in state `pre`: the
/// interrupted `pc` goes to `mepc`, the cause to `mcause`, interrupts are
/// disabled with their previous enable saved, and execution moves to `mtvec`
/// when one is set.
pub open spec fn interrupt_entry(pre: CpuView, irq: i32) -> CpuView {
    let s = pre.with_csr(MEPC, pre.pc).with_csr(MCAUSE, 0x8000_0000u32 | (irq as u32)).with_csr(
        MSTATUS,
        trap_status(pre.csr(MSTATUS)),
    );
    if pre.csrs.contains_key(MTVEC) {
        s.with_pc(pre.csrs[MTVEC])
    } else {
        s
    }
}

/// Taking an external interrupt disables interrupts, keeps in `MPIE` whether
/// they were enabled, saves the interrupted `pc` in `mepc` and leaves the
/// registers alone.
pub proof fn law_interrupt_disables(c: CpuView, irq: i32)
    ensures
        !interrupt_entry(c, irq).interrupts_enabled(),
        (interrupt_entry(c, irq).csr(MSTATUS) & MSTATUS_MPIE != 0) == c.interrupts_enabled(),
        interrupt_entry(c, irq).csr(MEPC) == c.pc,
        interrupt_entry(c, irq).regs == c.regs,
{
    let m = c.csr(MSTATUS);
    assert(trap_status(m) & MSTATUS_MIE == 0 && (trap_status(m) & MSTATUS_MPIE != 0) == (m
        & MSTATUS_MIE != 0)) by (bit_vector);
}

/// `mret` enables interrupts exactly when `MPIE` is set, and returns to
/// `mepc` when one is set.
pub proof fn law_mret_enables_from_mpie(
    pre: CpuView,
    ram: Map<u32, u8>,
    brk: u32,
    d: DecodedInst32,
    has_host: bool,
    post: CpuView,
    ram_post: Map<u32, u8>,
    brk_post: u32,
    r: Result<(), CpuError>,
)
    requires
        d.funct3 == 0,
        d.raw >> 20 == 0x302,
        system_effect(pre, ram, brk, d, has_host, post, ram_post, brk_post, r),
    ensures
        r is Ok,
        post.interrupts_enabled() == (pre.csr(MSTATUS) & MSTATUS_MPIE != 0),
        pre.csrs.contains_key(MEPC) ==> post.pc == pre.csrs[MEPC],
        post.regs == pre.regs,
{
    let m = pre.csr(MSTATUS);
    assert((mret_status(m) & MSTATUS_MIE != 0) == (m & MSTATUS_MPIE != 0)) by (bit_vector);
}

/// Returning with `mret` right after an external interrupt is taken resumes
/// the interrupted program: `pc` goes back to where it was, interrupts are
/// enabled again exactly when they were before, and the registers are
/// untouched.
pub proof fn law_mret_resumes_interrupted(
    c: CpuView,
    irq: i32,
    ram: Map<u32, u8>,
    brk: u32,
    d: DecodedInst32,
    has_host: bool,
    post: CpuView,
    ram_post: Map<u32, u8>,
    brk_post: u32,
    r: Result<(), CpuError>,
)
    requires
        d.funct3 == 0,
        d.raw >> 20 == 0x302,
        system_effect(interrupt_entry(c, irq), ram, brk, d, has_host, post, ram_post, brk_post, r),
    ensures
        r is Ok,
        post.pc == c.pc,
        post.interrupts_enabled() == c.interrupts_enabled(),
        post.regs == c.regs,
        ram_post == ram,
{
    let m = c.csr(MSTATUS);
    assert(mret_status(trap_status(m)) & MSTATUS_MIE == m & MSTATUS_MIE) by (bit_vector);
}

impl Cpu {
    /// True when `mstatus.MIE` allows machine-mode interrupts to be delivered.
    pub fn interrupts_enabled(&self) -> (r: bool)
        ensures
            r == self@.interrupts_enabled(),
    {
        (self.csr_value(MSTATUS) & MSTATUS_MIE) != 0
    }

    /// Take an external machine interrupt: save the interrupted PC and the
    /// interrupt-enable state, then vector to `mtvec`.
    pub fn handle_interrupt(&mut self, irq: i32)
        ensures
            final(self)@ == interrupt_entry(old(self)@, irq),
            final(self).same_attachments(old(self)),
    {
        let pc = self.pc;
        self.set_csr(MEPC, pc);
        self.set_csr(MCAUSE, 0x80000000 | (irq as u32));
        // Save MIE into MPIE and disable interrupts for the duration of the
        // handler, so a second interrupt cannot overwrite mepc.
        let mstatus = self.csr_value(MSTATUS);
        let mut new_mstatus = mstatus & !(MSTATUS_MIE | MSTATUS_MPIE);
        if (mstatus & MSTATUS_MIE) != 0 {
            new_mstatus = new_mstatus | MSTATUS_MPIE;
        }
        self.set_csr(MSTATUS, new_mstatus);
        match self.csrs.get(&MTVEC) {
            Some(v) => {
                self.pc = *v;
            },
            None => {},
        }
    }

    #[verifier::spinoff_prover]
    pub(crate) fn exec_csr<M: MemoryOps>(
        &mut self,
        inst: &DecodedInst32,
        mem: &mut M,
        next_pc: &mut u32,
    ) -> (r: Result<(), CpuError>)
        requires
            *inst == DecodedInst32::spec_decode(inst.raw),
            old(mem).inv(),
            *old(next_pc) == seq_pc(old(self).pc, 4),
        ensures
            final(mem).inv(),
            final(self)@.pc == old(self)@.pc,
            final(self).same_attachments(old(self)),
            system_effect(
                old(self)@,
                old(mem).ram(),
                old(mem).brk(),
                *inst,
                old(self).host is Some,
                if r is Ok {
                    final(self)@.with_pc(*final(next_pc))
                } else {
                    final(self)@
                },
                final(mem).ram(),
                final(mem).brk(),
                r,
            ),
    {
        proof {
            DecodedInst32::lemma_fields_in_range(inst.raw);
        }
        let funct3 = inst.funct3;
        let rd = inst.rd;
        let rs1 = inst.rs1;

        if funct3 == 0 {
            let imm12 = inst.raw >> 20;
            if imm12 == 0 {
                // ECALL
                let ghost pc = self@.pc;
                let ghost before = self@;
                let ghost ram = mem.ram();
                let ghost brk = mem.brk();
                let res = handle_ecall(self, mem);
                match res {
                    Ok(()) => {},
                    Err(e) => {
                        return Err(CpuError::UnknownSyscall(e));
                    },
                }
                proof {
                    assert(self@.with_pc(*next_pc).with_pc(pc) == self@);
                    assert(ecall_effect(
                        before,
                        ram,
                        brk,
                        self.host is Some,
                        self@,
                        mem.ram(),
                        mem.brk(),
                        res,
                    ));
                    assert(res is Ok);
                    let (ans, inp, ok) = choose|ans: i32, inp: Seq<u8>, ok: bool|
                        #![trigger ecall_outcome(before, ram, brk, ans, inp, ok, self@, mem.ram(), mem.brk(), res)]
                        {
                            &&& !(self.host is Some) ==> ans == 0 && inp.len() == 0
                            &&& ecall_outcome(before, ram, brk, ans, inp, ok, self@, mem.ram(), mem.brk(), res)
                        };
                    assert(ecall_outcome(before, ram, brk, ans, inp, ok, self@, mem.ram(), mem.brk(), Ok(())));
                }
            } else if imm12 == 1 {
                // EBREAK
                self.is_halted = true;
            } else if imm12 == 0x302 {
                // MRET: return to mepc and restore MIE from MPIE, which is then
                // set back to 1 as the privileged specification requires.
                match self.csrs.get(&MEPC) {
                    Some(v) => {
                        *next_pc = *v;
                    },
                    None => {},
                }
                let mstatus = self.csr_value(MSTATUS);
                let mut new_mstatus = (mstatus & !MSTATUS_MIE) | MSTATUS_MPIE;
                if (mstatus & MSTATUS_MPIE) != 0 {
                    new_mstatus = new_mstatus | MSTATUS_MIE;
                }
                self.set_csr(MSTATUS, new_mstatus);
            }
        } else {
            // CSR instructions
            let csr_num = ((inst.raw >> 20) & 0xFFF) as u16;
            let old_val = self.csr_value(csr_num);
            let src1_val = self.read_reg(rs1);
            let new_val = match funct3 {
                1 => src1_val,  // CSRRW
                2 => old_val | src1_val,  // CSRRS
                3 => old_val & !src1_val,  // CSRRC
                5 => rs1 as u32,  // CSRRWI
                6 => old_val | (rs1 as u32),  // CSRRSI
                7 => old_val & !(rs1 as u32),  // CSRRCI
                _ => old_val,
            };
            self.set_csr(csr_num, new_val);
            self.write_reg(rd, old_val);
        }
        Ok(())
    }
}

} // verus!
