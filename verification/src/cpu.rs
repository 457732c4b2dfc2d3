use crate::float::FloatOp;
use crate::host::{FloatUnit, Host, HostRequest};
use crate::inst::{
    b_field, i_field, j_field, s_field, sext12, sext13, sext21, DecodedInst16, DecodedInst32, OP_AMO, OP_AUIPC, OP_BRANCH, OP_IMM, OP_JAL, OP_JALR, OP_LOAD,
    OP_LOAD_FP, OP_LUI, OP_MADD, OP_MISC_MEM, OP_MSUB, OP_NMADD, OP_NMSUB, OP_OP, OP_OP_FP,
    OP_STORE, OP_STORE_FP, OP_SYSTEM,
};
use crate::isa::{
    amo_result, branch_taken, csr_update, div_rem_signed, muldiv_result, op_imm_result, op_result,
    lemma_sext_loads, lemma_u32_bits, sx16, sx32, sx8, word,
};
use crate::memory::{
    addr_add, in_ram, ram_store, ram_store_u16, ram_store_u32, ram_u16, ram_u32, MemoryOps,
};
use crate::syscall::UnknownSyscall;
use crate::utils::ShiftThenMask;
use std::collections::HashMap;
use std::collections::HashSet;
use vstd::prelude::*;

verus! {

broadcast use vstd::std_specs::hash::group_hash_axioms;

/// The canonical single-precision quiet NaN.
pub const NAN_F32: u32 = 0x7FC00000;

/// The canonical single-precision NaN, NaN-boxed in a 64-bit register.
pub const NAN_F64: u64 = 0xFFFFFFFF7FC00000;

/// The canonical double-precision quiet NaN.
pub const CANONICAL_NAN_F64: u64 = 0x7FF8000000000000;

/// Machine status: holds the global interrupt-enable state (MIE, bit 3) and its
/// saved copy (MPIE, bit 7).
pub const MSTATUS: u16 = 0x300;

/// Address of the first instruction to be executed after handling the current trap.
pub const MEPC: u16 = 0x341;

/// Event type that caused the current trap.
pub const MCAUSE: u16 = 0x342;

/// Address of the trap-handler's first instruction.
pub const MTVEC: u16 = 0x305;

/// `mstatus.MIE` — the global machine-mode interrupt enable.
pub const MSTATUS_MIE: u32 = 1 << 3;

/// `mstatus.MPIE` — the value `MIE` held before the current trap was taken.
pub const MSTATUS_MPIE: u32 = 1 << 7;

pub const A0: usize = 10;

pub const A1: usize = 11;

pub const A2: usize = 12;

pub const A3: usize = 13;

pub const A7: usize = 17;

/// Exit code reported when the guest stops on a trap. It matches the shell
/// convention for "terminated by a fault" and is simply any nonzero value that
/// a normal `exit()` is unlikely to produce.
pub const TRAP_EXIT_CODE: i32 = 134;

/// Stack pointer of a fresh processor.
pub const INITIAL_SP: u32 = 0x7FFFFFC;

#[derive(Debug, Clone, PartialEq, Eq)]
pub enum CpuError {
    IllegalInstruction { pc: u32, raw: u32 },
    UnknownOpcode { pc: u32, opcode: u8 },
    UnalignedAccess { pc: u32, addr: u32 },
    MemoryFault { pc: u32, addr: u32 },
    UnhandledSyscall { pc: u32, number: i32 },
    UnknownSyscall(UnknownSyscall),
    ExecutionError(String),
}

#[derive(Debug, PartialEq, Eq, Clone, Copy, Structural)]
pub enum StepResult {
    /// The instruction executed and the machine runs on.
    Executed,
    BreakpointHit(u32),
    Halted(i32),
    Trap(u32),
}

pub struct Cpu {
    pub regs: [u32; 32],
    /// Floating-point registers as IEEE-754 bit patterns; single-precision
    /// values are NaN-boxed (upper 32 bits all ones).
    pub fregs: [u64; 32],
    pub pc: u32,
    pub fcsr: u32,
    pub csrs: HashMap<u16, u32>,
    pub is_halted: bool,
    pub exit_code: i32,
    pub debug_enabled: bool,
    pub breakpoints: HashSet<u32>,
    pub step_counter: u64,
    pub has_custom_syscalls: bool,
    /// Set when execution stopped on a trap rather than on a clean exit. The
    /// debugger snapshot carries it so the UI never reports a crash as success.
    pub trapped: bool,
    /// Breakpoint address already reported to the host. Execution resumes
    /// through it once, so a `continue` from a breakpoint makes progress.
    pub resume_past_breakpoint: Option<u32>,
    /// The host environment: system calls, interrupts, console.
    pub host: Option<Box<dyn Host>>,
    /// The floating-point unit; without one the arithmetic of the F and D
    /// extensions is an illegal instruction.
    pub fpu: Option<Box<dyn FloatUnit>>,
    /// What the floating-point unit has been asked so far, in order: the
    /// operation and its three operands.
    pub fpu_requests: Ghost<Seq<(FloatOp, u64, u64, u64)>>,
    /// What the host has been asked so far by system calls, in order.
    pub host_requests: Ghost<Seq<HostRequest>>,
    /// The polls for an external interrupt so far, in order: the step count
    /// at the poll and the number of instructions to run before the next one,
    /// as the host gave it (1000 when it gave none).
    pub interrupt_polls: Ghost<Seq<(u64, u64)>>,
}

/// The observable state of a processor.
pub struct CpuView {
    pub regs: Seq<u32>,
    pub fregs: Seq<u64>,
    pub pc: u32,
    pub fcsr: u32,
    pub csrs: Map<u16, u32>,
    pub is_halted: bool,
    pub exit_code: i32,
    pub debug_enabled: bool,
    pub breakpoints: Set<u32>,
    pub step_counter: u64,
    pub has_custom_syscalls: bool,
    pub trapped: bool,
    pub resume_past_breakpoint: Option<u32>,
}

impl View for Cpu {
    type V = CpuView;

    open spec fn view(&self) -> CpuView {
        CpuView {
            regs: self.regs@,
            fregs: self.fregs@,
            pc: self.pc,
            fcsr: self.fcsr,
            csrs: self.csrs@,
            is_halted: self.is_halted,
            exit_code: self.exit_code,
            debug_enabled: self.debug_enabled,
            breakpoints: self.breakpoints@,
            step_counter: self.step_counter,
            has_custom_syscalls: self.has_custom_syscalls,
            trapped: self.trapped,
            resume_past_breakpoint: self.resume_past_breakpoint,
        }
    }
}

impl CpuView {
    /// The value an instruction reads from integer register `r`: `x0` is always zero.
    pub open spec fn reg(self, r: int) -> u32 {
        if r == 0 {
            0
        } else {
            self.regs[r]
        }
    }

    /// The value of a CSR; one never written reads as zero.
    pub open spec fn csr(self, k: u16) -> u32 {
        if self.csrs.contains_key(k) {
            self.csrs[k]
        } else {
            0
        }
    }

    /// This state with integer register `r` set to `v` (a write to `x0` is discarded).
    pub open spec fn with_reg(self, r: int, v: u32) -> CpuView {
        if r == 0 {
            self
        } else {
            CpuView { regs: self.regs.update(r, v), ..self }
        }
    }

    pub open spec fn with_pc(self, pc: u32) -> CpuView {
        CpuView { pc, ..self }
    }

    pub open spec fn with_freg(self, r: int, bits: u64) -> CpuView {
        CpuView { fregs: self.fregs.update(r, bits), ..self }
    }

    pub open spec fn with_csr(self, k: u16, v: u32) -> CpuView {
        CpuView { csrs: self.csrs.insert(k, v), ..self }
    }

    /// Whether machine-mode interrupts are enabled (`mstatus.MIE`).
    pub open spec fn interrupts_enabled(self) -> bool {
        self.csr(MSTATUS) & MSTATUS_MIE != 0
    }
}

/// The state of a fresh processor: every register zero but the stack
/// pointer, no CSR written, no breakpoints, running.
pub open spec fn fresh_cpu() -> CpuView {
    CpuView {
        regs: Seq::new(32, |i: int| if i == 2 { INITIAL_SP } else { 0u32 }),
        fregs: Seq::new(32, |i: int| 0u64),
        pc: 0,
        fcsr: 0,
        csrs: Map::empty(),
        is_halted: false,
        exit_code: 0,
        debug_enabled: false,
        breakpoints: Set::empty(),
        step_counter: 0,
        has_custom_syscalls: false,
        trapped: false,
        resume_past_breakpoint: None,
    }
}

/// The address of the next sequential instruction after one of `len` bytes.
pub open spec fn seq_pc(pc: u32, len: int) -> u32 {
    word(pc + len)
}

/// The value a load instruction of kind `funct3` reads from `ram` at `addr`.
pub open spec fn load_value(funct3: u8, ram: Map<u32, u8>, addr: u32) -> u32 {
    if funct3 == 0 {
        word(sx8(ram[addr]))
    } else if funct3 == 1 {
        word(sx16(ram_u16(ram, addr)))
    } else if funct3 == 2 {
        ram_u32(ram, addr)
    } else if funct3 == 4 {
        ram[addr] as u32
    } else {
        ram_u16(ram, addr) as u32
    }
}

/// Width in bytes of a load of kind `funct3` (1, 2 or 4); 0 for no such load.
pub open spec fn load_width(funct3: u8) -> int {
    if funct3 == 0 || funct3 == 4 {
        1
    } else if funct3 == 1 || funct3 == 5 {
        2
    } else if funct3 == 2 {
        4
    } else {
        0
    }
}

/// Width in bytes of a store of kind `funct3`; 0 for no such store.
pub open spec fn store_width(funct3: u8) -> int {
    if funct3 == 0 {
        1
    } else if funct3 == 1 {
        2
    } else if funct3 == 2 {
        4
    } else {
        0
    }
}

/// `ram` after the low `width` bytes of `val` are stored at `addr`.
pub open spec fn ram_store_width(ram: Map<u32, u8>, addr: u32, width: int, val: u32) -> Map<u32, u8> {
    if width == 1 {
        ram_store(ram, addr, (val % 0x100) as u8)
    } else if width == 2 {
        ram_store_u16(ram, addr, (val % 0x1_0000) as u16)
    } else {
        ram_store_u32(ram, addr, val)
    }
}

/// A store of `width` bytes at `addr` turned `before` into `after`: the domain
/// is kept, every byte outside the window is kept, and a window that lies
/// wholly in ordinary memory holds the stored value.
pub open spec fn stored(before: Map<u32, u8>, after: Map<u32, u8>, addr: u32, width: int, val: u32) -> bool {
    &&& after.dom() == before.dom()
    &&& forall|a: u32|
        before.contains_key(a) && (forall|i: int| 0 <= i < width ==> a != #[trigger] addr_add(addr, i))
            ==> #[trigger] after[a] == before[a]
    &&& in_ram(before, addr, width) ==> after == ram_store_width(before, addr, width, val)
}

/// A load into `rd` of `width` bytes at `addr` turned `pre` into `post`: only
/// `rd` changed, and it holds `value` when the bytes are ordinary memory.
pub open spec fn loaded(pre: CpuView, post: CpuView, rd: int, ram: Map<u32, u8>, addr: u32, width: int, value: u32) -> bool {
    &&& post.regs.len() == pre.regs.len()
    &&& forall|i: int| 0 <= i < pre.regs.len() && i != rd ==> post.regs[i] == pre.regs[i]
    &&& rd == 0 ==> post.regs == pre.regs
    &&& rd != 0 && in_ram(ram, addr, width) ==> post.regs[rd] == value
    &&& CpuView { regs: pre.regs, ..post } == pre
}


/// `pc + offset`, wrapping: the target of a relative jump or branch.
pub open spec fn pc_rel(pc: u32, offset: int) -> u32 {
    word(pc + offset)
}

/// The effect of an instruction of the base integer set (everything but the
/// M, A, F, D and system extensions) decoded as `d` on state `pre` and
/// ordinary memory `ram`: the result `r`, the next state `post` (its `pc`
/// the address of the next instruction), and ordinary memory after it.
pub open spec fn rv32i_effect(
    pre: CpuView,
    ram: Map<u32, u8>,
    d: DecodedInst32,
    post: CpuView,
    ram_post: Map<u32, u8>,
    r: Result<(), CpuError>,
) -> bool {
    let raw = d.raw;
    let rd = d.rd as int;
    let a = pre.reg(d.rs1 as int);
    let b = pre.reg(d.rs2 as int);
    let seq = seq_pc(pre.pc, 4);
    let illegal: Result<(), CpuError> = Err(CpuError::IllegalInstruction { pc: pre.pc, raw });
    let unchanged = r == illegal && post == pre && ram_post == ram;
    if d.opcode == OP_LUI {
        r is Ok && post == pre.with_reg(rd, raw & 0xFFFF_F000).with_pc(seq) && ram_post == ram
    } else if d.opcode == OP_AUIPC {
        r is Ok && post == pre.with_reg(rd, word(pre.pc + (raw & 0xFFFF_F000))).with_pc(seq)
            && ram_post == ram
    } else if d.opcode == OP_JAL {
        r is Ok && post == pre.with_reg(rd, seq).with_pc(pc_rel(pre.pc, sext21(j_field(raw))))
            && ram_post == ram
    } else if d.opcode == OP_JALR {
        r is Ok && post == pre.with_reg(rd, seq).with_pc(word(a + sext12(i_field(raw))) & !1u32)
            && ram_post == ram
    } else if d.opcode == OP_BRANCH {
        match branch_taken(d.funct3, a, b) {
            Some(taken) => r is Ok && post == pre.with_pc(
                if taken {
                    pc_rel(pre.pc, sext13(b_field(raw)))
                } else {
                    seq
                },
            ) && ram_post == ram,
            None => unchanged,
        }
    } else if d.opcode == OP_LOAD {
        let addr = word(a + sext12(i_field(raw)));
        let width = load_width(d.funct3);
        if width == 0 {
            unchanged
        } else {
            r is Ok && loaded(pre.with_pc(seq), post, rd, ram, addr, width, load_value(d.funct3, ram, addr))
                && ram_post == ram
        }
    } else if d.opcode == OP_STORE {
        let addr = word(a + sext12(s_field(raw)));
        let width = store_width(d.funct3);
        if width == 0 {
            unchanged
        } else {
            r is Ok && post == pre.with_pc(seq) && stored(ram, ram_post, addr, width, b)
        }
    } else if d.opcode == OP_IMM {
        r is Ok && post == pre.with_reg(
            rd,
            op_imm_result(d.funct3, d.funct7, a, sext12(i_field(raw)), (d.rs2 as u32) & 0x1F),
        ).with_pc(seq) && ram_post == ram
    } else if d.opcode == OP_OP {
        match op_result(d.funct7, d.funct3, a, b) {
            Some(v) => r is Ok && post == pre.with_reg(rd, v).with_pc(seq) && ram_post == ram,
            None => unchanged,
        }
    } else if d.opcode == OP_MISC_MEM {
        r is Ok && post == pre.with_pc(seq) && ram_post == ram
    } else {
        unchanged
    }
}

/// The effect of an atomic memory operation decoded as `d` (see `rv32i_effect`).
pub open spec fn amo_effect(
    pre: CpuView,
    ram: Map<u32, u8>,
    d: DecodedInst32,
    post: CpuView,
    ram_post: Map<u32, u8>,
    r: Result<(), CpuError>,
) -> bool {
    let funct5 = (d.funct7 >> 2) as u8;
    let addr = pre.reg(d.rs1 as int);
    let src = pre.reg(d.rs2 as int);
    let rd = d.rd as int;
    let seq = seq_pc(pre.pc, 4);
    if amo_result(funct5, 0, 0) is None {
        r == Err::<(), CpuError>(CpuError::IllegalInstruction { pc: pre.pc, raw: d.raw })
            && post == pre && ram_post == ram
    } else {
        &&& r is Ok
        &&& post.pc == seq
        &&& ram_post.dom() == ram.dom()
        &&& forall|a: u32|
            ram.contains_key(a) && (forall|i: int| 0 <= i < 4 ==> a != #[trigger] addr_add(addr, i))
                ==> #[trigger] ram_post[a] == ram[a]
        &&& funct5 == 0x02 ==> ram_post == ram
        &&& if in_ram(ram, addr, 4) {
            let (new_val, rd_val) = amo_result(funct5, ram_u32(ram, addr), src).unwrap();
            &&& post == pre.with_reg(rd, rd_val).with_pc(seq)
            &&& funct5 != 0x02 ==> ram_post == ram_store_u32(ram, addr, new_val)
        } else {
            loaded(pre.with_pc(seq), post, rd, ram, addr, 4, 0)
        }
    }
}

/// The upper half of a 64-bit product, wrapped into a register.
proof fn lemma_high_word_i64(p: i64)
    ensures
        ((p >> 32) & 0xFFFFFFFF) as u32 == word(p as int / 0x1_0000_0000),
{
    assert(((p >> 32) & 0xFFFFFFFF) as u32 == ((p as int / 0x1_0000_0000) % 0x1_0000_0000) as u32)
        by (bit_vector);
}

/// A signed 32-bit value converted to a register value is that value wrapped.
pub proof fn lemma_i32_as_u32(x: i32)
    ensures
        x as u32 == word(x as int),
{
    assert((x as u32) as int == (x as int) % 0x1_0000_0000) by (bit_vector);
}

/// Adding a wrapped offset is adding the offset, wrapped.
pub proof fn lemma_wrapping_add_word(pc: u32, x: int)
    ensures
        vstd::wrapping::u32_specs::wrapping_add(pc, word(x)) == word(pc + x),
{
    vstd::arithmetic::div_mod::lemma_add_mod_noop(pc as int, x, 0x1_0000_0000);
    vstd::arithmetic::div_mod::lemma_add_mod_noop(pc as int, word(x) as int, 0x1_0000_0000);
    vstd::arithmetic::div_mod::lemma_mod_twice(x, 0x1_0000_0000);
    vstd::arithmetic::div_mod::lemma_small_mod(pc as nat, 0x1_0000_0000);
}

impl Default for Cpu {
    fn default() -> (cpu: Self)
        ensures
            cpu@ == fresh_cpu(),
            cpu.host is None,
            cpu.fpu is None,
    {
        Cpu::new()
    }
}

/// The number of instructions run until the next interrupt poll when the
/// host answered `answer`: the answer taken as an unsigned count, or 1000
/// when it is 0.
pub open spec fn poll_interval(answer: i32) -> u64 {
    if answer == 0 {
        1000
    } else {
        answer as u64
    }
}

impl Cpu {
    /// Everything a step of execution leaves as it was besides the named state.
    /// The record of what the floating-point unit and the host were asked is
    /// the same in both.
    pub open spec fn same_requests(&self, other: &Cpu) -> bool {
        &&& self.fpu_requests@ == other.fpu_requests@
        &&& self.host_requests@ == other.host_requests@
    }

    /// The same host and floating-point unit are attached, and the record of
    /// interrupt polls is the same.
    pub open spec fn same_attachments(&self, other: &Cpu) -> bool {
        &&& self.host == other.host
        &&& self.fpu == other.fpu
        &&& self.interrupt_polls@ == other.interrupt_polls@
    }

    pub fn new() -> (cpu: Self)
        ensures
            cpu@ == fresh_cpu(),
            cpu@.regs == Seq::new(32, |i: int| if i == 2 { INITIAL_SP } else { 0u32 }),
            cpu@.fregs == Seq::new(32, |i: int| 0u64),
            cpu@.pc == 0,
            cpu@.fcsr == 0,
            cpu@.csrs == Map::<u16, u32>::empty(),
            !cpu@.is_halted,
            cpu@.exit_code == 0,
            !cpu@.debug_enabled,
            cpu@.breakpoints == Set::<u32>::empty(),
            cpu@.step_counter == 0,
            !cpu@.has_custom_syscalls,
            !cpu@.trapped,
            cpu@.resume_past_breakpoint is None,
            cpu.host is None,
            cpu.fpu is None,
    {
        let mut cpu = Self {
            regs: [0;32],
            fregs: [0;32],
            pc: 0,
            fcsr: 0,
            csrs: HashMap::new(),
            is_halted: false,
            exit_code: 0,
            debug_enabled: false,
            breakpoints: HashSet::new(),
            step_counter: 0,
            has_custom_syscalls: false,
            trapped: false,
            resume_past_breakpoint: None,
            host: None,
            fpu: None,
            fpu_requests: Ghost(Seq::empty()),
            host_requests: Ghost(Seq::empty()),
            interrupt_polls: Ghost(Seq::empty()),
        };
        // Default Stack Pointer sp (x2) if not set by CLI
        cpu.regs[2] = INITIAL_SP;
        assert(cpu@.regs =~= Seq::new(32, |i: int| if i == 2 { INITIAL_SP } else { 0u32 }));
        assert(cpu@.fregs =~= Seq::new(32, |i: int| 0u64));
        cpu
    }

    pub fn read_reg(&self, reg: usize) -> (r: u32)
        requires
            reg < 32,
        ensures
            r == self@.reg(reg as int),
    {
        if reg == 0 {
            0
        } else {
            self.regs[reg]
        }
    }

    pub fn write_reg(&mut self, reg: usize, val: u32)
        requires
            reg < 32,
        ensures
            final(self).same_requests(old(self)),
            final(self)@ == old(self)@.with_reg(reg as int, val),
            final(self).same_attachments(old(self)),
    {
        if reg != 0 {
            self.regs[reg] = val;
        }
    }

    #[verifier::spinoff_prover]
    #[verifier::rlimit(50)]
    pub(crate) fn exec_rv32i<M: MemoryOps>(
        &mut self,
        inst: &DecodedInst32,
        mem: &mut M,
        next_pc: &mut u32,
    ) -> (r: Result<(), CpuError>)
        requires
            *inst == DecodedInst32::spec_decode(inst.raw),
            old(mem).inv(),
            *old(next_pc) == seq_pc(old(self).pc, 4),
        ensures
            final(mem).inv(),
            final(mem).brk() == old(mem).brk(),
            final(self)@.pc == old(self)@.pc,
            final(self).same_attachments(old(self)),
            rv32i_effect(
                old(self)@,
                old(mem).ram(),
                *inst,
                if r is Ok {
                    final(self)@.with_pc(*final(next_pc))
                } else {
                    final(self)@
                },
                final(mem).ram(),
                r,
            ),
    {
        let ghost pre = self@;
        proof {
            lemma_wrapping_add_word(pre.pc, 4);
            DecodedInst32::lemma_fields_in_range(inst.raw);
        }
        match inst.opcode {
            OP_LUI => {
                self.write_reg(inst.rd, inst.u_imm());
            },
            OP_AUIPC => {
                proof {
                    lemma_wrapping_add_word(pre.pc, (inst.raw & 0xFFFF_F000) as int);
                    vstd::arithmetic::div_mod::lemma_small_mod((inst.raw & 0xFFFF_F000) as nat, 0x1_0000_0000);
                }
                self.write_reg(inst.rd, self.pc.wrapping_add(inst.u_imm()));
            },
            OP_JAL => {
                let imm = inst.j_imm();
                proof {
                    lemma_i32_as_u32(imm);
                    lemma_wrapping_add_word(pre.pc, imm as int);
                }
                self.write_reg(inst.rd, *next_pc);
                *next_pc = self.pc.wrapping_add(imm as u32);
            },
            OP_JALR => {
                let imm = inst.i_imm();
                proof {
                    lemma_i32_as_u32(imm);
                    lemma_wrapping_add_word(pre.reg(inst.rs1 as int), imm as int);
                }
                let target = (self.read_reg(inst.rs1).wrapping_add(imm as u32)) & !1;
                self.write_reg(inst.rd, *next_pc);
                *next_pc = target;
            },
            OP_BRANCH => {
                let src1 = self.read_reg(inst.rs1);
                let src2 = self.read_reg(inst.rs2);
                let take = match inst.funct3 {
                    0 => src1 == src2,
                    1 => src1 != src2,
                    4 => (src1 as i32) < (src2 as i32),
                    5 => (src1 as i32) >= (src2 as i32),
                    6 => src1 < src2,
                    7 => src1 >= src2,
                    _ => { return Err(CpuError::IllegalInstruction { pc: self.pc, raw: inst.raw }) },
                };
                assert((src1 as i32) as int == sx32(src1) && (src2 as i32) as int == sx32(src2))
                    by {
                        lemma_u32_bits(src1);
                        lemma_u32_bits(src2);
                    }
                if take {
                    let imm = inst.b_imm();
                    proof {
                        lemma_i32_as_u32(imm);
                        lemma_wrapping_add_word(pre.pc, imm as int);
                    }
                    *next_pc = self.pc.wrapping_add(imm as u32);
                }
            },
            OP_LOAD => {
                let imm = inst.i_imm();
                proof {
                    lemma_i32_as_u32(imm);
                    lemma_wrapping_add_word(pre.reg(inst.rs1 as int), imm as int);
                }
                let addr = self.read_reg(inst.rs1).wrapping_add(imm as u32);
                let val = match inst.funct3 {
                    0 => {
                        let v = mem.read_u8(addr);
                        assert(((v as i8) as i32) as u32 == word(sx8(v))) by {
                            lemma_sext_loads(v, 0);
                        }
                        ((v as i8) as i32) as u32
                    },
                    1 => {
                        let v = mem.read_u16(addr);
                        assert(((v as i16) as i32) as u32 == word(sx16(v))) by {
                            lemma_sext_loads(0, v);
                        }
                        ((v as i16) as i32) as u32
                    },
                    2 => mem.read_u32(addr),
                    4 => mem.read_u8(addr) as u32,
                    5 => mem.read_u16(addr) as u32,
                    _ => { return Err(CpuError::IllegalInstruction { pc: self.pc, raw: inst.raw }) },
                };
                proof {
                    assert(addr_add(addr, 0) == addr);
                }
                self.write_reg(inst.rd, val);
            },
            OP_STORE => {
                let imm = inst.s_imm();
                proof {
                    lemma_i32_as_u32(imm);
                    lemma_wrapping_add_word(pre.reg(inst.rs1 as int), imm as int);
                }
                let addr = self.read_reg(inst.rs1).wrapping_add(imm as u32);
                let val = self.read_reg(inst.rs2);
                match inst.funct3 {
                    0 => {
                        assert((val as u8) == (val % 0x100) as u8) by {
                            lemma_u32_bits(val);
                        }
                        mem.write_u8(addr, val as u8);
                        proof {
                            assert(addr_add(addr, 0) == addr);
                        }
                    },
                    1 => {
                        assert((val as u16) == (val % 0x1_0000) as u16) by {
                            lemma_u32_bits(val);
                        }
                        mem.write_u16(addr, val as u16);
                        proof {
                            assert(addr_add(addr, 0) == addr);
                        }
                    },
                    2 => {
                        mem.write_u32(addr, val);
                        proof {
                            assert(addr_add(addr, 0) == addr);
                        }
                    },
                    _ => { return Err(CpuError::IllegalInstruction { pc: self.pc, raw: inst.raw }) },
                }
            },
            OP_IMM => {
                let src1 = self.read_reg(inst.rs1);
                let imm = inst.i_imm();
                let rs2 = inst.rs2;
                let shamt = (rs2 & 0x1F) as u32;
                assert(rs2 & 0x1F < 32) by (bit_vector);
                proof {
                    lemma_i32_as_u32(imm);
                    lemma_wrapping_add_word(src1, imm as int);
                }
                assert((src1 as i32) as int == sx32(src1)) by {
                    lemma_u32_bits(src1);
                }
                let val = match inst.funct3 {
                    0 => src1.wrapping_add(imm as u32),
                    2 => {
                        if (src1 as i32) < imm {
                            1
                        } else {
                            0
                        }
                    },
                    3 => {
                        if src1 < (imm as u32) {
                            1
                        } else {
                            0
                        }
                    },
                    4 => src1 ^ (imm as u32),
                    6 => src1 | (imm as u32),
                    7 => src1 & (imm as u32),
                    1 => src1 << shamt,
                    5 => {
                        if inst.funct7 == 0x20 {
                            ((src1 as i32) >> shamt) as u32
                        } else {
                            src1 >> shamt
                        }
                    },
                    _ => { return Err(CpuError::IllegalInstruction { pc: self.pc, raw: inst.raw }) },
                };
                self.write_reg(inst.rd, val);
            },
            OP_OP => {
                let src1 = self.read_reg(inst.rs1);
                let src2 = self.read_reg(inst.rs2);
                proof {
                    lemma_wrapping_add_word(src1, src2 as int);
                }
                assert((src1 as i32) as int == sx32(src1) && (src2 as i32) as int == sx32(src2))
                    by {
                        lemma_u32_bits(src1);
                        lemma_u32_bits(src2);
                    }
                assert(src2 & 0x1F < 32) by {
                    lemma_u32_bits(src2);
                }
                let val = match (inst.funct7, inst.funct3) {
                    (0x00, 0) => src1.wrapping_add(src2),
                    (0x20, 0) => src1.wrapping_sub(src2),
                    (0x00, 1) => src1 << (src2 & 0x1F),
                    (0x00, 2) => {
                        if (src1 as i32) < (src2 as i32) {
                            1
                        } else {
                            0
                        }
                    },
                    (0x00, 3) => {
                        if src1 < src2 {
                            1
                        } else {
                            0
                        }
                    },
                    (0x00, 4) => src1 ^ src2,
                    (0x00, 5) => src1 >> (src2 & 0x1F),
                    (0x20, 5) => ((src1 as i32) >> (src2 & 0x1F)) as u32,
                    (0x00, 6) => src1 | src2,
                    (0x00, 7) => src1 & src2,
                    _ => { return Err(CpuError::IllegalInstruction { pc: self.pc, raw: inst.raw }) },
                };
                self.write_reg(inst.rd, val);
            },
            OP_MISC_MEM => {},
            _ => { return Err(CpuError::IllegalInstruction { pc: self.pc, raw: inst.raw }) },
        }
        Ok(())
    }

    pub(crate) fn exec_rv32m(&mut self, inst: &DecodedInst32) -> (r: Result<(), CpuError>)
        requires
            *inst == DecodedInst32::spec_decode(inst.raw),
        ensures
            r is Ok,
            final(self)@ == old(self)@.with_reg(
                inst.rd as int,
                muldiv_result(
                    inst.funct3,
                    old(self)@.reg(inst.rs1 as int),
                    old(self)@.reg(inst.rs2 as int),
                ),
            ),
            final(self).same_attachments(old(self)),
    {
        proof {
            DecodedInst32::lemma_fields_in_range(inst.raw);
        }
        let src1 = self.read_reg(inst.rs1);
        let src2 = self.read_reg(inst.rs2);
        let val = match inst.funct3 {
            0 => src1.wrapping_mul(src2),
            1 => {
                let x = src1 as i32 as i64;
                let y = src2 as i32 as i64;
                assert((src1 as i32 as i64) as int == sx32(src1) && (src2 as i32 as i64) as int == sx32(src2))
                    by {
                        lemma_u32_bits(src1);
                        lemma_u32_bits(src2);
                    }
                assert(-0x4000_0000_0000_0000 <= x * y <= 0x4000_0000_0000_0000) by (nonlinear_arith)
                    requires
                        -0x8000_0000 <= x < 0x8000_0000,
                        -0x8000_0000 <= y < 0x8000_0000,
                ;
                let p = x * y;
                proof {
                    lemma_high_word_i64(p);
                }
                ((p >> 32) & 0xFFFFFFFF) as u32
            },
            2 => {
                let x = src1 as i32 as i64;
                let y = src2 as u64 as i64;
                assert((src1 as i32 as i64) as int == sx32(src1) && (src2 as u64 as i64) as int == src2 as int)
                    by {
                        lemma_u32_bits(src1);
                        lemma_u32_bits(src2);
                    }
                assert(-0x8000_0000_0000_0000 <= x * y <= 0x7FFF_FFFF_FFFF_FFFF) by (nonlinear_arith)
                    requires
                        -0x8000_0000 <= x < 0x8000_0000,
                        0 <= y < 0x1_0000_0000,
                ;
                let p = x * y;
                proof {
                    lemma_high_word_i64(p);
                }
                ((p >> 32) & 0xFFFFFFFF) as u32
            },
            3 => {
                let x = src1 as u64;
                let y = src2 as u64;
                assert(x * y <= 0xFFFF_FFFF_FFFF_FFFF) by (nonlinear_arith)
                    requires
                        x < 0x1_0000_0000,
                        y < 0x1_0000_0000,
                ;
                let p = x * y;
                proof {
                    vstd::bits::lemma_u64_shr_is_div(p, 32);
                    vstd::arithmetic::power2::lemma2_to64();
                    assert(p >> 32 < 0x1_0000_0000 && (p >> 32) & 0xFFFFFFFF == p >> 32) by (bit_vector);
                }
                ((p >> 32) & 0xFFFFFFFF) as u32
            },
            4 => {
                if src2 == 0 {
                    0xFFFFFFFF
                } else {
                    div_rem_signed(src1, src2).0
                }
            },
            5 => match src1.checked_div(src2) {
                Some(q) => q,
                None => 0xFFFFFFFF,
            },
            6 => {
                if src2 == 0 {
                    src1
                } else {
                    div_rem_signed(src1, src2).1
                }
            },
            7 => {
                if src2 == 0 {
                    src1
                } else {
                    src1 % src2
                }
            },
            _ => { return Err(CpuError::IllegalInstruction { pc: self.pc, raw: inst.raw }) },
        };
        self.write_reg(inst.rd, val);
        Ok(())
    }

    #[verifier::spinoff_prover]
    #[verifier::rlimit(50)]
    pub(crate) fn exec_rv32a<M: MemoryOps>(&mut self, inst: &DecodedInst32, mem: &mut M) -> (r: Result<(), CpuError>)
        requires
            *inst == DecodedInst32::spec_decode(inst.raw),
            old(mem).inv(),
        ensures
            final(mem).inv(),
            final(mem).brk() == old(mem).brk(),
            final(self).same_attachments(old(self)),
            amo_effect(
                old(self)@,
                old(mem).ram(),
                *inst,
                if r is Ok {
                    final(self)@.with_pc(seq_pc(old(self)@.pc, 4))
                } else {
                    final(self)@
                },
                final(mem).ram(),
                r,
            ),
            r is Ok ==> final(self)@.pc == old(self)@.pc,
    {
        proof {
            DecodedInst32::lemma_fields_in_range(inst.raw);
            assert(addr_add(self.regs@[inst.rs1 as int], 0) == self.regs@[inst.rs1 as int]);
            assert(addr_add(0, 0) == 0);
        }
        let funct5 = inst.funct7 >> 2;
        let addr = self.read_reg(inst.rs1);
        let src2 = self.read_reg(inst.rs2);
        let old_val = mem.read_u32(addr);
        let mut rd_val = old_val;
        assert((old_val as i32) as int == sx32(old_val) && (src2 as i32) as int == sx32(src2))
            by {
                lemma_u32_bits(old_val);
                lemma_u32_bits(src2);
            }
        proof {
            lemma_wrapping_add_word(old_val, src2 as int);
        }
        let new_val = match funct5 {
            0x02 => old_val,  // LR.W
            0x03 => {
                rd_val = 0;
                src2
            },  // SC.W
            0x01 => src2,  // AMOSWAP.W
            0x00 => old_val.wrapping_add(src2),  // AMOADD.W
            0x04 => old_val ^ src2,  // AMOXOR.W
            0x0C => old_val & src2,  // AMOAND.W
            0x08 => old_val | src2,  // AMOOR.W
            0x10 => {
                if (old_val as i32) <= (src2 as i32) {
                    old_val
                } else {
                    src2
                }
            },  // AMOMIN.W
            0x14 => {
                if (old_val as i32) >= (src2 as i32) {
                    old_val
                } else {
                    src2
                }
            },  // AMOMAX.W
            0x18 => {
                if old_val <= src2 {
                    old_val
                } else {
                    src2
                }
            },  // AMOMINU.W
            0x1C => {
                if old_val >= src2 {
                    old_val
                } else {
                    src2
                }
            },  // AMOMAXU.W
            _ => { return Err(CpuError::IllegalInstruction { pc: self.pc, raw: inst.raw }) },
        };
        if funct5 != 0x02 {
            mem.write_u32(addr, new_val);
        }
        self.write_reg(inst.rd, rd_val);
        Ok(())
    }

    /// `self` after the host, if there is one, was asked `req`: only the
    /// record of requests grows.
    pub open spec fn asked(&self, old: &Cpu, req: HostRequest) -> bool {
        &&& self@ == old@
        &&& self.same_attachments(old)
        &&& self.fpu_requests@ == old.fpu_requests@
        &&& self.host_requests@ == (if old.host is Some {
            old.host_requests@.push(req)
        } else {
            old.host_requests@
        })
    }

    /// The host's answer to a system call; 0 (not handled) without a host.
    pub(crate) fn host_custom_syscall(&mut self, a0: i32, a1: i32, a2: i32, a3: i32, a7: i32) -> (r: i32)
        ensures
            old(self).host is None ==> r == 0,
            final(self).asked(old(self), HostRequest::CustomSyscall(a0, a1, a2, a3, a7)),
    {
        let r = match &self.host {
            Some(h) => h.custom_syscall(a0, a1, a2, a3, a7),
            None => 0,
        };
        self.host_requests = Ghost(
            if self.host is Some {
                self.host_requests@.push(HostRequest::CustomSyscall(a0, a1, a2, a3, a7))
            } else {
                self.host_requests@
            },
        );
        r
    }

    /// Standard input from the host; nothing without a host.
    pub(crate) fn host_read_stdin(&mut self, count: u32) -> (r: Vec<u8>)
        ensures
            old(self).host is None ==> r@.len() == 0,
            final(self).asked(old(self), HostRequest::ReadStdin(count)),
    {
        let r = match &self.host {
            Some(h) => h.read_stdin(count),
            None => Vec::new(),
        };
        self.host_requests = Ghost(
            if self.host is Some {
                self.host_requests@.push(HostRequest::ReadStdin(count))
            } else {
                self.host_requests@
            },
        );
        r
    }

    /// Guest output to the host's standard output.
    pub(crate) fn host_write_stdout(&mut self, bytes: &[u8])
        ensures
            final(self).asked(old(self), HostRequest::WriteStdout(bytes@)),
    {
        match &self.host {
            Some(h) => h.write_stdout(bytes),
            None => {},
        }
        self.host_requests = Ghost(
            if self.host is Some {
                self.host_requests@.push(HostRequest::WriteStdout(bytes@))
            } else {
                self.host_requests@
            },
        );
    }

    /// Guest output to the host's standard error.
    pub(crate) fn host_write_stderr(&mut self, bytes: &[u8])
        ensures
            final(self).asked(old(self), HostRequest::WriteStderr(bytes@)),
    {
        match &self.host {
            Some(h) => h.write_stderr(bytes),
            None => {},
        }
        self.host_requests = Ghost(
            if self.host is Some {
                self.host_requests@.push(HostRequest::WriteStderr(bytes@))
            } else {
                self.host_requests@
            },
        );
    }

    pub(crate) fn host_print_err(&self, msg: &str) {
        match &self.host {
            Some(h) => h.print_err(msg),
            None => {},
        }
    }

    pub(crate) fn host_notify_unknown_syscall(&self, sys: &UnknownSyscall) {
        match &self.host {
            Some(h) => h.notify_unknown_syscall(sys.sys_num, sys.a0, sys.a1, sys.a2, sys.a3),
            None => {},
        }
    }

    /// How many instructions run between interrupt polls, as the host asks (0 without a host).
    /// The poll is added to the record of interrupt polls, at the current
    /// step count, with the interval that the answer gives.
    pub(crate) fn host_interrupt_delay(&mut self) -> (r: i32)
        ensures
            old(self).host is None ==> r == 0,
            final(self)@ == old(self)@,
            final(self).host == old(self).host,
            final(self).fpu == old(self).fpu,
            final(self).same_requests(old(self)),
            final(self).interrupt_polls@ == old(self).interrupt_polls@.push(
                (old(self).step_counter, poll_interval(r)),
            ),
    {
        let r = match &self.host {
            Some(h) => h.interrupt_delay(),
            None => 0,
        };
        self.interrupt_polls = Ghost(self.interrupt_polls@.push((self.step_counter, poll_interval(r))));
        r
    }

    pub(crate) fn host_interrupt_line_enabled(&self) -> (r: i32)
        ensures
            self.host is None ==> r == 0,
    {
        match &self.host {
            Some(h) => h.interrupt_line_enabled(),
            None => 0,
        }
    }

    pub(crate) fn host_external_interrupt(&self) -> (r: i32)
        ensures
            self.host is None ==> r == 0,
    {
        match &self.host {
            Some(h) => h.external_interrupt(),
            None => 0,
        }
    }

    pub(crate) fn csr_value(&self, k: u16) -> (r: u32)
        ensures
            r == self@.csr(k),
    {
        match self.csrs.get(&k) {
            Some(v) => *v,
            None => 0,
        }
    }

    pub(crate) fn set_csr(&mut self, k: u16, v: u32)
        ensures
            final(self).same_requests(old(self)),
            final(self)@ == old(self)@.with_csr(k, v),
            final(self).same_attachments(old(self)),
    {
        self.csrs.insert(k, v);
    }
}

} // verus!
