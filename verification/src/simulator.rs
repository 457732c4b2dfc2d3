//! The simulator as a debugger sees it: a processor, its memory and the
//! program's symbols, with breakpoints, stepping and inspection.
use crate::cli::{args_view, default_config, parse_from, SimConfig};
use crate::cpu::{fresh_cpu, Cpu, CpuView, StepResult, MCAUSE, MEPC, MSTATUS, MTVEC};
use crate::disasm::{disassembled, symbols_view, DisassembledInst, Disassembler};
use crate::host::{FloatUnit, Host};
use crate::inst::{DecodedInst32, OP_JAL, OP_JALR};
use crate::loader::{
    add_linked, add_object, copy_sections, copy_segments, elf_contents, entry_point, find_entry,
    layout_sections, loaded_memory, loaded_symbols, parse_elf, symbol_names, ElfImage,
};
use crate::memory::{
    addr_add, in_ram, ram_store_bytes, ram_u32, Memory, MemoryOps, MmioDevice, DEFAULT_BRK, MMIO_BASE,
};
use crate::run::{executes, fails, start_of, step_effect, trap_state, Machine};
use crate::utils::ShiftThenMask;
use std::collections::HashMap;
use vstd::prelude::*;

verus! {

broadcast use vstd::std_specs::hash::group_hash_axioms;

/// The machine state the debugger UI reads.
pub struct DebuggerSnapshot {
    pub pc: u32,
    /// The 32 integer registers.
    pub gpr: Vec<u32>,
    /// The 32 floating-point registers, as IEEE-754 bit patterns.
    pub fpr: Vec<u64>,
    /// `mstatus`, `mcause`, `mepc`, `mtvec` and `fcsr`.
    pub csrs: Vec<u32>,
    pub step_count: u64,
    pub is_halted: bool,
    pub is_breakpoint: bool,
    pub hit_address: u32,
    pub exit_code: i32,
    pub trapped: bool,
}

/// `s` shows processor `c`, with the breakpoint flag and address given.
pub open spec fn shows(s: DebuggerSnapshot, c: CpuView, is_breakpoint: bool, hit_address: u32) -> bool {
    &&& s.pc == c.pc
    &&& s.gpr@ == c.regs
    &&& s.fpr@ == c.fregs
    &&& s.csrs@ == seq![c.csr(MSTATUS), c.csr(MCAUSE), c.csr(MEPC), c.csr(MTVEC), c.fcsr]
    &&& s.step_count == c.step_counter
    &&& s.is_halted == c.is_halted
    &&& s.is_breakpoint == is_breakpoint
    &&& s.hit_address == hit_address
    &&& s.exit_code == c.exit_code
    &&& s.trapped == c.trapped
}

impl Cpu {
    /// The machine state the debugger UI reads.
    pub fn snapshot(&self, is_breakpoint: bool, hit_address: u32) -> (s: DebuggerSnapshot)
        ensures
            shows(s, self@, is_breakpoint, hit_address),
    {
        let mut gpr: Vec<u32> = Vec::new();
        let mut fpr: Vec<u64> = Vec::new();
        let mut i: usize = 0;
        while i < 32
            invariant
                i <= 32,
                gpr@ == self@.regs.subrange(0, i as int),
                fpr@ == self@.fregs.subrange(0, i as int),
            decreases 32 - i,
        {
            gpr.push(self.regs[i]);
            fpr.push(self.fregs[i]);
            i = i + 1;
            assert(gpr@ =~= self@.regs.subrange(0, i as int));
            assert(fpr@ =~= self@.fregs.subrange(0, i as int));
        }
        assert(gpr@ =~= self@.regs);
        assert(fpr@ =~= self@.fregs);
        let csrs = vec![
            self.csr_value(MSTATUS),
            self.csr_value(MCAUSE),
            self.csr_value(MEPC),
            self.csr_value(MTVEC),
            self.fcsr,
        ];
        let s = DebuggerSnapshot {
            pc: self.pc,
            gpr,
            fpr,
            csrs,
            step_count: self.step_counter,
            is_halted: self.is_halted,
            is_breakpoint,
            hit_address,
            exit_code: self.exit_code,
            trapped: self.trapped,
        };
        assert(s.csrs@ =~= seq![self@.csr(MSTATUS), self@.csr(MCAUSE), self@.csr(MEPC), self@.csr(MTVEC), self@.fcsr]);
        s
    }
}

/// Whether `inst` (at its low halfword, when compressed) is a call: `c.jal`,
/// `c.jalr`, or a `jal`/`jalr` that links through `ra` or `t0`.
pub open spec fn is_call(inst: u32) -> bool {
    if inst & 3 != 3 {
        let quadrant = inst & 3;
        let funct3 = (inst >> 13) & 7;
        ||| quadrant == 1 && funct3 == 1
        ||| quadrant == 2 && funct3 == 4 && (inst >> 12) & 1 == 1
    } else {
        let d = DecodedInst32::spec_decode(inst);
        (d.opcode == OP_JAL || d.opcode == OP_JALR) && (d.rd == 1 || d.rd == 5)
    }
}

/// Whether `inst` is a call, so that stepping over it runs the callee.
pub fn is_call_instruction(inst: u32) -> (r: bool)
    ensures
        r == is_call(inst),
{
    if (inst & 0x3) != 0x3 {
        let op2 = inst & 0x3;
        let funct3 = inst.shift_then_mask(13, 0x7);
        if op2 == 0x1 && funct3 == 0x1 {
            return true;  // c.jal
        }
        if op2 == 0x2 && funct3 == 0x4 && (inst.shift_then_mask(12, 1) == 1) {
            return true;  // c.jalr
        }
        return false;
    }
    let decoded = DecodedInst32::decode(inst);
    if decoded.opcode == OP_JAL || decoded.opcode == OP_JALR {
        return decoded.rd == 1 || decoded.rd == 5;
    }
    false
}


/// Whether stepping stops at machine `m` for a breakpoint.
pub open spec fn at_breakpoint(m: Machine) -> bool {
    m.cpu.debug_enabled && m.cpu.breakpoints.contains(m.cpu.pc)
}

/// What a debugger step reports for a step result: whether it hit a
/// breakpoint, and where.
pub open spec fn step_report(r: StepResult) -> (bool, u32) {
    match r {
        StepResult::BreakpointHit(a) => (true, a),
        _ => (false, 0),
    }
}

/// The step from `trace[i]` to `trace[i + 1]` is one instruction.
pub open spec fn single_step(trace: Seq<Machine>, has_host: bool, has_fpu: bool, i: int) -> bool {
    executes(trace[i], has_host, has_fpu, trace[i + 1])
}

/// Stepping from `trace[i]` on did not stop at a breakpoint: none is there,
/// or it is the one `before` had already reported, where stepping began.
pub open spec fn passed(trace: Seq<Machine>, before: Machine, i: int) -> bool {
    !(at_breakpoint(trace[i]) && (i > 0 || before.cpu.resume_past_breakpoint != Some(
        trace[i].cpu.pc,
    )))
}

/// Single-stepping from machine `before` ran the instructions of `trace`
/// and stopped in `end`: at a breakpoint (reported as hit at `hit`), or,
/// reported as no breakpoint, because the program halted, an instruction
/// trapped, or the step counter ran out.
pub open spec fn stepped_to_stop(
    before: Machine,
    has_host: bool,
    has_fpu: bool,
    trace: Seq<Machine>,
    end: Machine,
    is_breakpoint: bool,
    hit: u32,
) -> bool {
    let last = trace.last();
    let c = last.cpu;
    &&& trace.len() >= 1
    &&& trace[0] == start_of(before)
    &&& forall|i: int| 0 <= i < trace.len() - 1 ==> #[trigger] single_step(trace, has_host, has_fpu, i)
    &&& forall|i: int| 0 <= i < trace.len() - 1 ==> #[trigger] passed(trace, before, i)
    &&& if is_breakpoint {
        &&& hit == c.pc
        &&& !passed(trace, before, trace.len() - 1)
        &&& end == Machine { cpu: CpuView { resume_past_breakpoint: Some(c.pc), ..c }, ..last }
    } else {
        &&& hit == 0
        &&& {
            ||| c.is_halted && end == last
            ||| passed(trace, before, trace.len() - 1) && !c.is_halted && c.step_counter < u64::MAX
                && fails(last, has_host, has_fpu) && end
                == Machine {
                cpu: trap_state(CpuView { step_counter: (c.step_counter + 1) as u64, ..c }),
                ..last
            }
            ||| c.step_counter == u64::MAX && end == Machine {
                cpu: CpuView {
                    resume_past_breakpoint: end.cpu.resume_past_breakpoint,
                    ..c
                },
                ..last
            }
        }
    }
}


/// A stepping trace extended by one more instruction, which did not start
/// at an unreported breakpoint, is a stepping trace.
proof fn lemma_step_push(trace: Seq<Machine>, before: Machine, next: Machine, has_host: bool, has_fpu: bool)
    requires
        trace.len() >= 1,
        forall|i: int| 0 <= i < trace.len() - 1 ==> #[trigger] single_step(trace, has_host, has_fpu, i),
        forall|i: int| 0 <= i < trace.len() - 1 ==> #[trigger] passed(trace, before, i),
        executes(trace.last(), has_host, has_fpu, next),
        passed(trace, before, trace.len() - 1),
    ensures
        forall|i: int|
            0 <= i < trace.push(next).len() - 1 ==> #[trigger] single_step(
                trace.push(next),
                has_host,
                has_fpu,
                i,
            ),
        forall|i: int| 0 <= i < trace.push(next).len() - 1 ==> #[trigger] passed(trace.push(next), before, i),
        trace.push(next)[0] == trace[0],
        trace.push(next).last() == next,
        trace.push(next).len() == trace.len() + 1,
{
    let t = trace.push(next);
    assert forall|i: int| 0 <= i < t.len() - 1 implies #[trigger] single_step(t, has_host, has_fpu, i) by {
        assert(t[i] == trace[i]);
        if i < trace.len() - 1 {
            assert(t[i + 1] == trace[i + 1]);
            assert(single_step(trace, has_host, has_fpu, i));
        }
    }
    assert forall|i: int| 0 <= i < t.len() - 1 implies #[trigger] passed(t, before, i) by {
        assert(t[i] == trace[i]);
        assert(passed(trace, before, i));
    }
}


/// A step that hit a breakpoint ends a stepping session there.
proof fn lemma_stop_at_breakpoint(
    before: Machine,
    has_host: bool,
    has_fpu: bool,
    trace: Seq<Machine>,
    m: Machine,
    next: Machine,
    addr: u32,
)
    requires
        trace.len() >= 1,
        trace[0] == start_of(before),
        trace.last() == start_of(m),
        trace.len() == 1 ==> m == before,
        trace.len() > 1 ==> m == trace.last(),
        forall|i: int| 0 <= i < trace.len() - 1 ==> #[trigger] single_step(trace, has_host, has_fpu, i),
        forall|i: int| 0 <= i < trace.len() - 1 ==> #[trigger] passed(trace, before, i),
        step_effect(m, has_host, has_fpu, next, StepResult::BreakpointHit(addr)),
    ensures
        stepped_to_stop(before, has_host, has_fpu, trace, next, true, addr),
{
    reveal(step_effect);
}

/// A step that trapped ends a stepping session there.
proof fn lemma_stop_at_trap(
    before: Machine,
    has_host: bool,
    has_fpu: bool,
    trace: Seq<Machine>,
    m: Machine,
    next: Machine,
    pc: u32,
)
    requires
        trace.len() >= 1,
        trace[0] == start_of(before),
        trace.last() == start_of(m),
        trace.len() == 1 ==> m == before,
        trace.len() > 1 ==> m == trace.last(),
        m.cpu.step_counter < u64::MAX,
        forall|i: int| 0 <= i < trace.len() - 1 ==> #[trigger] single_step(trace, has_host, has_fpu, i),
        forall|i: int| 0 <= i < trace.len() - 1 ==> #[trigger] passed(trace, before, i),
        step_effect(m, has_host, has_fpu, next, StepResult::Trap(pc)),
    ensures
        stepped_to_stop(before, has_host, has_fpu, trace, next, false, 0),
{
    reveal(step_effect);
}

/// A step that found or left the machine halted ends a stepping session.
proof fn lemma_stop_at_halt(
    before: Machine,
    has_host: bool,
    has_fpu: bool,
    trace: Seq<Machine>,
    m: Machine,
    next: Machine,
    code: i32,
) -> (t: Seq<Machine>)
    requires
        trace.len() >= 1,
        trace[0] == start_of(before),
        trace.last() == start_of(m),
        trace.len() == 1 ==> m == before,
        trace.len() > 1 ==> m == trace.last(),
        forall|i: int| 0 <= i < trace.len() - 1 ==> #[trigger] single_step(trace, has_host, has_fpu, i),
        forall|i: int| 0 <= i < trace.len() - 1 ==> #[trigger] passed(trace, before, i),
        step_effect(m, has_host, has_fpu, next, StepResult::Halted(code)),
    ensures
        stepped_to_stop(before, has_host, has_fpu, t, next, false, 0),
{
    reveal(step_effect);
    if m.cpu.is_halted {
        trace
    } else {
        lemma_step_push(trace, before, next, has_host, has_fpu);
        trace.push(next)
    }
}

/// A step that executed an instruction and left the machine running goes on
/// a stepping session.
proof fn lemma_step_on(
    before: Machine,
    has_host: bool,
    has_fpu: bool,
    trace: Seq<Machine>,
    m: Machine,
    next: Machine,
) -> (t: Seq<Machine>)
    requires
        trace.len() >= 1,
        trace[0] == start_of(before),
        trace.last() == start_of(m),
        trace.len() == 1 ==> m == before,
        trace.len() > 1 ==> m == trace.last(),
        forall|i: int| 0 <= i < trace.len() - 1 ==> #[trigger] single_step(trace, has_host, has_fpu, i),
        forall|i: int| 0 <= i < trace.len() - 1 ==> #[trigger] passed(trace, before, i),
        step_effect(m, has_host, has_fpu, next, StepResult::Executed),
    ensures
        t.len() == trace.len() + 1,
        t[0] == start_of(before),
        t.last() == next,
        start_of(next) == next,
        next.cpu.step_counter == m.cpu.step_counter + 1,
        forall|i: int| 0 <= i < t.len() - 1 ==> #[trigger] single_step(t, has_host, has_fpu, i),
        forall|i: int| 0 <= i < t.len() - 1 ==> #[trigger] passed(t, before, i),
{
    reveal(step_effect);
    lemma_step_push(trace, before, next, has_host, has_fpu);
    trace.push(next)
}

/// `m` with breakpoints `bps`.
pub open spec fn with_breakpoints(m: Machine, bps: Set<u32>) -> Machine {
    Machine { cpu: CpuView { breakpoints: bps, ..m.cpu }, ..m }
}

/// Running from `before` with a breakpoint added at `stop` until something
/// stops it ended in `end` (with the breakpoints of `before` again) and
/// showed `s`.
pub open spec fn ran_to(
    before: Machine,
    has_host: bool,
    has_fpu: bool,
    stop: u32,
    end: Machine,
    s: DebuggerSnapshot,
) -> bool {
    exists|trace: Seq<Machine>, e: Machine|
        #[trigger] stepped_to_stop(
            with_breakpoints(before, before.cpu.breakpoints.insert(stop)),
            has_host,
            has_fpu,
            trace,
            e,
            s.is_breakpoint,
            s.hit_address,
        ) && end == with_breakpoints(e, before.cpu.breakpoints) && shows(
            s,
            e.cpu,
            s.is_breakpoint,
            s.hit_address,
        )
}


/// The address after `item` in a listing: past its two or four bytes,
/// saturating at the top of the address space.
pub open spec fn listing_next(item: DisassembledInst) -> u32 {
    let step: int = if item.is_compressed { 2 } else { 4 };
    if item.address + step > u32::MAX {
        u32::MAX
    } else {
        (item.address + step) as u32
    }
}

/// `item` disassembles the word memory `ram` holds at its address (where the
/// four bytes there are ordinary memory; a device's answer otherwise).
pub open spec fn lists_memory(ram: Map<u32, u8>, syms: Map<u32, String>, item: DisassembledInst) -> bool {
    exists|w: u32|
        #![trigger disassembled(item.address, w, Some(syms), item)]
        (in_ram(ram, item.address, 4) ==> w == ram_u32(ram, item.address)) && disassembled(
            item.address,
            w,
            Some(syms),
            item,
        )
}

/// `r` lists the instructions from `start` up to (not including) `end`:
/// each one follows the one before, and the last one reaches `end`.
pub open spec fn listing(ram: Map<u32, u8>, syms: Map<u32, String>, start: u32, end: u32, r: Seq<DisassembledInst>) -> bool {
    &&& (r.len() == 0 <==> start >= end)
    &&& r.len() > 0 ==> r[0].address == start && listing_next(r.last()) >= end
    &&& forall|k: int| 0 <= k < r.len() ==> (#[trigger] r[k]).address < end && lists_memory(ram, syms, r[k])
    &&& forall|k: int| 0 <= k < r.len() - 1 ==> #[trigger] r[k + 1].address == listing_next(r[k])
}

/// The debugger's view of a simulated machine.
pub struct Simulator {
    cpu: Cpu,
    mem: Memory,
    symbols: HashMap<u32, String>,
}

impl Default for Simulator {
    fn default() -> (s: Self)
        ensures
            s.machine().cpu == fresh_cpu(),
            s.machine().ram == blank_ram(),
            s.machine().brk == DEFAULT_BRK,
            s.brk_floor() == DEFAULT_BRK,
            s.symbol_table() == Map::<u32, String>::empty(),
            !s.has_host(),
            !s.has_fpu(),
            !s.has_device(),
            s.wf(),
    {
        let s = Simulator::new();
        assert(s.machine().ram =~= blank_ram());
        s
    }
}

impl Simulator {
    /// Well-formedness of the machine's memory.
    pub closed spec fn wf(&self) -> bool {
        self.mem.inv()
    }

    /// The machine: processor, ordinary memory, program break.
    pub closed spec fn machine(&self) -> Machine {
        Machine { cpu: self.cpu@, ram: self.mem.ram(), brk: self.mem.brk() }
    }

    /// The program's symbols, address to name.
    pub closed spec fn symbol_table(&self) -> Map<u32, String> {
        self.symbols@
    }

    /// Whether a host is attached to the processor.
    pub closed spec fn has_host(&self) -> bool {
        self.cpu.host is Some
    }

    /// Whether a floating-point unit is attached to the processor.
    pub closed spec fn has_fpu(&self) -> bool {
        self.cpu.fpu is Some
    }

    /// Whether a device answers the MMIO window.
    pub closed spec fn has_device(&self) -> bool {
        self.mem.has_device()
    }

    /// The lowest program break memory accepts.
    pub closed spec fn brk_floor(&self) -> u32 {
        self.mem.brk_floor()
    }

    /// The writes handed to the MMIO window so far.
    pub closed spec fn mmio_writes(&self) -> Seq<(u32, u32, u32)> {
        self.mem.mmio_writes()
    }

    /// The reads handed to the MMIO window so far.
    pub closed spec fn mmio_reads(&self) -> Seq<(u32, u32)> {
        self.mem.mmio_reads()
    }

    /// Everything but the record of MMIO reads is as it was in `old`.
    pub closed spec fn same_but_reads(&self, old: &Simulator) -> bool {
        &&& self.wf() == old.wf()
        &&& self.machine() == old.machine()
        &&& self.symbol_table() == old.symbol_table()
        &&& self.has_host() == old.has_host()
        &&& self.has_fpu() == old.has_fpu()
        &&& self.has_device() == old.has_device()
        &&& self.brk_floor() == old.brk_floor()
        &&& self.mmio_writes() == old.mmio_writes()
    }

    /// A fresh machine: a new processor, empty memory, no symbols.
    pub fn new() -> (s: Self)
        ensures
            s.machine().cpu == fresh_cpu(),
            forall|a: u32| #[trigger] s.machine().ram.contains_key(a) <==> a < MMIO_BASE,
            forall|a: u32| a < MMIO_BASE ==> #[trigger] s.machine().ram[a] == 0,
            s.machine().brk == DEFAULT_BRK,
            s.brk_floor() == DEFAULT_BRK,
            s.symbol_table() == Map::<u32, String>::empty(),
            !s.has_host(),
            !s.has_fpu(),
            !s.has_device(),
            s.wf(),
    {
        let s = Simulator { cpu: Cpu::new(), mem: Memory::new(), symbols: HashMap::new() };
        s
    }

    /// Attach the host environment: system calls, interrupts, console.
    pub fn attach_host(&mut self, host: Box<dyn Host>)
        ensures
            final(self).wf() == old(self).wf(),
            final(self).machine() == old(self).machine(),
            final(self).symbol_table() == old(self).symbol_table(),
            final(self).has_host(),
            final(self).has_fpu() == old(self).has_fpu(),
            final(self).has_device() == old(self).has_device(),
            final(self).brk_floor() == old(self).brk_floor(),
    {
        self.cpu.host = Some(host);
    }

    /// Attach the floating-point unit.
    pub fn attach_fpu(&mut self, fpu: Box<dyn FloatUnit>)
        ensures
            final(self).wf() == old(self).wf(),
            final(self).machine() == old(self).machine(),
            final(self).symbol_table() == old(self).symbol_table(),
            final(self).has_host() == old(self).has_host(),
            final(self).has_fpu(),
            final(self).has_device() == old(self).has_device(),
            final(self).brk_floor() == old(self).brk_floor(),
    {
        self.cpu.fpu = Some(fpu);
    }

    /// Attach the device that answers the MMIO window.
    pub fn attach_device(&mut self, device: Box<dyn MmioDevice>)
        ensures
            final(self).wf() == old(self).wf(),
            final(self).machine() == old(self).machine(),
            final(self).symbol_table() == old(self).symbol_table(),
            final(self).has_host() == old(self).has_host(),
            final(self).has_fpu() == old(self).has_fpu(),
            final(self).has_device(),
            final(self).brk_floor() == old(self).brk_floor(),
    {
        self.mem.attach_device(device);
    }

    pub fn set_debug_mode(&mut self, enabled: bool)
        ensures
            final(self).wf() == old(self).wf(),
            final(self).machine() == (Machine {
                cpu: CpuView { debug_enabled: enabled, ..old(self).machine().cpu },
                ..old(self).machine()
            }),
            final(self).symbol_table() == old(self).symbol_table(),
    {
        self.cpu.debug_enabled = enabled;
    }

    pub fn add_breakpoint(&mut self, addr: u32)
        ensures
            final(self).wf() == old(self).wf(),
            final(self).machine() == (Machine {
                cpu: CpuView {
                    breakpoints: old(self).machine().cpu.breakpoints.insert(addr),
                    ..old(self).machine().cpu
                },
                ..old(self).machine()
            }),
            final(self).symbol_table() == old(self).symbol_table(),
    {
        self.cpu.breakpoints.insert(addr);
    }

    pub fn remove_breakpoint(&mut self, addr: u32)
        ensures
            final(self).wf() == old(self).wf(),
            final(self).machine() == (Machine {
                cpu: CpuView {
                    breakpoints: old(self).machine().cpu.breakpoints.remove(addr),
                    ..old(self).machine().cpu
                },
                ..old(self).machine()
            }),
            final(self).symbol_table() == old(self).symbol_table(),
    {
        self.cpu.breakpoints.remove(&addr);
    }

    pub fn clear_breakpoints(&mut self)
        ensures
            final(self).wf() == old(self).wf(),
            final(self).machine() == (Machine {
                cpu: CpuView { breakpoints: Set::empty(), ..old(self).machine().cpu },
                ..old(self).machine()
            }),
            final(self).symbol_table() == old(self).symbol_table(),
    {
        self.cpu.breakpoints.clear();
    }

    /// Mark the guest as using system calls that the host registered.
    pub fn set_has_custom_syscalls(&mut self, enabled: bool)
        ensures
            final(self).wf() == old(self).wf(),
            final(self).machine() == (Machine {
                cpu: CpuView { has_custom_syscalls: enabled, ..old(self).machine().cpu },
                ..old(self).machine()
            }),
            final(self).symbol_table() == old(self).symbol_table(),
    {
        self.cpu.has_custom_syscalls = enabled;
    }

    pub fn has_custom_syscalls(&self) -> (r: bool)
        ensures
            r == self.machine().cpu.has_custom_syscalls,
    {
        self.cpu.has_custom_syscalls
    }

    /// The machine state the debugger UI reads.
    pub fn get_snapshot(&self, is_breakpoint: bool, hit_address: u32) -> (s: DebuggerSnapshot)
        ensures
            shows(s, self.machine().cpu, is_breakpoint, hit_address),
    {
        self.cpu.snapshot(is_breakpoint, hit_address)
    }

    /// `len` bytes of memory from `addr` on (wrapping); a byte of a device
    /// register is whatever the device answers.
    pub fn read_memory_range(&mut self, addr: u32, len: u32) -> (r: Vec<u8>)
        requires
            old(self).wf(),
        ensures
            final(self).same_but_reads(old(self)),
            in_ram(old(self).machine().ram, addr, len as int) ==> final(self).mmio_reads() == old(
                self,
            ).mmio_reads(),
            r@.len() == len,
            forall|i: int|
                0 <= i < len && old(self).machine().ram.contains_key(#[trigger] addr_add(addr, i))
                    ==> r@[i] == old(self).machine().ram[addr_add(addr, i)],
    {
        let mut buf: Vec<u8> = Vec::new();
        let mut i: u32 = 0;
        while i < len
            invariant
                self.mem.inv(),
                self.same_but_reads(old(self)),
                in_ram(old(self).machine().ram, addr, len as int) ==> self.mmio_reads() == old(
                    self,
                ).mmio_reads(),
                i <= len,
                buf@.len() == i,
                forall|j: int|
                    0 <= j < i && self.mem.ram().contains_key(#[trigger] addr_add(addr, j))
                        ==> buf@[j] == self.mem.ram()[addr_add(addr, j)],
            decreases len - i,
        {
            proof {
                if in_ram(old(self).machine().ram, addr, len as int) {
                    assert(self.mem.ram().contains_key(addr_add(addr, i as int)));
                }
            }
            proof {
                crate::cpu::lemma_wrapping_add_word(addr, i as int);
                vstd::arithmetic::div_mod::lemma_small_mod(i as nat, 0x1_0000_0000);
            }
            let b = self.mem.read_u8(addr.wrapping_add(i));
            buf.push(b);
            i = i + 1;
        }
        buf
    }

    /// Store one byte, as the guest would.
    pub fn write_memory_byte(&mut self, addr: u32, val: u8)
        requires
            old(self).wf(),
        ensures
            final(self).wf() == old(self).wf(),
            final(self).machine().cpu == old(self).machine().cpu,
            final(self).machine().ram == crate::memory::ram_store(old(self).machine().ram, addr, val),
            final(self).machine().brk == old(self).machine().brk,
            final(self).symbol_table() == old(self).symbol_table(),
            final(self).mmio_writes() == (if old(self).machine().ram.contains_key(addr) {
                old(self).mmio_writes()
            } else {
                old(self).mmio_writes().push((addr, 1u32, val as u32))
            }),
            final(self).mmio_reads() == old(self).mmio_reads(),
    {
        self.mem.write_u8(addr, val);
    }

    /// Set integer register `reg_idx`; an index past the last register is ignored.
    pub fn write_register(&mut self, reg_idx: usize, val: u32)
        ensures
            final(self).wf() == old(self).wf(),
            final(self).machine() == (if reg_idx < 32 {
                Machine { cpu: old(self).machine().cpu.with_reg(reg_idx as int, val), ..old(self).machine() }
            } else {
                old(self).machine()
            }),
            final(self).symbol_table() == old(self).symbol_table(),
    {
        if reg_idx < 32 {
            self.cpu.write_reg(reg_idx, val);
        }
    }

    /// The name of the symbol at `addr`, if there is one.
    pub fn get_symbol_at(&self, addr: u32) -> (r: Option<String>)
        ensures
            r == (if self.symbol_table().contains_key(addr) {
                Some(self.symbol_table()[addr])
            } else {
                None
            }),
    {
        match self.symbols.get(&addr) {
            Some(name) => Some(name.clone()),
            None => None,
        }
    }

    /// Run the program to its end; the exit code.
    pub fn run_full(&mut self) -> (code: i32)
        requires
            old(self).wf(),
        ensures
            final(self).wf(),
            final(self).symbol_table() == old(self).symbol_table(),
            final(self).has_host() == old(self).has_host(),
            final(self).has_fpu() == old(self).has_fpu(),
            code == final(self).machine().cpu.exit_code,
            exists|trace: Seq<Machine>|
                #[trigger] crate::run::run_result(
                    old(self).machine(),
                    old(self).has_host(),
                    old(self).has_fpu(),
                    trace,
                    final(self).machine(),
                ),
    {
        let ghost before = self.machine();
        let code = self.cpu.run(&mut self.mem);
        proof {
            let t = choose|t: Seq<Machine>|
                #[trigger] crate::run::run_result(
                    before,
                    self.cpu.host is Some,
                    self.cpu.fpu is Some,
                    t,
                    self.machine(),
                );
            assert(crate::run::run_result(before, old(self).has_host(), old(self).has_fpu(), t, self.machine()));
        }
        code
    }

    /// Execute one instruction (unless a breakpoint stops it) and show the result.
    pub fn debug_step(&mut self) -> (s: DebuggerSnapshot)
        requires
            old(self).wf(),
            old(self).machine().cpu.step_counter < u64::MAX,
        ensures
            final(self).wf(),
            final(self).symbol_table() == old(self).symbol_table(),
            final(self).has_host() == old(self).has_host(),
            final(self).has_fpu() == old(self).has_fpu(),
            exists|r: StepResult|
                #[trigger] step_effect(
                    old(self).machine(),
                    old(self).has_host(),
                    old(self).has_fpu(),
                    final(self).machine(),
                    r,
                ) && shows(s, final(self).machine().cpu, step_report(r).0, step_report(r).1),
    {
        let ghost before = self.machine();
        let res = self.cpu.step_instruction(&mut self.mem);
        let (is_bp, hit_addr) = match res {
            StepResult::BreakpointHit(addr) => (true, addr),
            _ => (false, 0),
        };
        let s = self.get_snapshot(is_bp, hit_addr);
        proof {
            assert(step_effect(before, self.has_host(), self.has_fpu(), self.machine(), res));
        }
        s
    }

    /// Step until a breakpoint, a halt or a trap, and show where it stopped.
    ///
    /// Stepping also stops when the step counter can count no further.
    #[verifier::spinoff_prover]
    #[verifier::rlimit(60)]
    pub fn run_until_breakpoint(&mut self) -> (s: DebuggerSnapshot)
        requires
            old(self).wf(),
        ensures
            final(self).wf(),
            final(self).symbol_table() == old(self).symbol_table(),
            final(self).has_host() == old(self).has_host(),
            final(self).has_fpu() == old(self).has_fpu(),
            final(self).machine().cpu.breakpoints == old(self).machine().cpu.breakpoints,
            shows(s, final(self).machine().cpu, s.is_breakpoint, s.hit_address),
            exists|trace: Seq<Machine>|
                #[trigger] stepped_to_stop(
                    old(self).machine(),
                    old(self).has_host(),
                    old(self).has_fpu(),
                    trace,
                    final(self).machine(),
                    s.is_breakpoint,
                    s.hit_address,
                ),
    {
        let ghost hh = self.cpu.host is Some;
        let ghost hf = self.cpu.fpu is Some;
        let ghost before = self.machine();
        let ghost mut trace: Seq<Machine> = seq![start_of(before)];
        loop
            invariant
                self.wf(),
                self.symbols@ == old(self).symbols@,
                hh == (self.cpu.host is Some),
                hf == (self.cpu.fpu is Some),
                hh == (old(self).cpu.host is Some),
                hf == (old(self).cpu.fpu is Some),
                before == old(self).machine(),
                self.cpu@.breakpoints == before.cpu.breakpoints,
                trace.len() >= 1,
                trace[0] == start_of(before),
                trace.last() == start_of(self.machine()),
                trace.len() == 1 ==> self.machine() == before,
                trace.len() > 1 ==> self.machine() == trace.last(),
                forall|i: int| 0 <= i < trace.len() - 1 ==> #[trigger] single_step(trace, hh, hf, i),
                forall|i: int| 0 <= i < trace.len() - 1 ==> #[trigger] passed(trace, before, i),
            decreases u64::MAX - self.cpu.step_counter,
        {
            if self.cpu.step_counter == u64::MAX {
                let s = self.get_snapshot(false, 0);
                proof {
                    assert(stepped_to_stop(old(self).machine(), old(self).has_host(), old(self).has_fpu(), trace, self.machine(), false, 0));
                }
                return s;
            }
            let ghost m = self.machine();
            let res = self.cpu.step_instruction(&mut self.mem);
            let ghost next = self.machine();
            match res {
                StepResult::BreakpointHit(addr) => {
                    let s = self.get_snapshot(true, addr);
                    proof {
                        lemma_stop_at_breakpoint(before, hh, hf, trace, m, next, addr);
                        assert(stepped_to_stop(old(self).machine(), old(self).has_host(), old(self).has_fpu(), trace, next, true, addr));
                    }
                    return s;
                },
                StepResult::Trap(pc) => {
                    let s = self.get_snapshot(false, 0);
                    proof {
                        lemma_stop_at_trap(before, hh, hf, trace, m, next, pc);
                        assert(stepped_to_stop(old(self).machine(), old(self).has_host(), old(self).has_fpu(), trace, next, false, 0));
                    }
                    return s;
                },
                StepResult::Halted(code) => {
                    let s = self.get_snapshot(false, 0);
                    proof {
                        let t = lemma_stop_at_halt(before, hh, hf, trace, m, next, code);
                        assert(stepped_to_stop(old(self).machine(), old(self).has_host(), old(self).has_fpu(), t, next, false, 0));
                    }
                    return s;
                },
                StepResult::Executed => {
                    proof {
                        trace = lemma_step_on(before, hh, hf, trace, m, next);
                    }
                },
            }
        }
    }

    /// Run with a breakpoint added at `stop` until something stops the run,
    /// then take that breakpoint away again unless it was set before.
    fn run_to(&mut self, stop: u32) -> (s: DebuggerSnapshot)
        requires
            old(self).wf(),
        ensures
            final(self).wf(),
            final(self).symbol_table() == old(self).symbol_table(),
            final(self).has_host() == old(self).has_host(),
            final(self).has_fpu() == old(self).has_fpu(),
            ran_to(old(self).machine(), old(self).has_host(), old(self).has_fpu(), stop, final(self).machine(), s),
    {
        let ghost before = self.machine();
        let had_bp = self.cpu.breakpoints.contains(&stop);
        self.cpu.breakpoints.insert(stop);
        let ghost mid = self.machine();
        let snap = self.run_until_breakpoint();
        let ghost e = self.machine();
        if !had_bp {
            self.cpu.breakpoints.remove(&stop);
        }
        proof {
            assert(mid == with_breakpoints(before, before.cpu.breakpoints.insert(stop)));
            if had_bp {
                assert(before.cpu.breakpoints.insert(stop) =~= before.cpu.breakpoints);
            } else {
                assert(before.cpu.breakpoints.insert(stop).remove(stop) =~= before.cpu.breakpoints);
            }
            assert(self.machine() == with_breakpoints(e, before.cpu.breakpoints));
            let trace = choose|trace: Seq<Machine>|
                #[trigger] stepped_to_stop(
                    mid,
                    self.cpu.host is Some,
                    self.cpu.fpu is Some,
                    trace,
                    e,
                    snap.is_breakpoint,
                    snap.hit_address,
                );
            assert(stepped_to_stop(
                with_breakpoints(before, before.cpu.breakpoints.insert(stop)),
                self.cpu.host is Some,
                self.cpu.fpu is Some,
                trace,
                e,
                snap.is_breakpoint,
                snap.hit_address,
            ));
        }
        snap
    }

    /// Step over a call: run until the instruction after it. Anything else
    /// is a single step.
    pub fn debug_step_over(&mut self) -> (s: DebuggerSnapshot)
        requires
            old(self).wf(),
            old(self).machine().cpu.step_counter < u64::MAX,
        ensures
            final(self).wf(),
            final(self).symbol_table() == old(self).symbol_table(),
            final(self).has_host() == old(self).has_host(),
            final(self).has_fpu() == old(self).has_fpu(),
            ({
                let m = old(self).machine();
                let pc = m.cpu.pc;
                exists|inst: u32|
                    #![trigger is_call(inst)]
                    {
                        &&& in_ram(m.ram, pc, 4) ==> inst == ram_u32(m.ram, pc)
                        &&& if is_call(inst) {
                            ran_to(
                                m,
                                old(self).has_host(),
                                old(self).has_fpu(),
                                crate::isa::word(pc + if inst & 3 == 3 { 4int } else { 2int }),
                                final(self).machine(),
                                s,
                            )
                        } else {
                            exists|r: StepResult|
                                #[trigger] step_effect(
                                    m,
                                    old(self).has_host(),
                                    old(self).has_fpu(),
                                    final(self).machine(),
                                    r,
                                ) && shows(
                                    s,
                                    final(self).machine().cpu,
                                    step_report(r).0,
                                    step_report(r).1,
                                )
                        }
                    }
            }),
    {
        let current_pc = self.cpu.pc;
        let inst = self.mem.read_u32(current_pc);
        proof {
            assert(self.machine() == old(self).machine());
        }
        let calls = is_call_instruction(inst);
        if calls {
            let len: u32 = if (inst & 0x3) == 0x3 {
                4
            } else {
                2
            };
            proof {
                crate::compressed::lemma_add_u32(current_pc, len);
            }
            let next_pc = current_pc.wrapping_add(len);
            let ghost mid = *self;
            let s = self.run_to(next_pc);
            proof {
                assert(mid.machine() == old(self).machine());
                assert(mid.has_host() == old(self).has_host());
                assert(ran_to(
                    old(self).machine(),
                    old(self).has_host(),
                    old(self).has_fpu(),
                    next_pc,
                    self.machine(),
                    s,
                ));
                assert(is_call(inst));
            }
            s
        } else {
            let s = self.debug_step();
            proof {
                assert(!is_call(inst));
            }
            s
        }
    }

    /// Step out of the current function: run until the return address in `ra`.
    pub fn debug_step_out(&mut self) -> (s: DebuggerSnapshot)
        requires
            old(self).wf(),
        ensures
            final(self).wf(),
            final(self).symbol_table() == old(self).symbol_table(),
            final(self).has_host() == old(self).has_host(),
            final(self).has_fpu() == old(self).has_fpu(),
            ran_to(
                old(self).machine(),
                old(self).has_host(),
                old(self).has_fpu(),
                old(self).machine().cpu.regs[1],
                final(self).machine(),
                s,
            ),
    {
        let ra = self.cpu.regs[1];  // x1 / ra
        self.run_to(ra)
    }

    /// Disassemble the instructions from `start_addr` over `len` bytes.
    pub fn disassemble_range(&mut self, start_addr: u32, len: u32) -> (r: Vec<DisassembledInst>)
        requires
            old(self).wf(),
        ensures
            final(self).same_but_reads(old(self)),
            listing(
                old(self).machine().ram,
                old(self).symbol_table(),
                start_addr,
                (if start_addr + len > u32::MAX {
                    u32::MAX
                } else {
                    (start_addr + len) as u32
                }),
                r@,
            ),
    {
        let end = start_addr.saturating_add(len);
        let mut list: Vec<DisassembledInst> = Vec::new();
        let mut curr = start_addr;
        while curr < end
            invariant
                self.wf(),
                self.same_but_reads(old(self)),
                list@.len() == 0 ==> curr == start_addr,
                list@.len() > 0 ==> list@[0].address == start_addr && curr == listing_next(list@.last()),
                forall|k: int|
                    0 <= k < list@.len() ==> (#[trigger] list@[k]).address < end && lists_memory(
                        self.mem.ram(),
                        self.symbols@,
                        list@[k],
                    ),
                forall|k: int| 0 <= k < list@.len() - 1 ==> #[trigger] list@[k + 1].address == listing_next(list@[k]),
            decreases u32::MAX - curr,
        {
            proof {
                assert(addr_add(curr, 0) == curr);
            }
            let inst = self.mem.read_u32(curr);
            let item = Disassembler::decode_instruction_with_symbols(curr, inst, Some(&self.symbols));
            proof {
                assert(lists_memory(self.mem.ram(), self.symbols@, item));
            }
            let step: u32 = if item.is_compressed {
                2
            } else {
                4
            };
            let ghost before = list@;
            list.push(item);
            proof {
                assert forall|k: int| 0 <= k < list@.len() - 1 implies #[trigger] list@[k + 1].address
                    == listing_next(list@[k]) by {
                    if k < before.len() - 1 {
                        assert(list@[k] == before[k] && list@[k + 1] == before[k + 1]);
                    } else {
                        assert(list@[k] == before.last());
                    }
                }
                assert forall|k: int| 0 <= k < list@.len() implies (#[trigger] list@[k]).address < end
                    && lists_memory(self.mem.ram(), self.symbols@, list@[k]) by {
                    if k < before.len() {
                        assert(list@[k] == before[k]);
                    }
                }
            }
            curr = curr.saturating_add(step);
        }
        list
    }
}

/// The processor `c` with the registers `inits` set, in order.
pub open spec fn with_inits(c: CpuView, inits: Seq<(usize, u32)>) -> CpuView
    decreases inits.len(),
{
    if inits.len() == 0 {
        c
    } else {
        let p = inits.last();
        with_inits(c, inits.drop_last()).with_reg(p.0 as int, p.1)
    }
}

/// A processor reset for a new program: as new, except that it keeps whether
/// the host handles system calls of its own.
pub open spec fn reset_cpu(custom_syscalls: bool) -> CpuView {
    CpuView { has_custom_syscalls: custom_syscalls, ..fresh_cpu() }
}

/// Memory as new: every ordinary address holds 0.
pub open spec fn blank_ram() -> Map<u32, u8> {
    Map::new(|a: u32| a < MMIO_BASE, |a: u32| 0u8)
}

impl Simulator {
    /// Load the program `bytes`, where `image` is what the ELF parser read
    /// from them (`None` when they are not an ELF file). An ELF file's
    /// loadable segments, or for a relocatable object its sections, go to
    /// memory and its symbols to the symbol table; anything else is copied
    /// to address 0. `pc` is set to the entry point, which is returned.
    pub fn load_image(&mut self, bytes: &[u8], image: Option<ElfImage>) -> (entry: u32)
        requires
            old(self).wf(),
        ensures
            final(self).wf(),
            final(self).has_host() == old(self).has_host(),
            final(self).has_fpu() == old(self).has_fpu(),
            final(self).has_device() == old(self).has_device(),
            final(self).brk_floor() == old(self).brk_floor(),
            final(self).machine().brk == old(self).machine().brk,
            final(self).machine().ram.dom() == old(self).machine().ram.dom(),
            final(self).machine().cpu == old(self).machine().cpu.with_pc(entry),
            match image {
                None => {
                    &&& entry == 0
                    &&& bytes@.len() <= 0x1_0000_0000 ==> final(self).machine().ram
                        == ram_store_bytes(old(self).machine().ram, 0, bytes@)
                    &&& final(self).symbol_table() == old(self).symbol_table()
                },
                Some(img) => {
                    &&& entry == entry_point(img.data())
                    &&& bytes@.len() <= 0x1_0000_0000 ==> final(self).machine().ram
                        == loaded_memory(old(self).machine().ram, bytes@, img.data())
                    &&& symbol_names(final(self).symbol_table()) == loaded_symbols(
                        symbol_names(old(self).symbol_table()),
                        img.data(),
                    )
                },
            },
    {
        match image {
            None => {
                self.mem.write_bytes(0, bytes);
                self.cpu.pc = 0;
                0
            },
            Some(img) => {
                let addrs: Vec<u32>;
                if img.segments.len() > 0 {
                    copy_segments(&mut self.mem, bytes, &img.segments);
                    add_linked(&mut self.symbols, &img.symbols);
                    addrs = Vec::new();
                } else {
                    addrs = layout_sections(&img.sections);
                    copy_sections(&mut self.mem, bytes, &img.sections, &addrs);
                    add_object(&mut self.symbols, &img.symbols, &addrs);
                }
                let entry = find_entry(&img, &addrs);
                self.cpu.pc = entry;
                entry
            },
        }
    }
}

/// The processor a program starts on: reset, keeping whether the host
/// handles system calls of its own, with the registers that the command line
/// `args` sets.
pub open spec fn start_cpu(args: Seq<Seq<char>>, custom_syscalls: bool) -> CpuView {
    with_inits(reset_cpu(custom_syscalls), parse_from(args, 0, default_config()).register_inits)
}

/// Where the program `bytes` starts: its ELF entry point, or 0 when it is not
/// an ELF file.
pub open spec fn program_entry(bytes: Seq<u8>) -> u32 {
    match elf_contents(bytes) {
        Some(d) => entry_point(d),
        None => 0,
    }
}

/// The machine after the program `bytes` is loaded on a reset machine.
pub open spec fn program_start(bytes: Seq<u8>, args: Seq<Seq<char>>, custom_syscalls: bool) -> Machine {
    Machine {
        cpu: start_cpu(args, custom_syscalls).with_pc(program_entry(bytes)),
        ram: match elf_contents(bytes) {
            Some(d) => loaded_memory(blank_ram(), bytes, d),
            None => ram_store_bytes(blank_ram(), 0, bytes),
        },
        brk: DEFAULT_BRK,
    }
}

/// Set the registers `inits` of `cpu`, in order.
fn set_registers(cpu: &mut Cpu, inits: &Vec<(usize, u32)>)
    requires
        forall|k: int| 0 <= k < inits@.len() ==> #[trigger] inits@[k].0 < 32,
    ensures
        final(cpu)@ == with_inits(old(cpu)@, inits@),
        final(cpu).same_attachments(old(cpu)),
{
    let mut k: usize = 0;
    while k < inits.len()
        invariant
            k <= inits@.len(),
            forall|j: int| 0 <= j < inits@.len() ==> #[trigger] inits@[j].0 < 32,
            cpu@ == with_inits(old(cpu)@, inits@.subrange(0, k as int)),
            cpu.same_attachments(old(cpu)),
        decreases inits@.len() - k,
    {
        let (reg, val) = inits[k];
        proof {
            assert(inits@.subrange(0, k + 1).drop_last() =~= inits@.subrange(0, k as int));
        }
        cpu.write_reg(reg, val);
        k = k + 1;
    }
    proof {
        assert(inits@.subrange(0, inits@.len() as int) =~= inits@);
    }
}

impl Simulator {
    /// Reset the machine and load the program `bytes`, after setting the
    /// registers that the command line `args` names with `--setreg`. The
    /// host, the floating-point unit, the MMIO device and whether the host
    /// handles system calls of its own are kept. Returns the entry point.
    pub fn load_binary_with_args(&mut self, bytes: &[u8], args: &[String]) -> (entry: u32)
        ensures
            final(self).wf(),
            final(self).has_host() == old(self).has_host(),
            final(self).has_fpu() == old(self).has_fpu(),
            final(self).has_device() == old(self).has_device(),
            final(self).brk_floor() == DEFAULT_BRK,
            entry == program_entry(bytes@),
            final(self).machine().cpu == start_cpu(
                args_view(args),
                old(self).machine().cpu.has_custom_syscalls,
            ).with_pc(entry),
            final(self).machine().brk == DEFAULT_BRK,
            bytes@.len() <= 0x1_0000_0000 ==> final(self).machine() == program_start(
                bytes@,
                args_view(args),
                old(self).machine().cpu.has_custom_syscalls,
            ),
            match elf_contents(bytes@) {
                Some(d) => symbol_names(final(self).symbol_table()) == loaded_symbols(Map::empty(), d),
                None => final(self).symbol_table() == Map::<u32, String>::empty(),
            },
    {
        let config = SimConfig::parse_args(args);
        let custom = self.cpu.has_custom_syscalls;
        let mut cpu = Cpu::new();
        cpu.host = self.cpu.host.take();
        cpu.fpu = self.cpu.fpu.take();
        cpu.has_custom_syscalls = custom;
        proof {
            assert(cpu@ == reset_cpu(custom));
        }
        set_registers(&mut cpu, &config.register_inits);
        let device = self.mem.take_device();
        let mut mem = Memory::new();
        match device {
            Some(d) => mem.attach_device(d),
            None => {},
        }
        proof {
            assert(mem.ram() =~= blank_ram());
        }
        self.cpu = cpu;
        self.mem = mem;
        self.symbols.clear();
        let image = parse_elf(bytes);
        let entry = self.load_image(bytes, image);
        proof {
            assert(symbol_names(Map::<u32, String>::empty()) =~= Map::<u32, Seq<char>>::empty());
        }
        entry
    }
}

/// Load the program `bytes` on a new machine with the host `host`, the
/// floating-point unit `fpu` and the MMIO device `device`, reading the
/// command line `args` as `Simulator::load_binary_with_args` does, and run it
/// to its end; the exit code.
pub fn run_riscv_binary(
    bytes: &[u8],
    args: &[String],
    host: Box<dyn Host>,
    fpu: Box<dyn FloatUnit>,
    device: Box<dyn MmioDevice>,
) -> (code: i32)
    ensures
        bytes@.len() <= 0x1_0000_0000 ==> exists|trace: Seq<Machine>, end: Machine|
            #[trigger] crate::run::run_result(program_start(bytes@, args_view(args), false), true, true, trace, end)
                && code == end.cpu.exit_code,
{
    let mut sim = Simulator::new();
    sim.attach_host(host);
    sim.attach_fpu(fpu);
    sim.attach_device(device);
    sim.load_binary_with_args(bytes, args);
    let ghost start = sim.machine();
    let code = sim.run_full();
    proof {
        if bytes@.len() <= 0x1_0000_0000 {
            let t = choose|t: Seq<Machine>| #[trigger] crate::run::run_result(start, true, true, t, sim.machine());
            assert(crate::run::run_result(program_start(bytes@, args_view(args), false), true, true, t, sim.machine()));
        }
    }
    code
}

} // verus!
