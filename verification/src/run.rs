//! Running the processor: one step at a time, or in slices of a bounded
//! number of instructions that end early on a halt, a trap or a breakpoint.
use crate::compressed::{c0_effect, c1_effect, c2_effect, exec16_effect, lemma_rvc_bits, refused};
use crate::cpu::{
    amo_effect, poll_interval, rv32i_effect, Cpu, CpuError, CpuView, StepResult, MSTATUS, MSTATUS_MIE,
    TRAP_EXIT_CODE,
};
use crate::execute::{exec32_effect, is_base_opcode, is_fp_opcode};
use crate::inst::{DecodedInst32, OP_AMO, OP_OP, OP_SYSTEM};
use crate::float::fp_effect;
use crate::memory::{addr_add, in_ram, le16, le32, ram_u16, ram_u32, MemoryOps};
use crate::report::trap_report;
use crate::system::{interrupt_entry, system_effect, trap_status};
use vstd::prelude::*;

verus! {

broadcast use vstd::std_specs::hash::group_hash_axioms;

/// How a slice of execution ended.
#[derive(Debug, Clone, Copy, PartialEq, Eq, Structural)]
pub enum SliceStatus {
    /// The budget ran out; the machine can go on.
    Running,
    /// The program exited (or hit `ebreak`).
    Halted,
    /// Execution reached a breakpoint; the next slice resumes through it.
    Breakpoint,
    /// An instruction failed; the machine stopped.
    Trapped,
}

/// What a slice of execution reports.
#[derive(Debug, Clone, Copy, PartialEq, Eq, Structural)]
pub struct SliceOutcome {
    pub status: SliceStatus,
    /// Instructions completed in the slice.
    pub steps: u64,
    pub pc: u32,
    pub exit_code: i32,
}

/// The observable machine: the processor, ordinary memory and the program break.
pub struct Machine {
    pub cpu: CpuView,
    pub ram: Map<u32, u8>,
    pub brk: u32,
}

/// An instruction as fetched: a compressed halfword or a full word.
pub enum Fetched {
    Half(u16),
    Word(u32),
}

/// `f` is the instruction fetched at `pc` from `ram`: a halfword whose low
/// two bits are not both set is a compressed instruction, anything else a
/// 32-bit one. Where the four bytes at `pc` are not all ordinary memory the
/// bits come from a device, and only the classification is known.
pub open spec fn instruction_at(ram: Map<u32, u8>, pc: u32, f: Fetched) -> bool {
    &&& (f matches Fetched::Half(h) ==> h & 3 != 3)
    &&& in_ram(ram, pc, 4) ==> f == (if ram_u16(ram, pc) & 3 != 3 {
        Fetched::Half(ram_u16(ram, pc))
    } else {
        Fetched::Word(ram_u32(ram, pc))
    })
}

/// The effect of executing the fetched instruction `f` in machine `pre`.
pub open spec fn inst_effect(
    pre: Machine,
    has_host: bool,
    has_fpu: bool,
    f: Fetched,
    post: Machine,
    r: Result<(), CpuError>,
) -> bool {
    match f {
        Fetched::Half(h) => exec16_effect(pre.cpu, pre.ram, h, post.cpu, post.ram, r) && post.brk
            == pre.brk,
        Fetched::Word(w) => exec32_effect(
            pre.cpu,
            pre.ram,
            pre.brk,
            w,
            has_host,
            has_fpu,
            post.cpu,
            post.ram,
            post.brk,
            r,
        ),
    }
}

/// The state that stepping and breakpoints keep to themselves, which no
/// instruction touches.
pub open spec fn control(c: CpuView) -> (bool, Set<u32>, u64, Option<u32>, bool) {
    (c.debug_enabled, c.breakpoints, c.step_counter, c.resume_past_breakpoint, c.has_custom_syscalls)
}

/// `post` follows from the running machine `pre` by one instruction that
/// completes, and the step counter counts it.
pub open spec fn executes(pre: Machine, has_host: bool, has_fpu: bool, post: Machine) -> bool {
    &&& !pre.cpu.is_halted
    &&& pre.cpu.step_counter < u64::MAX
    &&& post.cpu.step_counter == pre.cpu.step_counter + 1
    &&& exists|f: Fetched|
        #![trigger instruction_at(pre.ram, pre.cpu.pc, f)]
        instruction_at(pre.ram, pre.cpu.pc, f) && inst_effect(
            pre,
            has_host,
            has_fpu,
            f,
            Machine { cpu: CpuView { step_counter: pre.cpu.step_counter, ..post.cpu }, ..post },
            Ok(()),
        )
}

/// The instruction at the `pc` of `pre` fails.
pub open spec fn fails(pre: Machine, has_host: bool, has_fpu: bool) -> bool {
    exists|f: Fetched, e: CpuError|
        #![trigger instruction_at(pre.ram, pre.cpu.pc, f), inst_effect(pre, has_host, has_fpu, f, pre, Err(e))]
        instruction_at(pre.ram, pre.cpu.pc, f) && inst_effect(pre, has_host, has_fpu, f, pre, Err(e))
}

/// `post` follows from `pre` by taking an external interrupt, which needs
/// interrupts enabled.
pub open spec fn interrupted(pre: Machine, post: Machine) -> bool {
    &&& pre.cpu.interrupts_enabled()
    &&& exists|irq: i32|
        #![trigger interrupt_entry(pre.cpu, irq)]
        irq != 0 && post == Machine { cpu: interrupt_entry(pre.cpu, irq), ..pre }
}

/// The step from `trace[i]` to `trace[i + 1]`: an instruction, or, when a
/// host is attached, an external interrupt.
pub open spec fn link(trace: Seq<Machine>, has_host: bool, has_fpu: bool, i: int) -> bool {
    executes(trace[i], has_host, has_fpu, trace[i + 1]) || (has_host && interrupted(
        trace[i],
        trace[i + 1],
    ))
}

/// `trace` is a run of the machine: every state follows from the one before.
pub open spec fn is_run(trace: Seq<Machine>, has_host: bool, has_fpu: bool) -> bool {
    &&& trace.len() >= 1
    &&& forall|i: int| 0 <= i < trace.len() - 1 ==> #[trigger] link(trace, has_host, has_fpu, i)
}

/// The processor after a trap: stopped, marked as trapped, with the trap exit code.
pub open spec fn trap_state(c: CpuView) -> CpuView {
    CpuView { trapped: true, exit_code: TRAP_EXIT_CODE, is_halted: true, ..c }
}

/// A lemma about what no instruction changes, and what a failing one leaves.
pub proof fn lemma_inst_effect_frame(
    pre: Machine,
    has_host: bool,
    has_fpu: bool,
    f: Fetched,
    post: Machine,
    r: Result<(), CpuError>,
)
    requires
        inst_effect(pre, has_host, has_fpu, f, post, r),
    ensures
        control(post.cpu) == control(pre.cpu),
        r is Err ==> post == pre,
{
    match f {
        Fetched::Half(h) => {
            let x = h as u32;
            if x & 3 == 0 {
                assert(c0_effect(pre.cpu, pre.ram, x, post.cpu, post.ram, r));
            } else if x & 3 == 1 {
                assert(c1_effect(pre.cpu, pre.ram, x, post.cpu, post.ram, r));
            } else if x & 3 == 2 {
                assert(c2_effect(pre.cpu, pre.ram, x, post.cpu, post.ram, r));
            }
        },
        Fetched::Word(w) => {},
    }
}

/// The register file has its 32 registers and `x0` holds zero.
pub open spec fn x0_zero(c: CpuView) -> bool {
    c.regs.len() == 32 && c.regs[0] == 0
}

/// No 32-bit instruction makes `x0` anything but zero.
proof fn lemma_exec32_keeps_x0(
    pre: CpuView,
    ram: Map<u32, u8>,
    brk: u32,
    raw: u32,
    has_host: bool,
    has_fpu: bool,
    post: CpuView,
    ram_post: Map<u32, u8>,
    brk_post: u32,
    r: Result<(), CpuError>,
)
    requires
        exec32_effect(pre, ram, brk, raw, has_host, has_fpu, post, ram_post, brk_post, r),
        x0_zero(pre),
    ensures
        x0_zero(post),
{
    DecodedInst32::lemma_fields_in_range(raw);
    let d = DecodedInst32::spec_decode(raw);
    let op = d.opcode;
    if op == OP_OP && d.funct7 == 1 {
        assert(x0_zero(post));
    } else if is_base_opcode(op) {
        assert(rv32i_effect(pre, ram, d, post, ram_post, r));
        assert(x0_zero(post));
    } else if op == OP_AMO {
        assert(amo_effect(pre, ram, d, post, ram_post, r));
        assert(x0_zero(post));
    } else if is_fp_opcode(op) {
        assert(fp_effect(pre, ram, d, has_fpu, post, ram_post, r));
        assert(x0_zero(post));
    } else if op == OP_SYSTEM {
        assert(system_effect(pre, ram, brk, d, has_host, post, ram_post, brk_post, r));
        assert(x0_zero(post));
    }
}

/// No instruction makes `x0` anything but zero.
proof fn lemma_inst_keeps_x0(
    pre: Machine,
    has_host: bool,
    has_fpu: bool,
    f: Fetched,
    post: Machine,
    r: Result<(), CpuError>,
)
    requires
        inst_effect(pre, has_host, has_fpu, f, post, r),
        x0_zero(pre.cpu),
    ensures
        x0_zero(post.cpu),
{
    match f {
        Fetched::Half(h) => {
            let x = h as u32;
            lemma_rvc_bits(h);
            if x & 3 == 0 {
                assert(c0_effect(pre.cpu, pre.ram, x, post.cpu, post.ram, r));
                assert(x0_zero(post.cpu));
            } else if x & 3 == 1 {
                assert(c1_effect(pre.cpu, pre.ram, x, post.cpu, post.ram, r));
                assert(x0_zero(post.cpu));
            } else if x & 3 == 2 {
                assert(c2_effect(pre.cpu, pre.ram, x, post.cpu, post.ram, r));
                assert(x0_zero(post.cpu));
            } else {
                assert(refused(pre.cpu, x, r, post.cpu, pre.ram, post.ram));
            }
        },
        Fetched::Word(w) => {
            lemma_exec32_keeps_x0(
                pre.cpu,
                pre.ram,
                pre.brk,
                w,
                has_host,
                has_fpu,
                post.cpu,
                post.ram,
                post.brk,
                r,
            );
        },
    }
}

/// `x0` reads zero in every machine a run reaches from one where it does.
pub proof fn law_x0_stays_zero(trace: Seq<Machine>, has_host: bool, has_fpu: bool, i: int)
    requires
        is_run(trace, has_host, has_fpu),
        x0_zero(trace[0].cpu),
        0 <= i < trace.len(),
    ensures
        x0_zero(trace[i].cpu),
    decreases i,
{
    if i > 0 {
        law_x0_stays_zero(trace, has_host, has_fpu, i - 1);
        assert(link(trace, has_host, has_fpu, i - 1));
        let pre = trace[i - 1];
        let post = trace[i];
        if executes(pre, has_host, has_fpu, post) {
            let inner = Machine { cpu: CpuView { step_counter: pre.cpu.step_counter, ..post.cpu }, ..post };
            let f = choose|f: Fetched|
                #![trigger instruction_at(pre.ram, pre.cpu.pc, f)]
                instruction_at(pre.ram, pre.cpu.pc, f) && inst_effect(
                    pre,
                    has_host,
                    has_fpu,
                    f,
                    inner,
                    Ok(()),
                );
            lemma_inst_keeps_x0(pre, has_host, has_fpu, f, inner, Ok(()));
        }
    }
}

/// The low halfword of a word in memory is the halfword at the same address.
proof fn lemma_low_half(ram: Map<u32, u8>, a: u32)
    ensures
        (ram_u32(ram, a) as u16) == ram_u16(ram, a),
        ram_u32(ram, a) & 3 == ram_u16(ram, a) & 3,
{
    let b0 = ram[a];
    let b1 = ram[addr_add(a, 1)];
    let b2 = ram[addr_add(a, 2)];
    let b3 = ram[addr_add(a, 3)];
    assert((le32(b0, b1, b2, b3) as u16) == le16(b0, b1) && le32(b0, b1, b2, b3) & 3 == le16(b0, b1)
        & 3) by (bit_vector);
}

impl Cpu {
    /// Fetch the instruction at `pc` and execute it; the flag says whether it
    /// was a compressed instruction.
    fn fetch_and_execute<M: MemoryOps>(&mut self, mem: &mut M) -> (res: (Result<(), CpuError>, bool))
        requires
            old(mem).inv(),
        ensures
            final(mem).inv(),
            final(self).same_attachments(old(self)),
            exists|f: Fetched|
                #![trigger instruction_at(old(mem).ram(), old(self)@.pc, f)]
                instruction_at(old(mem).ram(), old(self)@.pc, f) && (res.1 <==> f is Half)
                    && inst_effect(
                    Machine { cpu: old(self)@, ram: old(mem).ram(), brk: old(mem).brk() },
                    old(self).host is Some,
                    old(self).fpu is Some,
                    f,
                    Machine { cpu: final(self)@, ram: final(mem).ram(), brk: final(mem).brk() },
                    res.0,
                ),
    {
        let ghost ram = mem.ram();
        let pc = self.pc;
        // One page lookup for the whole instruction. The low halfword
        // classifies it; the high halfword is already in hand when the
        // instruction turns out to be 32 bits wide.
        let (window, wide) = mem.fetch_window(pc);
        let inst16 = window as u16;
        proof {
            lemma_low_half(ram, pc);
            assert(inst16 & 3 == window & 3) by (bit_vector)
                requires
                    inst16 == window as u16,
            ;
            if !wide && in_ram(ram, pc, 4) {
                assert(in_ram(ram, pc, 2));
            }
        }
        // Compressed instruction (16-bit) if lower 2 bits are not 0b11
        if (inst16 & 0x3) != 0x3 {
            let r = self.execute_inst16(inst16, mem);
            proof {
                assert(instruction_at(ram, pc, Fetched::Half(inst16)));
            }
            (r, true)
        } else {
            // `wide` is false only on a page edge or beside MMIO, where the
            // fetch could not safely widen itself.
            let inst32 = if wide {
                window
            } else {
                mem.read_u32(pc)
            };
            let r = self.execute_inst32(inst32, mem);
            proof {
                assert(instruction_at(ram, pc, Fetched::Word(inst32)));
            }
            (r, false)
        }
    }
}

/// One call of `step_instruction` on machine `pre`: a breakpoint is reported
/// once, a halted machine stays put, and otherwise one instruction runs and
/// is counted; a failing one stops the machine as a trap.
#[verifier::opaque]
pub open spec fn step_effect(pre: Machine, has_host: bool, has_fpu: bool, post: Machine, r: StepResult) -> bool {
    let c = pre.cpu;
    if c.debug_enabled && c.breakpoints.contains(c.pc) && c.resume_past_breakpoint != Some(c.pc) {
        r == StepResult::BreakpointHit(c.pc) && post == Machine {
            cpu: CpuView { resume_past_breakpoint: Some(c.pc), ..c },
            ..pre
        }
    } else {
        let s = Machine { cpu: CpuView { resume_past_breakpoint: None, ..c }, ..pre };
        if c.is_halted {
            r == StepResult::Halted(c.exit_code) && post == s
        } else {
            match r {
                StepResult::Trap(p) => p == c.pc && fails(s, has_host, has_fpu) && post == Machine {
                    cpu: trap_state(CpuView { step_counter: (c.step_counter + 1) as u64, ..s.cpu }),
                    ..s
                },
                _ => executes(s, has_host, has_fpu, post) && r == (if post.cpu.is_halted {
                    StepResult::Halted(post.cpu.exit_code)
                } else {
                    StepResult::Executed
                }),
            }
        }
    }
}

/// A breakpoint is reported once: the step that reports it changes nothing
/// but the note that it was reported, and the next step from there does not
/// report a breakpoint again.
pub proof fn law_breakpoint_reported_once(
    m0: Machine,
    has_host: bool,
    has_fpu: bool,
    m1: Machine,
    r1: StepResult,
    m2: Machine,
    r2: StepResult,
)
    requires
        step_effect(m0, has_host, has_fpu, m1, r1),
        (r1 is BreakpointHit),
        step_effect(m1, has_host, has_fpu, m2, r2),
    ensures
        m1 == (Machine { cpu: CpuView { resume_past_breakpoint: Some(m0.cpu.pc), ..m0.cpu }, ..m0 }),
        !(r2 is BreakpointHit),
{
    reveal(step_effect);
    if r2 is BreakpointHit {
        match r2 {
            StepResult::Trap(_) => {},
            _ => {
                assert(m1.cpu.debug_enabled && m1.cpu.breakpoints.contains(m1.cpu.pc));
            },
        }
    }
}

/// A failing instruction stops the machine where it stands: the step reports
/// a trap at its address, leaves registers and memory as they were, and marks
/// the machine halted and trapped with the trap exit code; every later step
/// reports that halt and changes nothing.
pub proof fn law_trap_halts(
    m0: Machine,
    has_host: bool,
    has_fpu: bool,
    m1: Machine,
    r1: StepResult,
    m2: Machine,
    r2: StepResult,
)
    requires
        !m0.cpu.is_halted,
        !(m0.cpu.debug_enabled && m0.cpu.breakpoints.contains(m0.cpu.pc)),
        fails(start_of(m0), has_host, has_fpu),
        forall|post: Machine| !executes(start_of(m0), has_host, has_fpu, post),
        step_effect(m0, has_host, has_fpu, m1, r1),
        step_effect(m1, has_host, has_fpu, m2, r2),
    ensures
        r1 == StepResult::Trap(m0.cpu.pc),
        m1.cpu.pc == m0.cpu.pc,
        m1.cpu.regs == m0.cpu.regs,
        m1.ram == m0.ram,
        m1.cpu.is_halted && m1.cpu.trapped,
        m1.cpu.exit_code == TRAP_EXIT_CODE,
        r2 == StepResult::Halted(TRAP_EXIT_CODE),
        m2.cpu.pc == m1.cpu.pc,
        m2.cpu.regs == m1.cpu.regs,
        m2.ram == m1.ram,
        m2.cpu.is_halted,
{
    reveal(step_effect);
    match r1 {
        StepResult::Trap(_) => {},
        _ => {
            assert(!executes(start_of(m0), has_host, has_fpu, m1));
        },
    }
}

impl Cpu {
    /// Report a failed instruction to the host.
    fn report_trap(&self, pc: u32, err: &CpuError, compressed: bool) {
        let msg = trap_report(pc, err, compressed);
        self.host_print_err(msg.as_str());
        match err {
            CpuError::UnknownSyscall(sys) => self.host_notify_unknown_syscall(sys),
            _ => {},
        }
    }

    /// Execute one instruction, unless a breakpoint stops it first.
    pub fn step_instruction<M: MemoryOps>(&mut self, mem: &mut M) -> (r: StepResult)
        requires
            old(mem).inv(),
            old(self).step_counter < u64::MAX,
        ensures
            final(mem).inv(),
            final(self).same_attachments(old(self)),
            final(self)@.breakpoints == old(self)@.breakpoints,
            final(self)@.debug_enabled == old(self)@.debug_enabled,
            step_effect(
                Machine { cpu: old(self)@, ram: old(mem).ram(), brk: old(mem).brk() },
                old(self).host is Some,
                old(self).fpu is Some,
                Machine { cpu: final(self)@, ram: final(mem).ram(), brk: final(mem).brk() },
                r,
            ),
    {
        let ghost hh = self.host is Some;
        let ghost hf = self.fpu is Some;
        proof {
            reveal(step_effect);
        }
        // A breakpoint is reported once. Without the one-shot skip, a step or a
        // continue from the breakpoint address would report the same hit for
        // ever and the session could never leave it.
        let pc = self.pc;
        let resuming = match self.resume_past_breakpoint {
            Some(p) => p == pc,
            None => false,
        };
        if self.debug_enabled && self.breakpoints.contains(&pc) && !resuming {
            self.resume_past_breakpoint = Some(pc);
            return StepResult::BreakpointHit(pc);
        }
        self.resume_past_breakpoint = None;

        if self.is_halted {
            return StepResult::Halted(self.exit_code);
        }
        let ghost s = Machine { cpu: self@, ram: mem.ram(), brk: mem.brk() };
        let (result, _compressed) = self.fetch_and_execute(mem);
        let ghost done = Machine { cpu: self@, ram: mem.ram(), brk: mem.brk() };
        proof {
            let f = choose|f: Fetched|
                instruction_at(s.ram, s.cpu.pc, f) && inst_effect(s, hh, hf, f, done, result);
            lemma_inst_effect_frame(s, hh, hf, f, done, result);
            assert(instruction_at(s.ram, s.cpu.pc, f));
        }
        self.step_counter = self.step_counter + 1;

        match result {
            Err(err) => {
                self.report_trap(pc, &err, false);
                // Every trap stops the machine. Without this the debugger would
                // hand back the same snapshot for ever on a faulting instruction.
                self.trapped = true;
                self.exit_code = TRAP_EXIT_CODE;
                self.is_halted = true;
                return StepResult::Trap(pc);
            },
            Ok(()) => {},
        }

        if self.is_halted {
            StepResult::Halted(self.exit_code)
        } else {
            StepResult::Executed
        }
    }
}

/// Whether the step from `trace[i]` respects the breakpoints of a slice:
/// an instruction at a watched breakpoint runs only as the slice's first
/// instruction, resuming through the breakpoint `skip` reported before.
pub open spec fn passes_breakpoints(
    trace: Seq<Machine>,
    has_host: bool,
    has_fpu: bool,
    watch: bool,
    skip: Option<u32>,
    i: int,
) -> bool {
    (watch && trace[i].cpu.breakpoints.contains(trace[i].cpu.pc) && executes(
        trace[i],
        has_host,
        has_fpu,
        trace[i + 1],
    )) ==> (trace[i].cpu.step_counter == trace[0].cpu.step_counter && skip == Some(trace[i].cpu.pc))
}

/// How far a processor is from resuming through a breakpoint with interrupts
/// off: a slice that stops on a breakpoint before any instruction lowers it.
pub open spec fn slice_rank(c: CpuView) -> int {
    (if c.resume_past_breakpoint == Some(c.pc) {
        0int
    } else {
        2int
    }) + (if c.interrupts_enabled() {
        1int
    } else {
        0int
    })
}

/// The machine a slice or a run starts from: `before`, with the reported
/// breakpoint taken over by the slice.
pub open spec fn start_of(before: Machine) -> Machine {
    Machine { cpu: CpuView { resume_past_breakpoint: None, ..before.cpu }, ..before }
}

/// A slice with budget `budget` called on machine `before` ran through
/// `trace`, ended in `end` and reported `o`. Breakpoints are watched when
/// debugging is on and there are any; the breakpoint `before` had already
/// reported may be run through by the first instruction. A slice that fills
/// the step counter stops there as one that used up its budget.
pub open spec fn slice_result(
    before: Machine,
    budget: u64,
    has_host: bool,
    has_fpu: bool,
    trace: Seq<Machine>,
    end: Machine,
    o: SliceOutcome,
) -> bool {
    let start = start_of(before);
    let watch = before.cpu.debug_enabled && !before.cpu.breakpoints.is_empty();
    let skip = before.cpu.resume_past_breakpoint;
    let last = trace.last();
    &&& is_run(trace, has_host, has_fpu)
    &&& trace[0] == start
    &&& forall|i: int|
        0 <= i < trace.len() - 1 ==> #[trigger] passes_breakpoints(
            trace,
            has_host,
            has_fpu,
            watch,
            skip,
            i,
        )
    &&& o.steps <= budget
    &&& last.cpu.step_counter == start.cpu.step_counter + o.steps
    &&& last.cpu.resume_past_breakpoint is None
    &&& o.pc == end.cpu.pc
    &&& o.exit_code == end.cpu.exit_code
    &&& match o.status {
        SliceStatus::Running => (o.steps == budget || last.cpu.step_counter == u64::MAX)
            && !last.cpu.is_halted && end == last,
        SliceStatus::Halted => last.cpu.is_halted && end == last,
        SliceStatus::Breakpoint => {
            &&& watch && !last.cpu.is_halted && last.cpu.breakpoints.contains(last.cpu.pc)
            &&& (last.cpu.step_counter == start.cpu.step_counter ==> skip != Some(last.cpu.pc))
            &&& end == Machine {
                cpu: CpuView { resume_past_breakpoint: Some(last.cpu.pc), ..last.cpu },
                ..last
            }
        },
        SliceStatus::Trapped => {
            &&& !last.cpu.is_halted && fails(last, has_host, has_fpu)
            &&& (watch && last.cpu.breakpoints.contains(last.cpu.pc) ==> last.cpu.step_counter
                == start.cpu.step_counter && skip == Some(last.cpu.pc))
            &&& end == Machine { cpu: trap_state(last.cpu), ..last }
        },
    }
}

/// A whole run called on machine `before` went through `trace` and ended in
/// `end`: the program halted, an instruction trapped, or the step counter
/// ran out.
pub open spec fn run_result(before: Machine, has_host: bool, has_fpu: bool, trace: Seq<Machine>, end: Machine) -> bool {
    let start = start_of(before);
    let last = trace.last();
    &&& is_run(trace, has_host, has_fpu)
    &&& trace[0] == start
    &&& end.cpu.is_halted
    &&& {
        ||| last.cpu.is_halted && end == last
        ||| !last.cpu.is_halted && fails(last, has_host, has_fpu) && end == Machine {
            cpu: trap_state(last.cpu),
            ..last
        }
        ||| last.cpu.step_counter == u64::MAX && end == Machine {
            cpu: CpuView {
                is_halted: true,
                resume_past_breakpoint: end.cpu.resume_past_breakpoint,
                ..last.cpu
            },
            ..last
        }
    }
}

/// A run extended by one more step is a run.
proof fn lemma_run_push(
    trace: Seq<Machine>,
    next: Machine,
    has_host: bool,
    has_fpu: bool,
    watch: bool,
    skip: Option<u32>,
)
    requires
        is_run(trace, has_host, has_fpu),
        forall|i: int|
            0 <= i < trace.len() - 1 ==> #[trigger] passes_breakpoints(
                trace,
                has_host,
                has_fpu,
                watch,
                skip,
                i,
            ),
        executes(trace.last(), has_host, has_fpu, next) || (has_host && interrupted(
            trace.last(),
            next,
        )),
        (watch && trace.last().cpu.breakpoints.contains(trace.last().cpu.pc) && executes(
            trace.last(),
            has_host,
            has_fpu,
            next,
        )) ==> (trace.last().cpu.step_counter == trace[0].cpu.step_counter && skip == Some(
            trace.last().cpu.pc,
        )),
    ensures
        is_run(trace.push(next), has_host, has_fpu),
        forall|i: int|
            0 <= i < trace.push(next).len() - 1 ==> #[trigger] passes_breakpoints(
                trace.push(next),
                has_host,
                has_fpu,
                watch,
                skip,
                i,
            ),
        trace.push(next)[0] == trace[0],
        trace.push(next).last() == next,
{
    let t = trace.push(next);
    assert forall|i: int| 0 <= i < t.len() - 1 implies #[trigger] link(t, has_host, has_fpu, i) by {
        assert(t[i] == trace[i]);
        if i < trace.len() - 1 {
            assert(t[i + 1] == trace[i + 1]);
            assert(link(trace, has_host, has_fpu, i));
        }
    }
    assert forall|i: int| 0 <= i < t.len() - 1 implies #[trigger] passes_breakpoints(
        t,
        has_host,
        has_fpu,
        watch,
        skip,
        i,
    ) by {
        assert(t[i] == trace[i]);
        assert(t[0] == trace[0]);
        if i < trace.len() - 1 {
            assert(t[i + 1] == trace[i + 1]);
            assert(passes_breakpoints(trace, has_host, has_fpu, watch, skip, i));
        }
    }
}

/// Two runs, the second starting where the first ended, make one run: the
/// slices of a sliced run together are a run of the machine.
pub proof fn law_runs_compose(t1: Seq<Machine>, t2: Seq<Machine>, has_host: bool, has_fpu: bool)
    requires
        is_run(t1, has_host, has_fpu),
        is_run(t2, has_host, has_fpu),
        t1.last() == t2[0],
    ensures
        is_run(t1 + t2.drop_first(), has_host, has_fpu),
        (t1 + t2.drop_first())[0] == t1[0],
        (t1 + t2.drop_first()).last() == t2.last(),
{
    let t = t1 + t2.drop_first();
    assert forall|i: int| 0 <= i < t.len() - 1 implies #[trigger] link(t, has_host, has_fpu, i) by {
        if i < t1.len() - 1 {
            assert(t[i] == t1[i] && t[i + 1] == t1[i + 1]);
            assert(link(t1, has_host, has_fpu, i));
        } else {
            let j = i - (t1.len() - 1);
            assert(t[i] == t2[j] && t[i + 1] == t2[j + 1]);
            assert(link(t2, has_host, has_fpu, j));
        }
    }
    if t2.len() == 1 {
        assert(t =~= t1);
    }
}

/// Slicing does not change what a whole run produces: a slice that used up
/// its budget, followed by a whole run from the machine it handed back, is a
/// whole run from the machine the slice started on, ending where the second
/// run ended.
pub proof fn law_slice_then_run(
    before: Machine,
    budget: u64,
    has_host: bool,
    has_fpu: bool,
    t1: Seq<Machine>,
    mid: Machine,
    o: SliceOutcome,
    t2: Seq<Machine>,
    end: Machine,
)
    requires
        slice_result(before, budget, has_host, has_fpu, t1, mid, o),
        o.status is Running,
        run_result(mid, has_host, has_fpu, t2, end),
    ensures
        run_result(before, has_host, has_fpu, t1 + t2.drop_first(), end),
{
    assert(start_of(mid) == mid);
    law_runs_compose(t1, t2, has_host, has_fpu);
}

/// A poll for an external interrupt was made at step count `c`.
pub open spec fn polled_at(polls: Seq<(u64, u64)>, c: u64) -> bool {
    exists|k: int| #![trigger polls[k]] 0 <= k < polls.len() && polls[k].0 == c
}

/// The polls of a slice that started at step count `c0`: the first at the
/// start, and each next one after exactly the number of instructions the one
/// before it was given, which is never less than one.
#[verifier::opaque]
pub open spec fn polls_spaced(polls: Seq<(u64, u64)>, c0: u64) -> bool {
    &&& polls.len() > 0 ==> polls[0].0 == c0
    &&& forall|k: int| 0 <= k < polls.len() ==> #[trigger] polls[k].1 >= 1
    &&& forall|k: int, j: int|
        #![trigger polls[k], polls[j]]
        0 <= k && j == k + 1 && j < polls.len() ==> polls[j].0 == polls[k].0 + polls[k].1
}

/// The step from `trace[i]` runs an instruction, or is taken where an
/// interrupt poll was made.
pub open spec fn polled_step(
    trace: Seq<Machine>,
    has_host: bool,
    has_fpu: bool,
    polls: Seq<(u64, u64)>,
    i: int,
) -> bool {
    executes(trace[i], has_host, has_fpu, trace[i + 1]) || polled_at(
        polls,
        trace[i].cpu.step_counter,
    )
}

/// Every external interrupt in `trace` was taken at a poll.
#[verifier::opaque]
pub open spec fn interrupts_at_polls(
    trace: Seq<Machine>,
    has_host: bool,
    has_fpu: bool,
    polls: Seq<(u64, u64)>,
) -> bool {
    forall|i: int|
        0 <= i < trace.len() - 1 ==> #[trigger] polled_step(trace, has_host, has_fpu, polls, i)
}

/// The interrupt polls `polls` of a slice that went through `trace`: spaced
/// as the host asked, every external interrupt taken at one of them, and no
/// instruction run later than the last poll allowed.
pub open spec fn slice_polls(
    trace: Seq<Machine>,
    has_host: bool,
    has_fpu: bool,
    polls: Seq<(u64, u64)>,
) -> bool {
    &&& polls_spaced(polls, trace[0].cpu.step_counter)
    &&& interrupts_at_polls(trace, has_host, has_fpu, polls)
    &&& polls.len() == 0 ==> trace.len() == 1
    &&& polls.len() > 0 ==> trace.last().cpu.step_counter <= polls.last().0 + polls.last().1
}

/// A new poll at step count `c`, given `d` instructions until the next one,
/// keeps the record of a slice's polls in order.
proof fn lemma_poll_push(
    polls: Seq<(u64, u64)>,
    c0: u64,
    c: u64,
    d: u64,
    trace: Seq<Machine>,
    has_host: bool,
    has_fpu: bool,
)
    requires
        polls_spaced(polls, c0),
        interrupts_at_polls(trace, has_host, has_fpu, polls),
        d >= 1,
        polls.len() == 0 ==> c == c0,
        polls.len() > 0 ==> c == polls.last().0 + polls.last().1,
    ensures
        polls_spaced(polls.push((c, d)), c0),
        interrupts_at_polls(trace, has_host, has_fpu, polls.push((c, d))),
        polled_at(polls.push((c, d)), c),
{
    reveal(polls_spaced);
    reveal(interrupts_at_polls);
    let q = polls.push((c, d));
    assert(q[q.len() - 1] == (c, d));
    assert forall|k: int, j: int| 0 <= k && j == k + 1 && j < q.len() implies #[trigger] q[j].0
        == #[trigger] q[k].0 + q[k].1 by {
        if j < polls.len() {
            assert(q[j] == polls[j] && q[k] == polls[k]);
        } else {
            assert(q[k] == polls.last());
        }
    }
    assert forall|k: int| 0 <= k < q.len() implies #[trigger] q[k].1 >= 1 by {
        if k < polls.len() {
            assert(q[k] == polls[k]);
        }
    }
    assert forall|i: int| 0 <= i < trace.len() - 1 implies #[trigger] polled_step(
        trace,
        has_host,
        has_fpu,
        q,
        i,
    ) by {
        assert(polled_step(trace, has_host, has_fpu, polls, i));
        if !executes(trace[i], has_host, has_fpu, trace[i + 1]) {
            let k = choose|k: int|
                #![trigger polls[k]]
                0 <= k < polls.len() && polls[k].0 == trace[i].cpu.step_counter;
            assert(q[k] == polls[k]);
        }
    }
}

/// A run extended by a step that runs an instruction, or that is taken at a
/// poll, still has every interrupt at a poll.
proof fn lemma_polled_push(
    trace: Seq<Machine>,
    next: Machine,
    has_host: bool,
    has_fpu: bool,
    polls: Seq<(u64, u64)>,
)
    requires
        trace.len() >= 1,
        interrupts_at_polls(trace, has_host, has_fpu, polls),
        executes(trace.last(), has_host, has_fpu, next) || polled_at(
            polls,
            trace.last().cpu.step_counter,
        ),
    ensures
        interrupts_at_polls(trace.push(next), has_host, has_fpu, polls),
{
    reveal(interrupts_at_polls);
    let t = trace.push(next);
    assert forall|i: int| 0 <= i < t.len() - 1 implies #[trigger] polled_step(
        t,
        has_host,
        has_fpu,
        polls,
        i,
    ) by {
        assert(t[i] == trace[i]);
        if i < trace.len() - 1 {
            assert(t[i + 1] == trace[i + 1]);
            assert(polled_step(trace, has_host, has_fpu, polls, i));
        }
    }
}

/// Taking a trap disables interrupts.
proof fn lemma_trap_disables(m: u32)
    ensures
        trap_status(m) & MSTATUS_MIE == 0,
{
    assert(trap_status(m) & MSTATUS_MIE == 0) by (bit_vector);
}

impl Cpu {
    /// Execute at most `budget` instructions and then hand control back.
    ///
    /// The caller drives the run one slice at a time, so a host that shares its
    /// thread with a message queue (the browser worker) can answer messages
    /// between slices. The slice ends early on a halt, on a trap, or on a
    /// breakpoint hit.
    ///
    /// External interrupts are polled for at the start of the slice and then
    /// after as many instructions as the host asked at the poll before (1000
    /// when it asked for none); each poll is added to `interrupt_polls`, and an
    /// interrupt is taken only at a poll.
    #[verifier::spinoff_prover]
    #[verifier::rlimit(100)]
    pub fn run_slice<M: MemoryOps>(&mut self, mem: &mut M, budget: u32) -> (o: SliceOutcome)
        requires
            old(mem).inv(),
        ensures
            final(mem).inv(),
            final(self).host == old(self).host,
            final(self).fpu == old(self).fpu,
            final(self).interrupt_polls@.len() >= old(self).interrupt_polls@.len(),
            final(self).interrupt_polls@.take(old(self).interrupt_polls@.len() as int) == old(
                self,
            ).interrupt_polls@,
            exists|trace: Seq<Machine>|
                #[trigger] slice_result(
                    Machine { cpu: old(self)@, ram: old(mem).ram(), brk: old(mem).brk() },
                    budget as u64,
                    old(self).host is Some,
                    old(self).fpu is Some,
                    trace,
                    Machine { cpu: final(self)@, ram: final(mem).ram(), brk: final(mem).brk() },
                    o,
                ) && slice_polls(
                    trace,
                    old(self).host is Some,
                    old(self).fpu is Some,
                    final(self).interrupt_polls@.skip(old(self).interrupt_polls@.len() as int),
                ),
            o.status == SliceStatus::Breakpoint && o.steps == 0 ==> slice_rank(final(self)@)
                < slice_rank(old(self)@),
    {
        let ghost hh = self.host is Some;
        let ghost hf = self.fpu is Some;
        let ghost old_cpu = self@;
        let ghost old_polls = self.interrupt_polls@;
        let ghost mut polls: Seq<(u64, u64)> = Seq::empty();
        // The step counter cannot count past its maximum: a slice that would
        // take it there stops early, as one that used up its budget.
        let ghost asked = budget as u64;
        let room = u64::MAX - self.step_counter;
        let budget = if (budget as u64) < room {
            budget as u64
        } else {
            room
        };
        let mut executed: u64 = 0;
        // A slice runs to completion without yielding, so the debug settings
        // cannot change while it runs. Hoisting the test keeps the inner loop as
        // cheap as the unsliced loop it replaced.
        let watch_breakpoints = self.debug_enabled && !self.breakpoints.is_empty();
        let skip0 = self.resume_past_breakpoint.take();
        let mut skip_breakpoint = skip0;
        let ghost start = Machine { cpu: self@, ram: mem.ram(), brk: mem.brk() };
        let ghost mut trace: Seq<Machine> = seq![start];
        let ghost mut took_interrupt = false;
        let mut status = SliceStatus::Running;
        let mut failure: Option<(CpuError, bool)> = None;

        assert(polls_spaced(polls, start.cpu.step_counter)) by {
            reveal(polls_spaced);
        }
        assert(interrupts_at_polls(trace, hh, hf, polls)) by {
            reveal(interrupts_at_polls);
        }
        loop
            invariant_except_break
                watch_breakpoints && self@.step_counter == start.cpu.step_counter ==> skip_breakpoint
                    == skip0,
                status == SliceStatus::Running,
                failure is None,
                polls.len() > 0 ==> (self@.step_counter == polls.last().0 + polls.last().1
                    || executed == budget),
            invariant
                mem.inv(),
                self.host == old(self).host,
                self.fpu == old(self).fpu,
                old_polls == old(self).interrupt_polls@,
                self.interrupt_polls@ == old_polls + polls,
                polls_spaced(polls, start.cpu.step_counter),
                interrupts_at_polls(trace, hh, hf, polls),
                polls.len() == 0 ==> trace.len() == 1 && executed == 0,
                polls.len() > 0 ==> self@.step_counter <= polls.last().0 + polls.last().1,
                hh == (self.host is Some),
                hf == (self.fpu is Some),
                executed <= budget,
                start.cpu.step_counter + budget <= u64::MAX,
                self@.step_counter == start.cpu.step_counter + executed,
                self@.resume_past_breakpoint is None,
                self@.debug_enabled == start.cpu.debug_enabled,
                self@.breakpoints == start.cpu.breakpoints,
                watch_breakpoints == (start.cpu.debug_enabled && !start.cpu.breakpoints.is_empty()),
                start.cpu == (CpuView { resume_past_breakpoint: None, ..old_cpu }),
                start.ram == old(mem).ram(),
                start.brk == old(mem).brk(),
                old_cpu == old(self)@,
                skip0 == old_cpu.resume_past_breakpoint,
                skip_breakpoint is Some ==> skip_breakpoint == skip0,
                watch_breakpoints && skip_breakpoint is Some ==> self@.step_counter
                    == start.cpu.step_counter,
                is_run(trace, hh, hf),
                trace[0] == start,
                trace.last() == (Machine { cpu: self@, ram: mem.ram(), brk: mem.brk() }),
                forall|i: int|
                    0 <= i < trace.len() - 1 ==> #[trigger] passes_breakpoints(
                        trace,
                        hh,
                        hf,
                        watch_breakpoints,
                        skip0,
                        i,
                    ),
                self@.step_counter == start.cpu.step_counter ==> (if took_interrupt {
                    !self@.interrupts_enabled() && old_cpu.interrupts_enabled()
                } else {
                    self@.pc == old_cpu.pc && self@.interrupts_enabled()
                        == old_cpu.interrupts_enabled()
                }),
            ensures
                status == SliceStatus::Running ==> executed == budget && !self@.is_halted,
                status == SliceStatus::Halted ==> self@.is_halted,
                status == SliceStatus::Breakpoint ==> {
                    &&& watch_breakpoints && !self@.is_halted
                    &&& self@.breakpoints.contains(self@.pc)
                    &&& (self@.step_counter == start.cpu.step_counter ==> skip0 != Some(self@.pc))
                },
                status == SliceStatus::Trapped ==> {
                    &&& !self@.is_halted
                    &&& fails(trace.last(), hh, hf)
                    &&& failure is Some
                    &&& (watch_breakpoints && self@.breakpoints.contains(self@.pc)
                        ==> self@.step_counter == start.cpu.step_counter && skip0 == Some(
                        self@.pc,
                    ))
                },
            decreases budget - executed,
        {
            if self.is_halted {
                status = SliceStatus::Halted;
                break;
            }
            if executed >= budget {
                break;
            }
            // Poll for an external interrupt, then run until the next poll is
            // due. Making the poll interval the bound of the inner loop keeps
            // the per-instruction work down to one counter.
            let answer = self.host_interrupt_delay();
            let mut interrupt_delay = answer as u64;
            if interrupt_delay == 0 {
                interrupt_delay = 1000;
            }
            proof {
                let p = (self@.step_counter, interrupt_delay);
                assert((answer as u64 == 0) == (answer == 0)) by (bit_vector);
                assert(interrupt_delay == poll_interval(answer));
                lemma_poll_push(polls, start.cpu.step_counter, p.0, p.1, trace, hh, hf);
                assert((old_polls + polls).push(p) =~= old_polls + polls.push(p));
                polls = polls.push(p);
            }
            if self.host_interrupt_line_enabled() != 0 && self.interrupts_enabled() {
                let irq = self.host_external_interrupt();
                if irq != 0 {
                    let ghost before = Machine { cpu: self@, ram: mem.ram(), brk: mem.brk() };
                    self.handle_interrupt(irq);
                    proof {
                        let after = Machine { cpu: self@, ram: mem.ram(), brk: mem.brk() };
                        assert(after == Machine { cpu: interrupt_entry(before.cpu, irq), ..before });
                        assert(interrupted(before, after));
                        lemma_polled_push(trace, after, hh, hf, polls);
                        lemma_run_push(trace, after, hh, hf, watch_breakpoints, skip0);
                        trace = trace.push(after);
                        lemma_trap_disables(before.cpu.csr(MSTATUS));
                        took_interrupt = true;
                    }
                }
            }

            let remaining = budget - executed;
            let chunk = if interrupt_delay < remaining {
                interrupt_delay
            } else {
                remaining
            };
            let mut done: u64 = 0;
            let mut stopped: Option<SliceStatus> = None;

            while done < chunk
                invariant_except_break
                    watch_breakpoints && self@.step_counter == start.cpu.step_counter
                        ==> skip_breakpoint == skip0,
                    stopped is None,
                    failure is None,
                invariant
                    mem.inv(),
                    self.host == old(self).host,
                    self.fpu == old(self).fpu,
                    old_polls == old(self).interrupt_polls@,
                    self.interrupt_polls@ == old_polls + polls,
                    polls_spaced(polls, start.cpu.step_counter),
                    interrupts_at_polls(trace, hh, hf, polls),
                    polls.len() > 0,
                    self@.step_counter == polls.last().0 + done,
                    chunk <= polls.last().1,
                    chunk == polls.last().1 || executed + chunk == budget,
                    hh == (self.host is Some),
                    hf == (self.fpu is Some),
                    executed + chunk <= budget,
                    done <= chunk,
                    start.cpu.step_counter + budget <= u64::MAX,
                    self@.step_counter == start.cpu.step_counter + executed + done,
                    self@.resume_past_breakpoint is None,
                    self@.debug_enabled == start.cpu.debug_enabled,
                    self@.breakpoints == start.cpu.breakpoints,
                    watch_breakpoints == (start.cpu.debug_enabled
                        && !start.cpu.breakpoints.is_empty()),
                    skip0 == old_cpu.resume_past_breakpoint,
                    skip_breakpoint is Some ==> skip_breakpoint == skip0,
                    watch_breakpoints && skip_breakpoint is Some ==> self@.step_counter
                        == start.cpu.step_counter,
                    is_run(trace, hh, hf),
                    trace[0] == start,
                    trace.last() == (Machine { cpu: self@, ram: mem.ram(), brk: mem.brk() }),
                    forall|i: int|
                        0 <= i < trace.len() - 1 ==> #[trigger] passes_breakpoints(
                            trace,
                            hh,
                            hf,
                            watch_breakpoints,
                            skip0,
                            i,
                        ),
                    self@.step_counter == start.cpu.step_counter ==> (if took_interrupt {
                        !self@.interrupts_enabled() && old_cpu.interrupts_enabled()
                    } else {
                        self@.pc == old_cpu.pc && self@.interrupts_enabled()
                            == old_cpu.interrupts_enabled()
                    }),
                ensures
                    stopped is None ==> done == chunk,
                    failure is Some <==> stopped == Some(SliceStatus::Trapped),
                    stopped != Some(SliceStatus::Running),
                    stopped == Some(SliceStatus::Halted) ==> self@.is_halted,
                    stopped == Some(SliceStatus::Breakpoint) ==> {
                        &&& watch_breakpoints && !self@.is_halted
                        &&& self@.breakpoints.contains(self@.pc)
                        &&& (self@.step_counter == start.cpu.step_counter ==> skip0 != Some(self@.pc))
                    },
                    stopped == Some(SliceStatus::Trapped) ==> {
                        &&& !self@.is_halted
                        &&& fails(trace.last(), hh, hf)
                        &&& failure is Some
                        &&& (watch_breakpoints && self@.breakpoints.contains(self@.pc)
                            ==> self@.step_counter == start.cpu.step_counter && skip0 == Some(
                            self@.pc,
                        ))
                    },
                decreases chunk - done,
            {
                if self.is_halted {
                    stopped = Some(SliceStatus::Halted);
                    break;
                }

                if watch_breakpoints {
                    let pc = self.pc;
                    let resuming = match skip_breakpoint {
                        Some(p) => p == pc,
                        None => false,
                    };
                    if self.breakpoints.contains(&pc) && !resuming {
                        stopped = Some(SliceStatus::Breakpoint);
                        break;
                    }
                    // Only the first instruction of a slice may resume through a
                    // breakpoint that was already reported.
                    skip_breakpoint = None;
                }

                let ghost before = Machine { cpu: self@, ram: mem.ram(), brk: mem.brk() };
                let (result, compressed) = self.fetch_and_execute(mem);
                let ghost after = Machine { cpu: self@, ram: mem.ram(), brk: mem.brk() };
                proof {
                    let f = choose|f: Fetched|
                        instruction_at(before.ram, before.cpu.pc, f) && inst_effect(
                            before,
                            hh,
                            hf,
                            f,
                            after,
                            result,
                        );
                    lemma_inst_effect_frame(before, hh, hf, f, after, result);
                    assert(instruction_at(before.ram, before.cpu.pc, f));
                }
                match result {
                    Err(e) => {
                        // The faulting instruction is not counted, which matches the
                        // instruction total the run loop reported before slicing.
                        failure = Some((e, compressed));
                        stopped = Some(SliceStatus::Trapped);
                        break;
                    },
                    Ok(()) => {},
                }

                self.step_counter = self.step_counter + 1;
                done = done + 1;
                proof {
                    let next = Machine { cpu: self@, ram: mem.ram(), brk: mem.brk() };
                    assert(executes(before, hh, hf, next));
                    lemma_polled_push(trace, next, hh, hf, polls);
                    lemma_run_push(trace, next, hh, hf, watch_breakpoints, skip0);
                    trace = trace.push(next);
                }
            }

            executed = executed + done;
            match stopped {
                Some(st) => {
                    status = st;
                    break;
                },
                None => {},
            }
        }

        let ghost last = trace.last();
        if status == SliceStatus::Breakpoint {
            self.resume_past_breakpoint = Some(self.pc);
        } else if status == SliceStatus::Trapped {
            match failure {
                Some((e, compressed)) => self.report_trap(self.pc, &e, compressed),
                None => {},
            }
            self.trapped = true;
            self.exit_code = TRAP_EXIT_CODE;
            self.is_halted = true;
        }
        let o = SliceOutcome { status, steps: executed, pc: self.pc, exit_code: self.exit_code };
        proof {
            let end = Machine { cpu: self@, ram: mem.ram(), brk: mem.brk() };
            assert(self.interrupt_polls@.skip(old_polls.len() as int) =~= polls);
            assert(self.interrupt_polls@.take(old_polls.len() as int) =~= old_polls);
            assert(slice_polls(trace, hh, hf, polls));
            assert(slice_result(
                Machine { cpu: old_cpu, ram: start.ram, brk: start.brk },
                asked,
                hh,
                hf,
                trace,
                end,
                o,
            ));
        }
        o
    }

    /// Run to completion. The CLI and the batch entry points use it; the browser
    /// worker drives `run_slice` instead so it can answer messages during a run.
    ///
    /// The run also ends when the step counter can count no further.
    pub fn run<M: MemoryOps>(&mut self, mem: &mut M) -> (code: i32)
        requires
            old(mem).inv(),
        ensures
            final(mem).inv(),
            final(self).host == old(self).host,
            final(self).fpu == old(self).fpu,
            code == final(self)@.exit_code,
            exists|trace: Seq<Machine>|
                #[trigger] run_result(
                    Machine { cpu: old(self)@, ram: old(mem).ram(), brk: old(mem).brk() },
                    old(self).host is Some,
                    old(self).fpu is Some,
                    trace,
                    Machine { cpu: final(self)@, ram: final(mem).ram(), brk: final(mem).brk() },
                ),
    {
        let ghost hh = self.host is Some;
        let ghost hf = self.fpu is Some;
        let ghost before0 = Machine { cpu: self@, ram: mem.ram(), brk: mem.brk() };
        let ghost start = start_of(before0);
        let ghost mut trace: Seq<Machine> = seq![start];
        loop
            invariant_except_break
                trace.last() == start_of(Machine { cpu: self@, ram: mem.ram(), brk: mem.brk() }),
            invariant
                mem.inv(),
                self.host == old(self).host,
                self.fpu == old(self).fpu,
                hh == (self.host is Some),
                hf == (self.fpu is Some),
                before0 == (Machine { cpu: old(self)@, ram: old(mem).ram(), brk: old(mem).brk() }),
                start == start_of(before0),
                is_run(trace, hh, hf),
                trace[0] == start,
            ensures
                ({
                    ||| self@.step_counter == u64::MAX && is_run(trace, hh, hf) && trace[0] == start
                        && trace.last() == start_of(
                        Machine { cpu: self@, ram: mem.ram(), brk: mem.brk() },
                    )
                    ||| self@.is_halted && run_result(
                        before0,
                        hh,
                        hf,
                        trace,
                        Machine { cpu: self@, ram: mem.ram(), brk: mem.brk() },
                    )
                }),
            decreases u64::MAX - self.step_counter, slice_rank(self@),
        {
            let remaining = u64::MAX - self.step_counter;
            if remaining == 0 {
                break;
            }
            let budget: u32 = if remaining < 0xFFFF_FFFF {
                remaining as u32
            } else {
                0xFFFF_FFFF
            };
            let ghost before = self@;
            let outcome = self.run_slice(mem, budget);
            proof {
                let end = Machine { cpu: self@, ram: mem.ram(), brk: mem.brk() };
                let t = choose|t: Seq<Machine>|
                    #[trigger] slice_result(
                        Machine { cpu: before, ram: trace.last().ram, brk: trace.last().brk },
                        budget as u64,
                        hh,
                        hf,
                        t,
                        end,
                        outcome,
                    );
                law_runs_compose(trace, t, hh, hf);
                trace = trace + t.drop_first();
            }
            // A breakpoint cannot stall this loop: `run_slice` steps past an
            // already-reported breakpoint on the next call.
            if outcome.status == SliceStatus::Halted || outcome.status == SliceStatus::Trapped {
                break;
            }
        }
        let ghost last_cpu = self@;
        self.is_halted = true;
        proof {
            let end = Machine { cpu: self@, ram: mem.ram(), brk: mem.brk() };
            if last_cpu.is_halted {
                assert(end == Machine { cpu: last_cpu, ram: mem.ram(), brk: mem.brk() });
            }
            assert(run_result(before0, hh, hf, trace, end));
        }
        self.exit_code
    }
}

} // verus!
