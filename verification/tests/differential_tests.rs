//! The simulator's side of the differential runs: the same programs and
//! starting state, stepped instruction by instruction, every step of which
//! must execute.
use riscv_rs::float::FloatOp;
use riscv_rs::host::FloatUnit;
use riscv_rs::{Cpu, Memory, MemoryOps};

/// Base address of the data region loads and stores use; `x10` points here.
const DATA_BASE: u32 = 0x10000;

/// Largest forward displacement a jump or branch of a program can take.
const MAX_BRANCH_BYTES: u32 = 16;

/// `nop` (`addi x0, x0, 0`), used to pad the image past the program.
const NOP: u32 = 0x0000_0013;

/// Floating-point arithmetic done by the machine running the tests.
struct NativeFpu;

fn single(x: u64) -> f32 {
    f32::from_bits(x as u32)
}

fn double(x: u64) -> f64 {
    f64::from_bits(x)
}

fn from_single(v: f32) -> u64 {
    v.to_bits() as u64
}

fn flag(t: bool) -> u64 {
    t as u64
}

fn min_s(x: f32, y: f32) -> f32 {
    if x.is_nan() {
        y
    } else if y.is_nan() {
        x
    } else {
        x.min(y)
    }
}

fn max_s(x: f32, y: f32) -> f32 {
    if x.is_nan() {
        y
    } else if y.is_nan() {
        x
    } else {
        x.max(y)
    }
}

fn min_d(x: f64, y: f64) -> f64 {
    if x.is_nan() {
        y
    } else if y.is_nan() {
        x
    } else {
        x.min(y)
    }
}

fn max_d(x: f64, y: f64) -> f64 {
    if x.is_nan() {
        y
    } else if y.is_nan() {
        x
    } else {
        x.max(y)
    }
}

impl FloatUnit for NativeFpu {
    fn compute(&self, op: FloatOp, a: u64, b: u64, c: u64) -> u64 {
        let (sa, sb, sc) = (single(a), single(b), single(c));
        let (da, db, dc) = (double(a), double(b), double(c));
        match op {
            FloatOp::AddS => from_single(sa + sb),
            FloatOp::SubS => from_single(sa - sb),
            FloatOp::MulS => from_single(sa * sb),
            FloatOp::DivS => from_single(sa / sb),
            FloatOp::SqrtS => from_single(sa.sqrt()),
            FloatOp::MinS => from_single(min_s(sa, sb)),
            FloatOp::MaxS => from_single(max_s(sa, sb)),
            FloatOp::LeS => flag(sa <= sb),
            FloatOp::LtS => flag(sa < sb),
            FloatOp::EqS => flag(sa == sb),
            FloatOp::CvtWS => (sa as i32 as u32) as u64,
            FloatOp::CvtWuS => (sa as u32) as u64,
            FloatOp::CvtSW => from_single((a as u32 as i32) as f32),
            FloatOp::CvtSWu => from_single(a as u32 as f32),
            FloatOp::CvtSD => from_single(da as f32),
            FloatOp::AddD => (da + db).to_bits(),
            FloatOp::SubD => (da - db).to_bits(),
            FloatOp::MulD => (da * db).to_bits(),
            FloatOp::DivD => (da / db).to_bits(),
            FloatOp::SqrtD => da.sqrt().to_bits(),
            FloatOp::MinD => min_d(da, db).to_bits(),
            FloatOp::MaxD => max_d(da, db).to_bits(),
            FloatOp::LeD => flag(da <= db),
            FloatOp::LtD => flag(da < db),
            FloatOp::EqD => flag(da == db),
            FloatOp::CvtWD => (da as i32 as u32) as u64,
            FloatOp::CvtWuD => (da as u32) as u64,
            FloatOp::CvtDW => ((a as u32 as i32) as f64).to_bits(),
            FloatOp::CvtDWu => (a as u32 as f64).to_bits(),
            FloatOp::CvtDS => (sa as f64).to_bits(),
            FloatOp::MaddS => from_single((sa * sb) + sc),
            FloatOp::MsubS => from_single((sa * sb) - sc),
            FloatOp::NmsubS => from_single(-((sa * sb) - sc)),
            FloatOp::NmaddS => from_single(-((sa * sb) + sc)),
            FloatOp::MaddD => ((da * db) + dc).to_bits(),
            FloatOp::MsubD => ((da * db) - dc).to_bits(),
            FloatOp::NmsubD => (-((da * db) - dc)).to_bits(),
            FloatOp::NmaddD => (-((da * db) + dc)).to_bits(),
        }
    }
}

fn rvc(op: u16, funct3: u16, fields: &[(u16, u32, u32)]) -> u16 {
    let mut inst = op | (funct3 << 13);
    for &(val, hi, lo) in fields {
        let width = hi - lo + 1;
        let mask = ((1u32 << width) - 1) as u16;
        inst |= (val & mask) << lo;
    }
    inst
}

/// Two compressed instructions packed into one 4-byte image word.
fn rvc_pair(lo: u16, hi: u16) -> u32 {
    ((hi as u32) << 16) | (lo as u32)
}

/// The image the program runs from, padded with `nop`s, and the number of
/// instructions in the program.
fn build_program(body: &[u32]) -> (Vec<u32>, usize) {
    let mut bytes = Vec::with_capacity(body.len() * 4);
    for &word in body {
        bytes.extend_from_slice(&word.to_le_bytes());
    }
    let mut instruction_count = 0usize;
    let mut offset = 0usize;
    while offset + 1 < bytes.len() {
        let half = u16::from_le_bytes([bytes[offset], bytes[offset + 1]]);
        offset += if (half & 0x3) == 0x3 { 4 } else { 2 };
        instruction_count += 1;
    }
    let pad_words = (MAX_BRANCH_BYTES as usize / 4) * instruction_count + 8;
    let mut words = body.to_vec();
    words.extend(std::iter::repeat_n(NOP, pad_words));
    (words, instruction_count)
}

/// Step the program from the starting state; every step must execute.
fn run_program(instructions: &[u32]) -> Cpu {
    let (words, num_insts) = build_program(instructions);
    let mut cpu = Cpu::new();
    cpu.fpu = Some(Box::new(NativeFpu));
    let mut mem = Memory::new();
    for i in 1..32 {
        cpu.write_reg(i, (i as u32) * 0x01010101);
    }
    cpu.write_reg(10, DATA_BASE);
    for i in 0..32 {
        cpu.fregs[i] = 0xFFFFFFFF00000000 | (0x3F800000 + (i as u64) * 0x1000);
    }
    for (i, &inst) in words.iter().enumerate() {
        mem.write_u32((i * 4) as u32, inst);
    }
    cpu.pc = 0;
    for step in 0..num_insts {
        let pc = cpu.pc;
        let half = mem.read_u16(pc);
        let result = if (half & 0x3) != 0x3 {
            cpu.execute_inst16(half, &mut mem)
        } else {
            cpu.execute_inst32(mem.read_u32(pc), &mut mem)
        };
        if let Err(e) = result {
            panic!(
                "CPU execution error on step {} at PC {:#010x} (raw {:#010x}): {}",
                step,
                pc,
                mem.read_u32(pc),
                e.message()
            );
        }
    }
    cpu
}

#[test]
fn test_failing_ci_sequence() {
    let instructions = vec![
        33554627, 34941991, 63250563, 59058435, 1782843719, 1631338131, 1141073939, 48570915,
        289540691, 548836435,
    ];
    run_program(&instructions);
}

/// `c.addi16sp sp, -16` must move the stack pointer by exactly -16.
#[test]
fn test_differential_addi16sp_scaling() {
    let c_addi16sp_minus_16 = rvc(
        1,
        3,
        &[
            (1, 12, 12),
            (2, 11, 7),
            (1, 6, 6),
            (1, 5, 5),
            (3, 4, 3),
            (1, 2, 2),
        ],
    );
    let c_nop = rvc(1, 0, &[]);
    let cpu = run_program(&[rvc_pair(c_addi16sp_minus_16, c_nop); 4]);
    assert_eq!(cpu.read_reg(2), 2 * 0x01010101 - 4 * 16);
}
