pub mod cli;
pub mod compressed;
pub mod cpu;
pub mod disasm;
pub mod execute;
pub mod float;
pub mod host;
pub mod inst;
pub mod isa;
pub mod loader;
pub mod memory;
pub mod report;
pub mod run;
pub mod simulator;
pub mod syscall;
pub mod system;
pub mod text;
pub mod utils;

pub use cpu::{Cpu, CpuError, StepResult};
pub use inst::{DecodedInst16, DecodedInst32};
pub use memory::{Memory, MemoryOps};
pub use utils::{shift_then_mask, ShiftThenMask};
pub use run::{SliceOutcome, SliceStatus};
pub use simulator::{is_call_instruction, run_riscv_binary, DebuggerSnapshot, Simulator};
