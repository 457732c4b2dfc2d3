//! What the processor asks of the world around it: system-call services,
//! interrupt lines, console streams, and floating-point arithmetic.
//!
//! Nothing is promised of what an implementation returns; the processor's
//! contracts hold whatever comes back.
use crate::float::FloatOp;
use vstd::prelude::*;

verus! {

/// The host environment of a running guest.
pub trait Host {
    /// A system call offered to the host before the built-in ones; a nonzero
    /// answer means the host handled it and is the value for `a0`.
    fn custom_syscall(&self, a0: i32, a1: i32, a2: i32, a3: i32, a7: i32) -> i32;

    /// How many instructions run between two interrupt polls (0: the default).
    fn interrupt_delay(&self) -> i32;

    /// Nonzero when the host delivers external interrupts at all.
    fn interrupt_line_enabled(&self) -> i32;

    /// The pending external interrupt number, or 0 for none.
    fn external_interrupt(&self) -> i32;

    /// Up to `count` bytes of standard input.
    fn read_stdin(&self, count: u32) -> Vec<u8>;

    /// Guest output to standard output.
    fn write_stdout(&self, bytes: &[u8]);

    /// Guest output to standard error, byte for byte.
    fn write_stderr(&self, bytes: &[u8]);

    /// A diagnostic message of the simulator itself.
    fn print_err(&self, msg: &str);

    /// A system call that neither the host nor the simulator knows.
    fn notify_unknown_syscall(&self, sys_num: u32, a0: u32, a1: u32, a2: u32, a3: u32);
}

/// A request a system call makes of the host.
pub enum HostRequest {
    /// The call offered to the host: `a0`, `a1`, `a2`, `a3`, `a7`.
    CustomSyscall(i32, i32, i32, i32, i32),
    /// Standard input asked for, at most this many bytes.
    ReadStdin(u32),
    /// Bytes written to standard output.
    WriteStdout(Seq<u8>),
    /// Bytes written to standard error.
    WriteStderr(Seq<u8>),
}

/// Floating-point arithmetic on IEEE-754 bit patterns.
///
/// Single-precision operands and results sit in the low 32 bits; integer
/// results of comparisons and conversions sit in the low 32 bits too.
pub trait FloatUnit {
    fn compute(&self, op: FloatOp, a: u64, b: u64, c: u64) -> u64;
}

} // verus!
