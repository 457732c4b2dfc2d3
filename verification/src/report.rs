//! The text of execution errors, as the host shows them.
use crate::cpu::CpuError;
use crate::syscall::UnknownSyscall;
use crate::text::{dec_digits, hex_text, int_text, push_dec, push_hex, push_int, push_str};
use vstd::prelude::*;

verus! {

/// The description of an unknown system call: its number, then its first
/// four arguments in hexadecimal.
pub open spec fn syscall_args_text(u: UnknownSyscall) -> Seq<char> {
    dec_digits(u.sys_num as nat) + " (a0: "@ + hex_text(u.a0 as nat, 0) + ", a1: "@ + hex_text(
        u.a1 as nat,
        0,
    ) + ", a2: "@ + hex_text(u.a2 as nat, 0) + ", a3: "@ + hex_text(u.a3 as nat, 0) + ")"@
}

/// The message of an execution error.
pub open spec fn error_text(e: CpuError) -> Seq<char> {
    match e {
        CpuError::IllegalInstruction { pc, raw } => "Illegal instruction "@ + hex_text(raw as nat, 8)
            + " at PC "@ + hex_text(pc as nat, 8),
        CpuError::UnknownOpcode { pc, opcode } => "Unknown opcode "@ + hex_text(opcode as nat, 2)
            + " at PC "@ + hex_text(pc as nat, 8),
        CpuError::UnalignedAccess { pc, addr } => "Unaligned memory access at "@ + hex_text(
            addr as nat,
            8,
        ) + " (PC "@ + hex_text(pc as nat, 8) + ")"@,
        CpuError::MemoryFault { pc, addr } => "Memory fault at address "@ + hex_text(addr as nat, 8)
            + " (PC "@ + hex_text(pc as nat, 8) + ")"@,
        CpuError::UnhandledSyscall { pc, number } => "Unhandled syscall "@ + int_text(number as int)
            + " at PC "@ + hex_text(pc as nat, 8),
        CpuError::UnknownSyscall(u) => "Unknown syscall "@ + syscall_args_text(u),
        CpuError::ExecutionError(msg) => msg@,
    }
}

/// The line reported to the host when the instruction at `pc` fails with `e`;
/// `compressed` says whether it was a compressed instruction.
pub open spec fn trap_report_text(pc: u32, e: CpuError, compressed: bool) -> Seq<char> {
    match e {
        CpuError::UnknownSyscall(u) => "Unknown Syscall: "@ + syscall_args_text(u) + "\n"@,
        _ => (if compressed {
            "CPU Exec Error (Compressed) at PC "@
        } else {
            "CPU Exec Error at PC "@
        }) + hex_text(pc as nat, 8) + ": "@ + error_text(e) + "\n"@,
    }
}

fn push_syscall_args(s: &mut String, u: &UnknownSyscall)
    ensures
        final(s)@ == old(s)@ + syscall_args_text(*u),
{
    let ghost start = s@;
    push_dec(s, u.sys_num as u64);
    push_str(s, " (a0: ");
    push_hex(s, u.a0 as u64, 0);
    push_str(s, ", a1: ");
    push_hex(s, u.a1 as u64, 0);
    push_str(s, ", a2: ");
    push_hex(s, u.a2 as u64, 0);
    push_str(s, ", a3: ");
    push_hex(s, u.a3 as u64, 0);
    push_str(s, ")");
    assert(s@ =~= start + syscall_args_text(*u));
}

fn push_error(s: &mut String, e: &CpuError)
    ensures
        final(s)@ == old(s)@ + error_text(*e),
{
    let ghost start = s@;
    match e {
        CpuError::IllegalInstruction { pc, raw } => {
            push_str(s, "Illegal instruction ");
            push_hex(s, *raw as u64, 8);
            push_str(s, " at PC ");
            push_hex(s, *pc as u64, 8);
        },
        CpuError::UnknownOpcode { pc, opcode } => {
            push_str(s, "Unknown opcode ");
            push_hex(s, *opcode as u64, 2);
            push_str(s, " at PC ");
            push_hex(s, *pc as u64, 8);
        },
        CpuError::UnalignedAccess { pc, addr } => {
            push_str(s, "Unaligned memory access at ");
            push_hex(s, *addr as u64, 8);
            push_str(s, " (PC ");
            push_hex(s, *pc as u64, 8);
            push_str(s, ")");
        },
        CpuError::MemoryFault { pc, addr } => {
            push_str(s, "Memory fault at address ");
            push_hex(s, *addr as u64, 8);
            push_str(s, " (PC ");
            push_hex(s, *pc as u64, 8);
            push_str(s, ")");
        },
        CpuError::UnhandledSyscall { pc, number } => {
            push_str(s, "Unhandled syscall ");
            push_int(s, *number as i64);
            push_str(s, " at PC ");
            push_hex(s, *pc as u64, 8);
        },
        CpuError::UnknownSyscall(u) => {
            push_str(s, "Unknown syscall ");
            push_syscall_args(s, u);
        },
        CpuError::ExecutionError(msg) => {
            push_str(s, msg.as_str());
        },
    }
    assert(s@ =~= start + error_text(*e));
}

impl CpuError {
    /// The human-readable description of the error.
    pub fn message(&self) -> (r: String)
        ensures
            r@ == error_text(*self),
    {
        let mut s = String::new();
        push_error(&mut s, self);
        proof {
            assert(s@ =~= error_text(*self));
        }
        s
    }
}

/// The line reported to the host when the instruction at `pc` fails with `e`.
pub fn trap_report(pc: u32, e: &CpuError, compressed: bool) -> (r: String)
    ensures
        r@ == trap_report_text(pc, *e, compressed),
{
    let mut s = String::new();
    match e {
        CpuError::UnknownSyscall(u) => {
            push_str(&mut s, "Unknown Syscall: ");
            push_syscall_args(&mut s, u);
            push_str(&mut s, "\n");
        },
        _ => {
            if compressed {
                push_str(&mut s, "CPU Exec Error (Compressed) at PC ");
            } else {
                push_str(&mut s, "CPU Exec Error at PC ");
            }
            push_hex(&mut s, pc as u64, 8);
            push_str(&mut s, ": ");
            push_error(&mut s, e);
            push_str(&mut s, "\n");
        },
    }
    proof {
        assert(s@ =~= trap_report_text(pc, *e, compressed));
    }
    s
}

} // verus!
