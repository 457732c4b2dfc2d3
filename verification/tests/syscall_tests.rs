use riscv_rs::syscall::{handle_ecall, UnknownSyscall};
use riscv_rs::{Cpu, Memory, MemoryOps};

#[test]
fn test_unknown_syscall_returns_error() {
    let mut cpu = Cpu::new();
    let mut mem = Memory::new();

    cpu.write_reg(17, 999); // Unknown syscall number
    cpu.write_reg(10, 0x11); // a0
    cpu.write_reg(11, 0x22); // a1
    cpu.write_reg(12, 0x33); // a2
    cpu.write_reg(13, 0x44); // a3

    let result = handle_ecall(&mut cpu, &mut mem);
    assert_eq!(
        result,
        Err(UnknownSyscall {
            sys_num: 999,
            a0: 0x11,
            a1: 0x22,
            a2: 0x33,
            a3: 0x44,
        })
    );
}

#[test]
fn exit_halts_with_the_code_in_a0() {
    let mut cpu = Cpu::new();
    let mut mem = Memory::new();
    cpu.write_reg(17, 93);
    cpu.write_reg(10, 42);
    assert_eq!(handle_ecall(&mut cpu, &mut mem), Ok(()));
    assert!(cpu.is_halted);
    assert_eq!(cpu.exit_code, 42);
}

#[test]
fn brk_reports_the_program_break() {
    let mut cpu = Cpu::new();
    let mut mem = Memory::new();
    let before = mem.get_brk();
    cpu.write_reg(17, 214);
    cpu.write_reg(10, 0);
    assert_eq!(handle_ecall(&mut cpu, &mut mem), Ok(()));
    assert_eq!(cpu.read_reg(10), before);
}

#[test]
fn write_without_a_host_answers_the_byte_count() {
    let mut cpu = Cpu::new();
    let mut mem = Memory::new();
    mem.write_bytes(0x2000, b"hi");
    cpu.write_reg(17, 64);
    cpu.write_reg(10, 1);
    cpu.write_reg(11, 0x2000);
    cpu.write_reg(12, 2);
    assert_eq!(handle_ecall(&mut cpu, &mut mem), Ok(()));
    assert_eq!(cpu.read_reg(10), 2);
}

#[test]
fn noop_calls_answer_zero() {
    for n in [57u32, 62, 80] {
        let mut cpu = Cpu::new();
        let mut mem = Memory::new();
        cpu.write_reg(17, n);
        cpu.write_reg(10, 7);
        assert_eq!(handle_ecall(&mut cpu, &mut mem), Ok(()));
        assert_eq!(cpu.read_reg(10), 0);
    }
}

use riscv_rs::memory::DEFAULT_BRK;
use riscv_rs::syscall::finish_ecall;

#[test]
fn a_host_answer_takes_the_place_of_the_call() {
    let mut cpu = Cpu::new();
    let mut mem = Memory::new();
    cpu.write_reg(17, 93);
    cpu.write_reg(10, 3);
    let (r, out) = finish_ecall(&mut cpu, &mut mem, 7, &[]);
    assert_eq!(r, Ok(()));
    assert!(out.is_none());
    assert_eq!(cpu.read_reg(10), 7);
    assert!(!cpu.is_halted);
}

#[test]
fn a_read_copies_the_input_into_the_buffer() {
    let mut cpu = Cpu::new();
    let mut mem = Memory::new();
    cpu.write_reg(17, 63);
    cpu.write_reg(11, 0x3000);
    cpu.write_reg(12, 4);
    let (r, out) = finish_ecall(&mut cpu, &mut mem, 0, b"hello");
    assert_eq!(r, Ok(()));
    assert!(out.is_none());
    assert_eq!(cpu.read_reg(10), 4);
    assert_eq!(mem.read_bytes(0x3000, 5), b"hell\0".to_vec());
}

#[test]
fn a_write_to_stdout_hands_over_the_bytes_without_trailing_zeros() {
    let mut cpu = Cpu::new();
    let mut mem = Memory::new();
    mem.write_bytes(0x2000, b"ok\0\0");
    cpu.write_reg(17, 64);
    cpu.write_reg(10, 1);
    cpu.write_reg(11, 0x2000);
    cpu.write_reg(12, 4);
    let (r, out) = finish_ecall(&mut cpu, &mut mem, 0, &[]);
    assert_eq!(r, Ok(()));
    assert_eq!(out, Some((1, b"ok".to_vec())));
    assert_eq!(cpu.read_reg(10), 4);
    cpu.write_reg(10, 5);
    let (_, out) = finish_ecall(&mut cpu, &mut mem, 0, &[]);
    assert_eq!(out, None);
}

#[test]
fn brk_moves_the_break_only_to_an_accepted_value() {
    let mut cpu = Cpu::new();
    let mut mem = Memory::new();
    cpu.write_reg(17, 214);
    cpu.write_reg(10, DEFAULT_BRK + 0x1000);
    finish_ecall(&mut cpu, &mut mem, 0, &[]);
    assert_eq!(cpu.read_reg(10), DEFAULT_BRK + 0x1000);
    assert_eq!(mem.get_brk(), DEFAULT_BRK + 0x1000);
    cpu.write_reg(10, 5);
    finish_ecall(&mut cpu, &mut mem, 0, &[]);
    assert_eq!(cpu.read_reg(10), DEFAULT_BRK + 0x1000);
}
