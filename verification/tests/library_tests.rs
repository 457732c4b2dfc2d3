use riscv_rs::cli::SimConfig;
use riscv_rs::disasm::{format_target, freg_name, reg_name, Disassembler};
use riscv_rs::report::trap_report;
use riscv_rs::syscall::UnknownSyscall;
use riscv_rs::{is_call_instruction, Cpu, CpuError, Memory, MemoryOps, Simulator, SliceStatus, StepResult};
use std::collections::HashMap;

const ECALL: u32 = 0x0000_0073;

fn addi(rd: u32, rs1: u32, imm: i32) -> u32 {
    (((imm as u32) & 0xFFF) << 20) | (rs1 << 15) | (rd << 7) | 0x13
}

fn le_bytes(words: &[u32]) -> Vec<u8> {
    words.iter().flat_map(|w| w.to_le_bytes()).collect()
}

fn strings(args: &[&str]) -> Vec<String> {
    args.iter().map(|s| s.to_string()).collect()
}

/// A linked 32-bit RISC-V ELF file with one loadable segment holding `code`
/// at `vaddr`, which is also the entry point.
fn tiny_elf(vaddr: u32, code: &[u8]) -> Vec<u8> {
    let mut f = Vec::new();
    f.extend_from_slice(&[0x7f, b'E', b'L', b'F', 1, 1, 1, 0, 0, 0, 0, 0, 0, 0, 0, 0]);
    f.extend_from_slice(&2u16.to_le_bytes()); // executable
    f.extend_from_slice(&243u16.to_le_bytes()); // RISC-V
    f.extend_from_slice(&1u32.to_le_bytes());
    f.extend_from_slice(&vaddr.to_le_bytes()); // entry
    f.extend_from_slice(&52u32.to_le_bytes()); // program headers
    f.extend_from_slice(&0u32.to_le_bytes()); // section headers
    f.extend_from_slice(&0u32.to_le_bytes());
    f.extend_from_slice(&52u16.to_le_bytes());
    f.extend_from_slice(&32u16.to_le_bytes());
    f.extend_from_slice(&1u16.to_le_bytes());
    f.extend_from_slice(&40u16.to_le_bytes());
    f.extend_from_slice(&0u16.to_le_bytes());
    f.extend_from_slice(&0u16.to_le_bytes());
    let size = code.len() as u32;
    for v in [1u32, 84, vaddr, vaddr, size, size, 5, 4] {
        f.extend_from_slice(&v.to_le_bytes());
    }
    f.extend_from_slice(code);
    f
}

#[test]
fn a_word_reads_back_what_was_written() {
    let mut mem = Memory::new();
    mem.write_u32(0x1234, 0xCAFE_F00D);
    assert_eq!(mem.read_u32(0x1234), 0xCAFE_F00D);
    assert_eq!(mem.read_u16(0x1234), 0xF00D);
    assert_eq!(mem.read_u8(0x1237), 0xCA);
    mem.write_u16(0x1234, 0x1111);
    assert_eq!(mem.read_u32(0x1234), 0xCAFE_1111);
    mem.write_u8(0x1236, 0x22);
    assert_eq!(mem.read_u32(0x1234), 0xCA22_1111);
}

#[test]
fn bytes_written_across_pages_read_back() {
    let mut mem = Memory::new();
    let data: Vec<u8> = (0..=255).collect();
    mem.write_bytes(0xFF80, &data);
    assert_eq!(mem.read_bytes(0xFF80, 256), data);
    assert_eq!(mem.read_u8(0x1_0000), 0x80);
}

#[test]
fn x0_stays_zero_through_a_run() {
    let mut cpu = Cpu::new();
    let mut mem = Memory::new();
    let program = [addi(0, 0, 5), addi(1, 0, 3), addi(17, 0, 93), addi(10, 0, 0), ECALL];
    mem.write_bytes(0x1000, &le_bytes(&program));
    cpu.pc = 0x1000;
    let code = cpu.run(&mut mem);
    assert_eq!(code, 0);
    assert_eq!(cpu.read_reg(0), 0);
    assert_eq!(cpu.regs[0], 0);
    assert_eq!(cpu.read_reg(1), 3);
}

#[test]
fn a_slice_then_a_run_ends_where_a_whole_run_ends() {
    let program = [addi(5, 0, 4), addi(5, 5, -1), 0xFE029EE3, addi(17, 0, 93), addi(10, 0, 9), ECALL];
    let mut whole = Cpu::new();
    let mut whole_mem = Memory::new();
    whole_mem.write_bytes(0x1000, &le_bytes(&program));
    whole.pc = 0x1000;
    let whole_code = whole.run(&mut whole_mem);

    let mut split = Cpu::new();
    let mut split_mem = Memory::new();
    split_mem.write_bytes(0x1000, &le_bytes(&program));
    split.pc = 0x1000;
    let first = split.run_slice(&mut split_mem, 3);
    assert_eq!(first.status, SliceStatus::Running);
    assert_eq!(first.steps, 3);
    let split_code = split.run(&mut split_mem);

    assert_eq!(whole_code, 9);
    assert_eq!(split_code, whole_code);
    assert_eq!(split.regs, whole.regs);
    assert_eq!(split.pc, whole.pc);
    assert_eq!(split.step_counter, whole.step_counter);
}

#[test]
fn mret_after_an_interrupt_resumes_the_interrupted_program() {
    let mut cpu = Cpu::new();
    let mut mem = Memory::new();
    cpu.csrs.insert(0x305, 0x8000);
    cpu.csrs.insert(0x300, 1 << 3);
    cpu.pc = 0x1234;
    cpu.write_reg(7, 77);
    cpu.handle_interrupt(3);
    assert_eq!(cpu.pc, 0x8000);
    assert!(!cpu.interrupts_enabled());
    assert!(cpu.execute_inst32(0x30200073, &mut mem).is_ok());
    assert_eq!(cpu.pc, 0x1234);
    assert!(cpu.interrupts_enabled());
    assert_eq!(cpu.read_reg(7), 77);
}

#[test]
fn an_illegal_instruction_stops_the_run_with_the_trap_code() {
    let mut cpu = Cpu::new();
    let mut mem = Memory::new();
    cpu.pc = 0x2000;
    let code = cpu.run(&mut mem);
    assert_eq!(code, 134);
    assert!(cpu.trapped);
    assert!(cpu.is_halted);
    assert_eq!(cpu.pc, 0x2000);
}

#[test]
fn a_raw_image_loads_at_address_zero() {
    let mut sim = Simulator::new();
    let bytes = le_bytes(&[addi(17, 0, 93), addi(10, 0, 3), ECALL]);
    let entry = sim.load_binary_with_args(&bytes, &[]);
    assert_eq!(entry, 0);
    assert_eq!(sim.read_memory_range(0, 12), bytes);
    assert_eq!(sim.get_snapshot(false, 0).pc, 0);
    assert_eq!(sim.run_full(), 3);
}

#[test]
fn an_elf_program_loads_at_its_segment_and_starts_at_its_entry() {
    let code = le_bytes(&[addi(17, 0, 93), ECALL]);
    let elf = tiny_elf(0x1_0000, &code);
    let mut sim = Simulator::new();
    let entry = sim.load_binary_with_args(&elf, &strings(&["--setreg", "a0=5"]));
    assert_eq!(entry, 0x1_0000);
    assert_eq!(sim.read_memory_range(0x1_0000, 8), code);
    // Nothing of the file's header is copied to address 0.
    assert_eq!(sim.read_memory_range(0, 4), vec![0, 0, 0, 0]);
    let snap = sim.get_snapshot(false, 0);
    assert_eq!(snap.pc, 0x1_0000);
    assert_eq!(snap.gpr[10], 5);
    assert_eq!(sim.run_full(), 5);
}

#[test]
fn loading_resets_the_machine_but_keeps_the_custom_syscall_flag() {
    let mut sim = Simulator::new();
    sim.set_has_custom_syscalls(true);
    sim.write_register(9, 99);
    sim.write_memory_byte(0x4000, 7);
    sim.load_binary_with_args(&[0x13, 0, 0, 0], &strings(&["--setreg=x9=0x10"]));
    assert!(sim.has_custom_syscalls());
    let snap = sim.get_snapshot(false, 0);
    assert_eq!(snap.gpr[9], 0x10);
    assert_eq!(snap.gpr[2], 0x7FFFFFC);
    assert_eq!(snap.step_count, 0);
    assert_eq!(sim.read_memory_range(0x4000, 1), vec![0]);
}

#[test]
fn the_debugger_stops_at_a_breakpoint_and_steps_past_it() {
    let mut sim = Simulator::new();
    let program = [addi(5, 0, 1), addi(6, 0, 2), addi(17, 0, 93), addi(10, 0, 4), ECALL];
    sim.load_binary_with_args(&le_bytes(&program), &[]);
    sim.set_debug_mode(true);
    sim.add_breakpoint(4);

    let hit = sim.run_until_breakpoint();
    assert!(hit.is_breakpoint);
    assert_eq!(hit.hit_address, 4);
    assert_eq!(hit.pc, 4);
    assert_eq!(hit.gpr[5], 1);

    let step = sim.debug_step();
    assert!(!step.is_breakpoint);
    assert_eq!(step.pc, 8);
    assert_eq!(step.gpr[6], 2);

    let end = sim.run_until_breakpoint();
    assert!(end.is_halted);
    assert!(!end.is_breakpoint);
    assert_eq!(end.exit_code, 4);
}

#[test]
fn stepping_over_a_call_runs_to_the_next_instruction() {
    let mut sim = Simulator::new();
    // 0: jal ra, 12 ; 4: addi x6, x0, 6 ; 8: ebreak ; 12: addi x5, x0, 5 ; 16: ret
    let jal_ra_12 = (12u32 >> 1 & 0x3FF) << 21 | (1 << 7) | 0x6F;
    let program = [jal_ra_12, addi(6, 0, 6), 0x0010_0073, addi(5, 0, 5), 0x0000_8067];
    sim.load_binary_with_args(&le_bytes(&program), &[]);
    sim.set_debug_mode(true);
    let snap = sim.debug_step_over();
    assert_eq!(snap.pc, 4);
    assert!(snap.is_breakpoint);
    assert_eq!(snap.gpr[5], 5);
    assert_eq!(snap.gpr[6], 0);
}

#[test]
fn breakpoints_can_be_removed_and_cleared() {
    let mut sim = Simulator::new();
    let program = [addi(5, 0, 1), addi(17, 0, 93), addi(10, 0, 0), ECALL];
    sim.load_binary_with_args(&le_bytes(&program), &[]);
    sim.set_debug_mode(true);
    sim.add_breakpoint(4);
    sim.add_breakpoint(8);
    sim.remove_breakpoint(4);
    let hit = sim.run_until_breakpoint();
    assert_eq!(hit.hit_address, 8);
    sim.clear_breakpoints();
    let end = sim.run_until_breakpoint();
    assert!(end.is_halted);
}

#[test]
fn disassembly_lists_words_and_halfwords() {
    let mut sim = Simulator::new();
    let mut bytes = le_bytes(&[addi(1, 0, 5)]);
    bytes.extend_from_slice(&0x40BDu16.to_le_bytes());
    sim.load_binary_with_args(&bytes, &[]);
    let list = sim.disassemble_range(0, 6);
    assert_eq!(list.len(), 2);
    assert_eq!(list[0].address, 0);
    assert_eq!(list[0].asm_text, "li ra, 5");
    assert_eq!(list[0].opcode_hex, "00500093");
    assert!(!list[0].is_compressed);
    assert_eq!(list[1].address, 4);
    assert_eq!(list[1].asm_text, "c.li ra, 15");
    assert_eq!(list[1].opcode_hex, "40bd");
    assert!(list[1].is_compressed);
}

#[test]
fn instructions_disassemble_to_their_assembly() {
    let d = Disassembler::decode_instruction(0x1000, 0x0000_8067);
    assert_eq!(d.asm_text, "ret");
    let d = Disassembler::decode_instruction(0x1000, 0x0000_0013);
    assert_eq!(d.asm_text, "nop");
    let d = Disassembler::decode_instruction(0x1000, 0x0000_0073);
    assert_eq!(d.asm_text, "ecall");
    let d = Disassembler::decode_instruction(0x1000, 0x4020_82B3);
    assert_eq!(d.asm_text, "sub t0, ra, sp");
    let j16 = (16u32 >> 1 & 0x3FF) << 21 | 0x6F;
    let d = Disassembler::decode_instruction(0x1000, j16);
    assert_eq!(d.asm_text, "j 0x1010");
    assert_eq!(d.label, None);
    let mut symbols = HashMap::new();
    symbols.insert(0x1010u32, "loop".to_string());
    symbols.insert(0x1000u32, "start".to_string());
    let d = Disassembler::decode_instruction_with_symbols(0x1000, j16, Some(&symbols));
    assert_eq!(d.asm_text, "j 0x1010 <loop>");
    assert_eq!(d.label, Some("start".to_string()));
    assert_eq!(format_target(0x1010, Some(&symbols)), "0x1010 <loop>");
    assert_eq!(format_target(0x2000, None), "0x2000");
}

#[test]
fn register_names_follow_the_abi() {
    assert_eq!(reg_name(0), "zero");
    assert_eq!(reg_name(2), "sp");
    assert_eq!(reg_name(10), "a0");
    assert_eq!(reg_name(31), "t6");
    assert_eq!(reg_name(33), "ra");
    assert_eq!(freg_name(8), "fs0");
    assert_eq!(freg_name(31), "ft11");
}

#[test]
fn calls_are_recognised() {
    assert!(is_call_instruction(0x0040_00EF)); // jal ra, 4
    assert!(!is_call_instruction(0x0040_006F)); // j 4
    assert!(is_call_instruction(0x0000_80E7)); // jalr ra, 0(ra)
    assert!(!is_call_instruction(0x0000_8067)); // ret
    assert!(is_call_instruction(0x2001)); // c.jal
    assert!(is_call_instruction(0x9082)); // c.jalr ra
    assert!(!is_call_instruction(0x8082)); // c.jr ra
}

#[test]
fn command_lines_are_read() {
    let c = SimConfig::parse_args(&strings(&[
        "--setreg", "sp=0x100", "--setreg=x31=7", "--setreg", "x32=1", "--isa", "rv32gc",
        "--interactive", "-n", "prog.elf",
    ]));
    assert_eq!(c.register_inits, vec![(2, 0x100), (31, 7)]);
    assert_eq!(c.isa_string, "rv32gc");
    assert!(c.is_interactive);
    assert!(c.is_newlib);
    assert_eq!(c.binary_path, Some("prog.elf".to_string()));

    let c = SimConfig::parse_args(&strings(&["--setreg", " a7 = 64 ", "-/working/x"]));
    assert_eq!(c.register_inits, vec![(17, 64)]);
    assert_eq!(c.binary_path, Some("-/working/x".to_string()));
    assert!(!c.is_newlib);
}

#[test]
fn errors_describe_themselves() {
    assert_eq!(
        CpuError::IllegalInstruction { pc: 0x1000, raw: 0 }.message(),
        "Illegal instruction 0x00000000 at PC 0x00001000"
    );
    assert_eq!(
        CpuError::UnknownOpcode { pc: 0x20, opcode: 0x0b }.message(),
        "Unknown opcode 0x0b at PC 0x00000020"
    );
    assert_eq!(
        CpuError::UnhandledSyscall { pc: 8, number: -1 }.message(),
        "Unhandled syscall -1 at PC 0x00000008"
    );
    let u = UnknownSyscall { sys_num: 999, a0: 0x11, a1: 0x22, a2: 0x33, a3: 0x44 };
    assert_eq!(
        CpuError::UnknownSyscall(u.clone()).message(),
        "Unknown syscall 999 (a0: 0x11, a1: 0x22, a2: 0x33, a3: 0x44)"
    );
    assert_eq!(
        trap_report(0x40, &CpuError::IllegalInstruction { pc: 0x40, raw: 0 }, true),
        "CPU Exec Error (Compressed) at PC 0x00000040: Illegal instruction 0x00000000 at PC 0x00000040\n"
    );
    assert_eq!(
        trap_report(0x40, &CpuError::UnknownSyscall(u), false),
        "Unknown Syscall: 999 (a0: 0x11, a1: 0x22, a2: 0x33, a3: 0x44)\n"
    );
}

#[test]
fn stepping_a_halted_machine_reports_the_halt() {
    let mut cpu = Cpu::new();
    let mut mem = Memory::new();
    mem.write_u32(0, 0x0010_0073); // ebreak
    assert_eq!(cpu.step_instruction(&mut mem), StepResult::Halted(0));
    assert!(cpu.is_halted);
    assert_eq!(cpu.step_counter, 1);
    assert_eq!(cpu.step_instruction(&mut mem), StepResult::Halted(0));
    assert_eq!(cpu.step_counter, 1);
    mem.write_u32(0x10, addi(1, 0, 1));
    let mut fresh = Cpu::new();
    fresh.pc = 0x10;
    assert_eq!(fresh.step_instruction(&mut mem), StepResult::Executed);
    assert_eq!(fresh.pc, 0x14);
}

#[test]
fn symbols_of_a_loaded_program_are_looked_up() {
    let sim = Simulator::new();
    assert_eq!(sim.get_symbol_at(0x1000), None);
}

fn enc_i(opcode: u32, rd: u32, funct3: u32, rs1: u32, imm: i32) -> u32 {
    (((imm as u32) & 0xFFF) << 20) | (rs1 << 15) | (funct3 << 12) | (rd << 7) | opcode
}

fn enc_s(opcode: u32, funct3: u32, rs1: u32, rs2: u32, imm: i32) -> u32 {
    let u = imm as u32;
    (((u >> 5) & 0x7F) << 25) | (rs2 << 20) | (rs1 << 15) | (funct3 << 12) | ((u & 0x1F) << 7) | opcode
}

fn enc_b(funct3: u32, rs1: u32, rs2: u32, imm: i32) -> u32 {
    let u = imm as u32;
    (((u >> 12) & 1) << 31) | (((u >> 5) & 0x3F) << 25) | (rs2 << 20) | (rs1 << 15) | (funct3 << 12)
        | (((u >> 1) & 0xF) << 8) | (((u >> 11) & 1) << 7) | 0x63
}

fn text_of(address: u32, word: u32) -> String {
    Disassembler::decode_instruction(address, word).asm_text
}

#[test]
fn branches_loads_stores_and_immediates_disassemble() {
    assert_eq!(text_of(0x2000, enc_b(0, 10, 11, 12)), "beq a0, a1, 0x200c");
    assert_eq!(text_of(0x2000, enc_b(1, 10, 0, 8)), "bnez a0, 0x2008");
    assert_eq!(text_of(0x2000, enc_b(2, 10, 11, 8)), "unknown_branch a0, a1, 0x2008");
    assert_eq!(text_of(0x2000, enc_b(6, 10, 11, -8)), "bltu a0, a1, 0x1ff8");
    assert_eq!(text_of(0, enc_i(0x03, 10, 2, 2, -4)), "lw a0, -4(sp)");
    assert_eq!(text_of(0, enc_s(0x23, 2, 2, 11, 8)), "sw a1, 8(sp)");
    assert_eq!(text_of(0, 0x1234_5537), "lui a0, 74565");
    assert_eq!(text_of(0, 0xFFFF_F537), "lui a0, -1");
    assert_eq!(text_of(0, enc_i(0x13, 10, 3, 11, -1)), "sltiu a0, a1, 4294967295");
    assert_eq!(text_of(0, enc_i(0x13, 10, 5, 10, 0x400 | 3)), "srai a0, a0, 3");
    assert_eq!(text_of(0, enc_i(0x13, 10, 0, 11, 0)), "mv a0, a1");
    assert_eq!(text_of(0, 0x02C5_8533), "mul a0, a1, a2");
    assert_eq!(text_of(0, enc_i(0x07, 1, 2, 10, 8)), "flw ft1, 8(a0)");
    assert_eq!(text_of(0, 0x0000_007F), "unimpl 0x0000007f");
}

#[test]
fn system_instructions_disassemble() {
    assert_eq!(text_of(0, 0x0010_0073), "ebreak");
    assert_eq!(text_of(0, 0x3020_0073), "mret");
    assert_eq!(text_of(0, enc_i(0x73, 10, 1, 11, 0x300)), "csrrw a0, 0x300, a1");
    assert_eq!(text_of(0, enc_i(0x73, 10, 6, 8, 0x300)), "csrrsi a0, 0x300, s0");
}

#[test]
fn compressed_instructions_disassemble() {
    assert_eq!(text_of(0x100, 0xA011), "c.j 0x104");
    assert_eq!(text_of(0, 0x8106), "c.mv sp, ra");
    assert_eq!(text_of(0, 0x9106), "c.add sp, ra");
    assert_eq!(text_of(0, 0x9002), "c.ebreak");
    assert_eq!(text_of(0, 0x0001), "c.nop");
    assert_eq!(text_of(0, 0x0000), "c.reserved 0x0000");
    assert_eq!(text_of(0, 0x4492), "c.lwsp s1, 4(sp)");
    assert_eq!(text_of(0, 0x008A), "c.slli ra, 2");
    let d = Disassembler::decode_instruction(0, 0xFFFF_4492);
    assert!(d.is_compressed);
    assert_eq!(d.opcode_hex, "4492");
}

#[test]
fn a_window_inside_an_unmapped_page_is_whole_and_zero() {
    let mut mem = Memory::new();
    assert_eq!(mem.fetch_window(0x0080_0000), (0, true));
    assert_eq!(mem.fetch_window(0x0080_FFFE), (0, false));
}

#[test]
fn reserved_compressed_encodings_disassemble_as_reserved() {
    for inst in [0x0000u32, 0x0004, 0x7005, 0x6281, 0x6101, 0x8002, 0x9005, 0x1406, 0x9C05, 0x4012] {
        assert_eq!(text_of(0x40, inst), format!("c.reserved 0x{:04x}", inst));
    }
}

#[test]
fn setreg_values_are_read_as_hex_or_decimal() {
    let c = SimConfig::parse_args(&strings(&[
        "--setreg=x0=5", "--setreg=foo=1", "--setreg=a1=0XfF", "--setreg=t0=zz", "--setreg=x7",
        "--setreg=x12= 42",
    ]));
    assert_eq!(c.register_inits, vec![(11, 0xFF), (5, 0), (12, 42)]);
}
