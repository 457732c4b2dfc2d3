use riscv_rs::inst::{DecodedInst32, OP_IMM};
use riscv_rs::memory::{MmioDevice, MMIO_BASE, PAGE_SIZE};
use std::cell::RefCell;
use std::rc::Rc;
use riscv_rs::utils::shift_then_mask;
use riscv_rs::{Memory, MemoryOps, ShiftThenMask};

#[test]
fn test_decoded_inst32() {
    // ADDI x1, x2, -5 => 0xFE510093
    let inst = DecodedInst32::decode(0xFE510093);
    assert_eq!(inst.opcode, OP_IMM);
    assert_eq!(inst.rd, 1);
    assert_eq!(inst.rs1, 2);
    assert_eq!(inst.funct3, 0);
    assert_eq!(inst.i_imm(), -27);
}

#[test]
fn test_memory_coalesced_bytes_operations() {
    let mut mem = Memory::new();

    // Write across page boundary (PAGE_SIZE = 65536)
    let addr = 65530; // 6 bytes before end of page 0
    let data: Vec<u8> = (0..20).map(|i| i as u8).collect();
    mem.write_bytes(addr, &data);

    // Read back entire slice across boundary
    let read_data = mem.read_bytes(addr, 20);
    assert_eq!(read_data, data);

    // Verify individual byte reads match
    for (i, &item) in data.iter().enumerate() {
        assert_eq!(mem.read_u8(addr + i as u32), item);
    }

    // Read from unallocated page
    let unalloc_read = mem.read_bytes(0x200000, 100);
    assert_eq!(unalloc_read, vec![0u8; 100]);
}

#[test]
fn fetch_window_returns_a_whole_word_inside_a_page() {
    let mut mem = Memory::new();
    mem.write_u32(0x1000, 0xDEAD_BEEF);

    let (bits, wide) = mem.fetch_window(0x1000);
    assert_eq!(bits, 0xDEAD_BEEF);
    assert!(wide, "a window inside one page carries all 32 bits");
}

#[test]
fn fetch_window_reports_a_partial_read_at_a_page_edge() {
    let mut mem = Memory::new();
    // The last halfword of page 0. The other half of a 32-bit instruction
    // here lives in page 1.
    let addr = PAGE_SIZE as u32 - 2;
    mem.write_u16(addr, 0xB0B5);
    mem.write_u16(addr + 2, 0xF00D);

    let (bits, wide) = mem.fetch_window(addr);
    assert_eq!(bits & 0xFFFF, 0xB0B5, "the asked-for halfword is present");
    assert!(
        !wide,
        "a window that straddles two pages must report itself as partial"
    );
}

#[test]
fn fetch_window_does_not_widen_into_the_mmio_window() {
    let mut mem = Memory::new();
    // A widening read here would call out to the host MMIO handler for an
    // address the guest never touched.
    let (_, wide) = mem.fetch_window(MMIO_BASE - 2);
    assert!(!wide, "a fetch beside MMIO must not read across the border");
}

#[test]
fn fetch_window_reads_an_unmapped_page_as_zero() {
    let mut mem = Memory::new();
    let (bits, _) = mem.fetch_window(0x0080_0000);
    assert_eq!(bits, 0, "an unmapped fetch is the illegal instruction");
}

#[test]
fn test_shift_then_mask() {
    let val: u32 = 0xABCD_EF12;
    assert_eq!(shift_then_mask(val, 4, 0xF), 0x1);
    assert_eq!(val.shift_then_mask(8, 0xFF), 0xEF);

    let val16: u16 = 0xE6C0;
    assert_eq!(val16.shift_then_mask(13, 0x7), 0x7);
}

fn s_word(imm: i32, other: u32) -> u32 {
    let u = imm as u32;
    (((u >> 5) & 0x7F) << 25) | ((u & 0x1F) << 7) | (other & 0x01FF_F07F)
}

fn b_word(imm: i32, other: u32) -> u32 {
    let u = imm as u32;
    (((u >> 12) & 1) << 31)
        | (((u >> 5) & 0x3F) << 25)
        | (((u >> 1) & 0xF) << 8)
        | (((u >> 11) & 1) << 7)
        | (other & 0x01FF_F07F)
}

fn j_word(imm: i32, other: u32) -> u32 {
    let u = imm as u32;
    (((u >> 20) & 1) << 31)
        | (((u >> 1) & 0x3FF) << 21)
        | (((u >> 11) & 1) << 20)
        | (((u >> 12) & 0xFF) << 12)
        | (other & 0xFFF)
}

#[test]
fn store_offsets_read_back_from_their_encoding() {
    for imm in [-2048, -1, 0, 1, 5, 2047, -1000] {
        for other in [0u32, 0xFFFF_FFFF, 0x00A0_2023] {
            assert_eq!(DecodedInst32::decode(s_word(imm, other)).s_imm(), imm);
        }
    }
}

#[test]
fn branch_offsets_read_back_from_their_encoding() {
    for imm in [-4096, -2, 0, 2, 8, 4094, -1000] {
        for other in [0u32, 0xFFFF_FFFF, 0x0020_8063] {
            assert_eq!(DecodedInst32::decode(b_word(imm, other)).b_imm(), imm);
        }
    }
}

#[test]
fn jump_offsets_read_back_from_their_encoding() {
    for imm in [-(1 << 20), -2, 0, 2, 2048, (1 << 20) - 2, -123456] {
        for other in [0u32, 0xFFFF_FFFF, 0x0000_00EF] {
            assert_eq!(DecodedInst32::decode(j_word(imm, other)).j_imm(), imm);
        }
    }
}

/// A device that answers every read with a fixed value and records what it
/// was handed.
struct RecordingDevice {
    reads: Rc<RefCell<Vec<(u32, u32)>>>,
    writes: Rc<RefCell<Vec<(u32, u32, u32)>>>,
}

impl MmioDevice for RecordingDevice {
    fn read(&self, addr: u32, size: u32) -> u32 {
        self.reads.borrow_mut().push((addr, size));
        0xDEAD_BEEF
    }
    fn write(&self, addr: u32, size: u32, val: u32) {
        self.writes.borrow_mut().push((addr, size, val));
    }
}

fn memory_with_device() -> (Memory, Rc<RefCell<Vec<(u32, u32)>>>, Rc<RefCell<Vec<(u32, u32, u32)>>>) {
    let reads = Rc::new(RefCell::new(Vec::new()));
    let writes = Rc::new(RefCell::new(Vec::new()));
    let mut mem = Memory::new();
    mem.attach_device(Box::new(RecordingDevice { reads: reads.clone(), writes: writes.clone() }));
    (mem, reads, writes)
}

#[test]
fn a_fetch_beside_the_mmio_window_reads_no_device() {
    let (mut mem, reads, _) = memory_with_device();
    let (_, wide) = mem.fetch_window(MMIO_BASE - 2);
    assert!(!wide);
    assert!(reads.borrow().is_empty());
}

#[test]
fn device_accesses_carry_the_guest_address_size_and_value() {
    let (mut mem, reads, writes) = memory_with_device();
    assert_eq!(mem.read_u32(MMIO_BASE + 8), 0xDEAD_BEEF);
    assert_eq!(mem.read_u16(MMIO_BASE + 2), 0xBEEF);
    assert_eq!(mem.read_u8(MMIO_BASE + 1), 0xEF);
    mem.write_u32(MMIO_BASE + 4, 0x1234_5678);
    mem.write_u16(MMIO_BASE + 6, 0xABCD);
    mem.write_u8(MMIO_BASE, 0x5A);
    assert_eq!(*reads.borrow(), vec![(MMIO_BASE + 8, 4), (MMIO_BASE + 2, 2), (MMIO_BASE + 1, 1)]);
    assert_eq!(
        *writes.borrow(),
        vec![(MMIO_BASE + 4, 4, 0x1234_5678), (MMIO_BASE + 6, 2, 0xABCD), (MMIO_BASE, 1, 0x5A)]
    );
}

#[test]
fn ordinary_memory_never_reaches_the_device() {
    let (mut mem, reads, writes) = memory_with_device();
    mem.write_bytes(0x1000, &[1, 2, 3, 4, 5]);
    mem.write_u32(MMIO_BASE - 4, 7);
    assert_eq!(mem.read_bytes(0x1000, 5), vec![1, 2, 3, 4, 5]);
    assert_eq!(mem.read_u32(MMIO_BASE - 4), 7);
    assert!(reads.borrow().is_empty());
    assert!(writes.borrow().is_empty());
}

#[test]
fn without_a_device_the_mmio_window_reads_zero() {
    let mut mem = Memory::new();
    assert_eq!(mem.read_u32(MMIO_BASE + 8), 0);
    assert_eq!(mem.read_u16(MMIO_BASE), 0);
    assert_eq!(mem.read_u8(MMIO_BASE + 3), 0);
}
