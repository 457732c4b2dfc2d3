use vstd::prelude::*;

verus! {

/// Bytes per page (64 KiB).
pub const PAGE_SIZE: usize = 65536;

const PAGE_MASK: u32 = 0xFFFF;

const PAGE_SHIFT: u32 = 16;

/// Number of pages that cover the 32-bit address space.
pub const NUM_PAGES: usize = 65536;

/// First address of the memory-mapped I/O window; every address from here up
/// belongs to the device rather than to ordinary memory.
pub const MMIO_BASE: u32 = 0xFFFF0000;

/// Heap start that a fresh memory reports as its program break (16 MiB).
pub const DEFAULT_BRK: u32 = 0x1000000;

/// `a + k` on 32-bit addresses, wrapping past the top of the address space.
pub open spec fn addr_add(a: u32, k: int) -> u32 {
    ((a + k) % 0x1_0000_0000) as u32
}

/// Little-endian value of two bytes.
pub open spec fn le16(b0: u8, b1: u8) -> u16 {
    (b0 + 0x100 * b1) as u16
}

/// Little-endian value of four bytes.
pub open spec fn le32(b0: u8, b1: u8, b2: u8, b3: u8) -> u32 {
    (b0 + 0x100 * b1 + 0x1_0000 * b2 + 0x100_0000 * b3) as u32
}

/// Whether `n` consecutive bytes starting at `addr` (wrapping) are all ordinary memory of `ram`.
pub open spec fn in_ram(ram: Map<u32, u8>, addr: u32, n: int) -> bool {
    forall|i: int| 0 <= i < n ==> #[trigger] ram.contains_key(addr_add(addr, i))
}

/// The little-endian halfword at `addr` in `ram`.
pub open spec fn ram_u16(ram: Map<u32, u8>, addr: u32) -> u16 {
    le16(ram[addr], ram[addr_add(addr, 1)])
}

/// The little-endian word at `addr` in `ram`.
pub open spec fn ram_u32(ram: Map<u32, u8>, addr: u32) -> u32 {
    le32(ram[addr], ram[addr_add(addr, 1)], ram[addr_add(addr, 2)], ram[addr_add(addr, 3)])
}

/// `ram` after a byte store to `addr`: only ordinary memory keeps what is stored.
pub open spec fn ram_store(ram: Map<u32, u8>, addr: u32, val: u8) -> Map<u32, u8> {
    if ram.contains_key(addr) {
        ram.insert(addr, val)
    } else {
        ram
    }
}

/// `ram` after the little-endian halfword `val` is stored at `addr`.
pub open spec fn ram_store_u16(ram: Map<u32, u8>, addr: u32, val: u16) -> Map<u32, u8> {
    ram_store(ram_store(ram, addr, (val % 0x100) as u8), addr_add(addr, 1), (val / 0x100) as u8)
}

/// `ram` after the little-endian word `val` is stored at `addr`.
pub open spec fn ram_store_u32(ram: Map<u32, u8>, addr: u32, val: u32) -> Map<u32, u8> {
    ram_store(
        ram_store(
            ram_store(ram_store(ram, addr, (val % 0x100) as u8), addr_add(addr, 1), ((val / 0x100)
                % 0x100) as u8),
            addr_add(addr, 2),
            ((val / 0x1_0000) % 0x100) as u8,
        ),
        addr_add(addr, 3),
        (val / 0x100_0000) as u8,
    )
}

/// `ram` after `bytes` are stored one after the other from `addr` on, for a
/// run no longer than the address space (so that no address is written twice).
pub open spec fn ram_store_bytes(ram: Map<u32, u8>, addr: u32, bytes: Seq<u8>) -> Map<u32, u8> {
    Map::new(
        |a: u32| ram.contains_key(a),
        |a: u32|
            {
                let d = (a - addr) % 0x1_0000_0000;
                if d < bytes.len() {
                    bytes[d]
                } else {
                    ram[a]
                }
            },
    )
}

/// `addr.wrapping_add(i as u32)` is `addr_add(addr, i)`.
pub proof fn lemma_wrapping_add_usize(addr: u32, i: usize)
    ensures
        vstd::wrapping::u32_specs::wrapping_add(addr, i as u32) == addr_add(addr, i as int),
{
    let k = (i as u32) as int;
    assert((i as u32) as int == (i as int) % 0x1_0000_0000) by (bit_vector);
    vstd::arithmetic::div_mod::lemma_add_mod_noop(addr as int, i as int, 0x1_0000_0000);
    vstd::arithmetic::div_mod::lemma_add_mod_noop(addr as int, k, 0x1_0000_0000);
    vstd::arithmetic::div_mod::lemma_mod_twice(i as int, 0x1_0000_0000);
    vstd::arithmetic::div_mod::lemma_small_mod(addr as nat, 0x1_0000_0000);
}

/// Two bytes assembled little-endian into a halfword.
proof fn lemma_le16_bytes(b0: u8, b1: u8)
    ensures
        (b0 as u16) | ((b1 as u16) << 8) == le16(b0, b1),
{
    assert((b0 as u16) | ((b1 as u16) << 8) == le16(b0, b1)) by (bit_vector);
}

/// Four bytes assembled little-endian into a word.
proof fn lemma_le32_bytes(b0: u8, b1: u8, b2: u8, b3: u8)
    ensures
        (b0 as u32) | ((b1 as u32) << 8) | ((b2 as u32) << 16) | ((b3 as u32) << 24) == le32(b0, b1, b2, b3),
{
    assert((b0 as u32) | ((b1 as u32) << 8) | ((b2 as u32) << 16) | ((b3 as u32) << 24) == le32(
        b0,
        b1,
        b2,
        b3,
    )) by (bit_vector);
}

/// The bytes of a halfword, and the halfword they make again.
proof fn lemma_u16_bytes(val: u16)
    ensures
        (val & 0xFF) as u8 == (val % 0x100) as u8,
        (val >> 8) as u8 == (val / 0x100) as u8,
        le16((val % 0x100) as u8, (val / 0x100) as u8) == val,
{
    assert((val & 0xFF) as u8 == (val % 0x100) as u8 && (val >> 8) as u8 == (val / 0x100) as u8
        && le16((val % 0x100) as u8, (val / 0x100) as u8) == val) by (bit_vector);
}

/// The bytes of a word, and the word they make again.
proof fn lemma_u32_bytes(val: u32)
    ensures
        (val & 0xFF) as u8 == (val % 0x100) as u8,
        ((val >> 8) & 0xFF) as u8 == ((val / 0x100) % 0x100) as u8,
        ((val >> 16) & 0xFF) as u8 == ((val / 0x1_0000) % 0x100) as u8,
        (val >> 24) as u8 == (val / 0x100_0000) as u8,
        le32(
            (val % 0x100) as u8,
            ((val / 0x100) % 0x100) as u8,
            ((val / 0x1_0000) % 0x100) as u8,
            (val / 0x100_0000) as u8,
        ) == val,
{
    assert((val & 0xFF) as u8 == (val % 0x100) as u8 && ((val >> 8) & 0xFF) as u8 == ((val / 0x100)
        % 0x100) as u8 && ((val >> 16) & 0xFF) as u8 == ((val / 0x1_0000) % 0x100) as u8 && (val
        >> 24) as u8 == (val / 0x100_0000) as u8 && le32(
        (val % 0x100) as u8,
        ((val / 0x100) % 0x100) as u8,
        ((val / 0x1_0000) % 0x100) as u8,
        (val / 0x100_0000) as u8,
    ) == val) by (bit_vector);
}

/// The page and offset parts of an address, and how far an aligned access
/// reaches in its page.
proof fn lemma_addr_bits(a: u32)
    ensures
        a >> 16 < 0x1_0000,
        a & 0xFFFF < 0x1_0000,
        a < 0xFFFF0000 <==> a >> 16 < 0xFFFF,
        a & 1 == 0 ==> (a & 0xFFFF) + 1 < 0x1_0000,
        a & 3 == 0 ==> (a & 0xFFFF) + 3 < 0x1_0000,
{
    assert(a >> 16 < 0x1_0000 && a & 0xFFFF < 0x1_0000 && (a < 0xFFFF0000 <==> a >> 16 < 0xFFFF)
        && (a & 1 == 0 ==> (a & 0xFFFF) + 1 < 0x1_0000) && (a & 3 == 0 ==> (a & 0xFFFF) + 3
        < 0x1_0000)) by (bit_vector);
}

/// Storing one more byte extends a sequential store by that byte.
pub proof fn lemma_store_bytes_step(ram: Map<u32, u8>, addr: u32, bytes: Seq<u8>, i: int)
    requires
        0 <= i < bytes.len() <= 0x1_0000_0000,
    ensures
        ram_store(ram_store_bytes(ram, addr, bytes.subrange(0, i)), addr_add(addr, i), bytes[i])
            == ram_store_bytes(ram, addr, bytes.subrange(0, i + 1)),
{
    let a0 = addr_add(addr, i);
    let lhs = ram_store(ram_store_bytes(ram, addr, bytes.subrange(0, i)), a0, bytes[i]);
    let rhs = ram_store_bytes(ram, addr, bytes.subrange(0, i + 1));
    assert forall|a: u32| #[trigger] lhs.contains_key(a) implies lhs[a] == rhs[a] by {
        let d = (a - addr) % 0x1_0000_0000;
        if a == a0 {
            assert(d == i) by {
                vstd::arithmetic::div_mod::lemma_fundamental_div_mod(addr + i, 0x1_0000_0000);
                vstd::arithmetic::div_mod::lemma_fundamental_div_mod(a - addr, 0x1_0000_0000);
            }
        } else {
            assert(d != i) by {
                if d == i {
                    vstd::arithmetic::div_mod::lemma_fundamental_div_mod(addr + i, 0x1_0000_0000);
                    vstd::arithmetic::div_mod::lemma_fundamental_div_mod(a - addr, 0x1_0000_0000);
                }
            }
        }
    }
    assert(lhs =~= rhs);
}

/// A byte read gives back the byte last stored at its address, and a store
/// leaves every other address as it was.
pub proof fn law_byte_read_after_write(ram: Map<u32, u8>, addr: u32, val: u8, other: u32)
    requires
        ram.contains_key(addr),
        other != addr,
    ensures
        ram_store(ram, addr, val)[addr] == val,
        ram_store(ram, addr, val).dom() == ram.dom(),
        ram.contains_key(other) ==> ram_store(ram, addr, val)[other] == ram[other],
{
    assert(ram_store(ram, addr, val).dom() =~= ram.dom());
}

/// The four addresses of a word are distinct.
proof fn lemma_word_addresses_distinct(addr: u32)
    ensures
        addr_add(addr, 0) == addr,
        addr != addr_add(addr, 1),
        addr != addr_add(addr, 2),
        addr != addr_add(addr, 3),
        addr_add(addr, 1) != addr_add(addr, 2),
        addr_add(addr, 1) != addr_add(addr, 3),
        addr_add(addr, 2) != addr_add(addr, 3),
{
}

/// A halfword read gives back the halfword last stored at its address, when
/// both its bytes are ordinary memory.
pub proof fn law_halfword_read_after_write(ram: Map<u32, u8>, addr: u32, val: u16)
    requires
        in_ram(ram, addr, 2),
    ensures
        ram_u16(ram_store_u16(ram, addr, val), addr) == val,
{
    lemma_word_addresses_distinct(addr);
    assert(ram.contains_key(addr_add(addr, 0)) && ram.contains_key(addr_add(addr, 1)));
    assert(le16((val % 0x100) as u8, (val / 0x100) as u8) == val) by {
        lemma_u16_bytes(val);
    }
}

/// A word read gives back the word last stored at its address, when all its
/// bytes are ordinary memory.
pub proof fn law_word_read_after_write(ram: Map<u32, u8>, addr: u32, val: u32)
    requires
        in_ram(ram, addr, 4),
    ensures
        ram_u32(ram_store_u32(ram, addr, val), addr) == val,
{
    lemma_word_addresses_distinct(addr);
    assert(ram.contains_key(addr_add(addr, 0)) && ram.contains_key(addr_add(addr, 1))
        && ram.contains_key(addr_add(addr, 2)) && ram.contains_key(addr_add(addr, 3)));
    assert(le32(
        (val % 0x100) as u8,
        ((val / 0x100) % 0x100) as u8,
        ((val / 0x1_0000) % 0x100) as u8,
        (val / 0x100_0000) as u8,
    ) == val) by {
        lemma_u32_bytes(val);
    }
}

/// After `bytes` are stored from `addr` on, the byte `i` places on from
/// `addr` reads as `bytes[i]`, when it is ordinary memory.
pub proof fn law_bytes_read_after_write(ram: Map<u32, u8>, addr: u32, bytes: Seq<u8>, i: int)
    requires
        bytes.len() <= 0x1_0000_0000,
        0 <= i < bytes.len(),
        ram.contains_key(addr_add(addr, i)),
    ensures
        ram_store_bytes(ram, addr, bytes)[addr_add(addr, i)] == bytes[i],
{
    let a = addr_add(addr, i);
    assert((a - addr) % 0x1_0000_0000 == i) by {
        vstd::arithmetic::div_mod::lemma_fundamental_div_mod(addr + i, 0x1_0000_0000);
        vstd::arithmetic::div_mod::lemma_fundamental_div_mod(a - addr, 0x1_0000_0000);
    }
}

/// A device that answers the memory-mapped I/O window.
///
/// Reads and writes carry the access size in bytes (1, 2 or 4). Nothing is
/// promised of what a device returns.
pub trait MmioDevice {
    fn read(&self, addr: u32, size: u32) -> u32
        requires
            MMIO_BASE <= addr,
    ;

    fn write(&self, addr: u32, size: u32, val: u32)
        requires
            MMIO_BASE <= addr,
    ;
}

/// What a read leaves as it was: the representation's validity, ordinary
/// memory, the program break, the breaks `set_brk` accepts, and the writes
/// handed to the MMIO window.
pub open spec fn read_keeps<M: MemoryOps + ?Sized>(post: &M, pre: &M) -> bool {
    &&& post.inv() == pre.inv()
    &&& post.ram() == pre.ram()
    &&& post.brk() == pre.brk()
    &&& post.mmio_writes() == pre.mmio_writes()
    &&& forall|v: u32| #[trigger] post.brk_accepts(v) == pre.brk_accepts(v)
}

/// Trait defining memory operations for RISC-V simulation.
///
/// `ram()` is the ordinary, byte-addressed memory: its domain is the set of
/// addresses that are not device registers. Reads of those addresses give
/// back what was last stored there; accesses outside it go to a device, of
/// which nothing is promised.
pub trait MemoryOps {
    /// Well-formedness of the representation.
    spec fn inv(&self) -> bool;

    /// Ordinary memory, address to byte.
    spec fn ram(&self) -> Map<u32, u8>;

    /// The program break.
    spec fn brk(&self) -> u32;

    /// The writes handed to the MMIO window so far, oldest first, each as
    /// address, size in bytes and value.
    spec fn mmio_writes(&self) -> Seq<(u32, u32, u32)>;

    /// The reads handed to the MMIO window so far, oldest first, each as
    /// address and size in bytes.
    spec fn mmio_reads(&self) -> Seq<(u32, u32)>;

    fn read_u8(&mut self, addr: u32) -> (r: u8)
        requires
            old(self).inv(),
        ensures
            final(self).inv() == old(self).inv(),
            final(self).ram() == old(self).ram(),
            final(self).brk() == old(self).brk(),
            final(self).mmio_writes() == old(self).mmio_writes(),
            forall|v: u32| #[trigger] final(self).brk_accepts(v) == old(self).brk_accepts(v),
            old(self).ram().contains_key(addr) ==> r == old(self).ram()[addr],
            final(self).mmio_reads() == (if old(self).ram().contains_key(addr) {
                old(self).mmio_reads()
            } else {
                old(self).mmio_reads().push((addr, 1u32))
            }),
    ;

    fn write_u8(&mut self, addr: u32, val: u8)
        requires
            old(self).inv(),
        ensures
            final(self).inv(),
            final(self).ram() == ram_store(old(self).ram(), addr, val),
            final(self).ram().dom() == old(self).ram().dom(),
            final(self).brk() == old(self).brk(),
            final(self).mmio_writes() == (if old(self).ram().contains_key(addr) {
                old(self).mmio_writes()
            } else {
                old(self).mmio_writes().push((addr, 1u32, val as u32))
            }),
            final(self).mmio_reads() == old(self).mmio_reads(),
    ;

    fn read_u16(&mut self, addr: u32) -> (r: u16)
        requires
            old(self).inv(),
        ensures
            final(self).inv() == old(self).inv(),
            final(self).ram() == old(self).ram(),
            final(self).brk() == old(self).brk(),
            final(self).mmio_writes() == old(self).mmio_writes(),
            forall|v: u32| #[trigger] final(self).brk_accepts(v) == old(self).brk_accepts(v),
            in_ram(old(self).ram(), addr, 2) ==> r == ram_u16(old(self).ram(), addr),
            in_ram(old(self).ram(), addr, 2) ==> final(self).mmio_reads() == old(
                self,
            ).mmio_reads(),
    {
        proof {
            lemma_wrapping_add_usize(addr, 1);
            assert(addr_add(addr, 0) == addr);
            if in_ram(old(self).ram(), addr, 2) {
                assert(old(self).ram().contains_key(addr_add(addr, 0)));
                assert(old(self).ram().contains_key(addr_add(addr, 1)));
            }
        }
        let b0 = self.read_u8(addr);
        let b1 = self.read_u8(addr.wrapping_add(1));
        let r = (b0 as u16) | ((b1 as u16) << 8);
        assert((b0 as u16) | ((b1 as u16) << 8) == le16(b0, b1)) by {
            lemma_le16_bytes(b0, b1);
        }
        r
    }

    fn write_u16(&mut self, addr: u32, val: u16)
        requires
            old(self).inv(),
        ensures
            final(self).inv(),
            final(self).ram().dom() == old(self).ram().dom(),
            in_ram(old(self).ram(), addr, 2) ==> final(self).ram() == ram_store_u16(
                old(self).ram(),
                addr,
                val,
            ),
            forall|a: u32|
                old(self).ram().contains_key(a) && a != addr && a != addr_add(addr, 1)
                    ==> #[trigger] final(self).ram()[a] == old(self).ram()[a],
            final(self).brk() == old(self).brk(),
            in_ram(old(self).ram(), addr, 2) ==> final(self).mmio_writes() == old(
                self,
            ).mmio_writes(),
            final(self).mmio_reads() == old(self).mmio_reads(),
    {
        assert((val & 0xFF) as u8 == (val % 0x100) as u8 && (val >> 8) as u8 == (val / 0x100) as u8)
            by {
                lemma_u16_bytes(val);
            }
        proof {
            lemma_wrapping_add_usize(addr, 1);
            assert(addr_add(addr, 0) == addr);
            if in_ram(old(self).ram(), addr, 2) {
                assert(old(self).ram().contains_key(addr_add(addr, 0)));
                assert(old(self).ram().contains_key(addr_add(addr, 1)));
            }
        }
        self.write_u8(addr, (val & 0xFF) as u8);
        self.write_u8(addr.wrapping_add(1), (val >> 8) as u8);
    }

    fn read_u32(&mut self, addr: u32) -> (r: u32)
        requires
            old(self).inv(),
        ensures
            final(self).inv() == old(self).inv(),
            final(self).ram() == old(self).ram(),
            final(self).brk() == old(self).brk(),
            final(self).mmio_writes() == old(self).mmio_writes(),
            forall|v: u32| #[trigger] final(self).brk_accepts(v) == old(self).brk_accepts(v),
            in_ram(old(self).ram(), addr, 4) ==> r == ram_u32(old(self).ram(), addr),
            in_ram(old(self).ram(), addr, 4) ==> final(self).mmio_reads() == old(
                self,
            ).mmio_reads(),
    {
        proof {
            lemma_wrapping_add_usize(addr, 1);
            lemma_wrapping_add_usize(addr, 2);
            lemma_wrapping_add_usize(addr, 3);
            assert(addr_add(addr, 0) == addr);
            if in_ram(old(self).ram(), addr, 4) {
                assert(old(self).ram().contains_key(addr_add(addr, 0)));
                assert(old(self).ram().contains_key(addr_add(addr, 1)));
                assert(old(self).ram().contains_key(addr_add(addr, 2)));
                assert(old(self).ram().contains_key(addr_add(addr, 3)));
            }
        }
        let b0 = self.read_u8(addr);
        let b1 = self.read_u8(addr.wrapping_add(1));
        let b2 = self.read_u8(addr.wrapping_add(2));
        let b3 = self.read_u8(addr.wrapping_add(3));
        let r = (b0 as u32) | ((b1 as u32) << 8) | ((b2 as u32) << 16) | ((b3 as u32) << 24);
        assert((b0 as u32) | ((b1 as u32) << 8) | ((b2 as u32) << 16) | ((b3 as u32) << 24) == le32(
            b0,
            b1,
            b2,
            b3,
        )) by {
            lemma_le32_bytes(b0, b1, b2, b3);
        }
        r
    }

    fn write_u32(&mut self, addr: u32, val: u32)
        requires
            old(self).inv(),
        ensures
            final(self).inv(),
            final(self).ram().dom() == old(self).ram().dom(),
            in_ram(old(self).ram(), addr, 4) ==> final(self).ram() == ram_store_u32(
                old(self).ram(),
                addr,
                val,
            ),
            forall|a: u32|
                old(self).ram().contains_key(a) && a != addr && a != addr_add(addr, 1) && a
                    != addr_add(addr, 2) && a != addr_add(addr, 3) ==> #[trigger] final(self).ram()[a]
                    == old(self).ram()[a],
            final(self).brk() == old(self).brk(),
            in_ram(old(self).ram(), addr, 4) ==> final(self).mmio_writes() == old(
                self,
            ).mmio_writes(),
            final(self).mmio_reads() == old(self).mmio_reads(),
    {
        assert((val & 0xFF) as u8 == (val % 0x100) as u8 && ((val >> 8) & 0xFF) as u8 == ((val
            / 0x100) % 0x100) as u8 && ((val >> 16) & 0xFF) as u8 == ((val / 0x1_0000) % 0x100) as u8
            && (val >> 24) as u8 == (val / 0x100_0000) as u8) by {
                lemma_u32_bytes(val);
            }
        proof {
            lemma_wrapping_add_usize(addr, 1);
            lemma_wrapping_add_usize(addr, 2);
            lemma_wrapping_add_usize(addr, 3);
            assert(addr_add(addr, 0) == addr);
            if in_ram(old(self).ram(), addr, 4) {
                assert(old(self).ram().contains_key(addr_add(addr, 0)));
                assert(old(self).ram().contains_key(addr_add(addr, 1)));
                assert(old(self).ram().contains_key(addr_add(addr, 2)));
                assert(old(self).ram().contains_key(addr_add(addr, 3)));
            }
        }
        self.write_u8(addr, (val & 0xFF) as u8);
        self.write_u8(addr.wrapping_add(1), ((val >> 8) & 0xFF) as u8);
        self.write_u8(addr.wrapping_add(2), ((val >> 16) & 0xFF) as u8);
        self.write_u8(addr.wrapping_add(3), (val >> 24) as u8);
    }

    fn read_bytes(&mut self, addr: u32, len: usize) -> (r: Vec<u8>)
        requires
            old(self).inv(),
        ensures
            final(self).inv() == old(self).inv(),
            final(self).ram() == old(self).ram(),
            final(self).brk() == old(self).brk(),
            final(self).mmio_writes() == old(self).mmio_writes(),
            forall|v: u32| #[trigger] final(self).brk_accepts(v) == old(self).brk_accepts(v),
            r@.len() == len,
            forall|i: int|
                0 <= i < len && old(self).ram().contains_key(#[trigger] addr_add(addr, i)) ==> r@[i]
                    == old(self).ram()[addr_add(addr, i)],
            in_ram(old(self).ram(), addr, len as int) ==> final(self).mmio_reads() == old(
                self,
            ).mmio_reads(),
    {
        let mut buf: Vec<u8> = Vec::new();
        let mut i: usize = 0;
        while i < len
            invariant
                self.inv() == old(self).inv(),
                self.ram() == old(self).ram(),
                self.brk() == old(self).brk(),
                self.mmio_writes() == old(self).mmio_writes(),
                forall|v: u32| #[trigger] self.brk_accepts(v) == old(self).brk_accepts(v),
                old(self).inv(),
                i <= len,
                buf@.len() == i,
                forall|j: int|
                    0 <= j < i && old(self).ram().contains_key(#[trigger] addr_add(addr, j))
                        ==> buf@[j] == old(self).ram()[addr_add(addr, j)],
                in_ram(old(self).ram(), addr, len as int) ==> self.mmio_reads() == old(
                    self,
                ).mmio_reads(),
            decreases len - i,
        {
            let a = addr.wrapping_add(i as u32);
            proof {
                lemma_wrapping_add_usize(addr, i);
            }
            buf.push(self.read_u8(a));
            i = i + 1;
        }
        buf
    }

    fn write_bytes(&mut self, addr: u32, bytes: &[u8])
        requires
            old(self).inv(),
        ensures
            final(self).inv(),
            final(self).ram().dom() == old(self).ram().dom(),
            bytes@.len() <= 0x1_0000_0000 ==> final(self).ram() == ram_store_bytes(
                old(self).ram(),
                addr,
                bytes@,
            ),
            final(self).brk() == old(self).brk(),
            in_ram(old(self).ram(), addr, bytes@.len() as int) ==> final(self).mmio_writes() == old(
                self,
            ).mmio_writes(),
            final(self).mmio_reads() == old(self).mmio_reads(),
    {
        let ghost start = self.ram();
        let mut i: usize = 0;
        while i < bytes.len()
            invariant
                self.inv(),
                i <= bytes@.len(),
                self.ram().dom() == start.dom(),
                self.brk() == old(self).brk(),
                in_ram(start, addr, bytes@.len() as int) ==> self.mmio_writes() == old(
                    self,
                ).mmio_writes(),
                self.mmio_reads() == old(self).mmio_reads(),
                bytes@.len() <= 0x1_0000_0000 ==> self.ram() == ram_store_bytes(
                    start,
                    addr,
                    bytes@.subrange(0, i as int),
                ),
            decreases bytes@.len() - i,
        {
            let ghost before = self.ram();
            let a = addr.wrapping_add(i as u32);
            proof {
                lemma_wrapping_add_usize(addr, i);
            }
            self.write_u8(a, bytes[i]);
            proof {
                if bytes@.len() <= 0x1_0000_0000 {
                    lemma_store_bytes_step(start, addr, bytes@, i as int);
                }
            }
            i = i + 1;
        }
        proof {
            assert(bytes@.subrange(0, bytes@.len() as int) =~= bytes@);
        }
    }

    /// Fetch the instruction window at `addr` with a single page lookup.
    ///
    /// The low 16 bits of the returned word are always the halfword at `addr`,
    /// which is what decides whether the instruction is compressed. The second
    /// element says whether the high 16 bits are the following halfword.
    ///
    /// It is false in two cases, and the caller must then read the upper half
    /// separately: at a page edge, where the four-byte window straddles two
    /// pages, and next to the MMIO window, where a blind four-byte read would
    /// perform a device read with side effects that the guest never asked for.
    fn fetch_window(&mut self, addr: u32) -> (r: (u32, bool))
        requires
            old(self).inv(),
        ensures
            final(self).inv() == old(self).inv(),
            final(self).ram() == old(self).ram(),
            final(self).brk() == old(self).brk(),
            final(self).mmio_writes() == old(self).mmio_writes(),
            forall|v: u32| #[trigger] final(self).brk_accepts(v) == old(self).brk_accepts(v),
            r.1 && in_ram(old(self).ram(), addr, 4) ==> r.0 == ram_u32(old(self).ram(), addr),
            !r.1 && in_ram(old(self).ram(), addr, 2) ==> r.0 == ram_u16(old(self).ram(), addr),
            in_ram(old(self).ram(), addr, 4) ==> final(self).mmio_reads() == old(
                self,
            ).mmio_reads(),
    {
        (self.read_u32(addr), true)
    }

    fn get_brk(&self) -> (r: u32)
        ensures
            r == self.brk(),
    ;

    /// Whether `set_brk` takes `val` as the new program break.
    spec fn brk_accepts(&self, val: u32) -> bool;

    fn set_brk(&mut self, val: u32)
        requires
            old(self).inv(),
        ensures
            final(self).inv(),
            final(self).ram() == old(self).ram(),
            final(self).brk() == (if old(self).brk_accepts(val) {
                val
            } else {
                old(self).brk()
            }),
            final(self).mmio_writes() == old(self).mmio_writes(),
            final(self).mmio_reads() == old(self).mmio_reads(),
    ;
}


/// Page number of an address.
pub open spec fn page_of(addr: u32) -> int {
    (addr >> 16) as int
}

/// Offset of an address inside its page.
pub open spec fn offset_in_page(addr: u32) -> int {
    (addr & 0xFFFF) as int
}

/// Page numbers and offsets are in range.
pub proof fn lemma_addr_parts(a: u32)
    ensures
        0 <= page_of(a) < NUM_PAGES,
        0 <= offset_in_page(a) < PAGE_SIZE,
        a < MMIO_BASE <==> page_of(a) < 0xFFFF,
{
    assert(a >> 16 < 0x1_0000 && a & 0xFFFF < 0x1_0000 && (a < 0xFFFF0000 <==> a >> 16 < 0xFFFF))
        by {
            lemma_addr_bits(a);
        }
}

/// An address is its page number and its offset inside the page.
proof fn lemma_page_offset_injective(a: u32, b: u32)
    requires
        page_of(a) == page_of(b),
        offset_in_page(a) == offset_in_page(b),
    ensures
        a == b,
{
    assert((a >> 16 == b >> 16 && a & 0xFFFF == b & 0xFFFF) ==> a == b) by (bit_vector);
}

/// Moving `j` bytes forward inside one page keeps the page and adds to the offset.
proof fn lemma_within_page(a: u32, j: int)
    requires
        0 <= j,
        offset_in_page(a) + j < 0x1_0000,
    ensures
        addr_add(a, j) == a + j,
        page_of(addr_add(a, j)) == page_of(a),
        offset_in_page(addr_add(a, j)) == offset_in_page(a) + j,
        a < MMIO_BASE ==> addr_add(a, j) < MMIO_BASE,
{
    let k = j as u32;
    assert((a & 0xFFFF) + k < 0x1_0000 ==> (a + k < 0x1_0000_0000 && ((a + k) as u32) >> 16 == a
        >> 16 && ((a + k) as u32) & 0xFFFF == (a & 0xFFFF) + k && (a < 0xFFFF0000 ==> ((a
        + k) as u32) < 0xFFFF0000))) by (bit_vector);
}

/// Moving forward by `x` and then by `y` is moving forward by `x + y`.
pub proof fn lemma_addr_add_add(a: u32, x: int, y: int)
    ensures
        addr_add(addr_add(a, x), y) == addr_add(a, x + y),
{
    vstd::arithmetic::div_mod::lemma_add_mod_noop(a + x, y, 0x1_0000_0000);
    vstd::arithmetic::div_mod::lemma_mod_twice(a + x, 0x1_0000_0000);
    vstd::arithmetic::div_mod::lemma_add_mod_noop((a + x) % 0x1_0000_0000, y, 0x1_0000_0000);
}

/// Lazy-initialized sequential list of memory pages.
///
/// Pages are only allocated on first access. Addresses from `MMIO_BASE` up go
/// to the attached device; with none attached they read as zero and ignore
/// writes.
pub struct Memory {
    pages: Vec<Vec<u8>>,
    device: Option<Box<dyn MmioDevice>>,
    mmio_log: Ghost<Seq<(u32, u32, u32)>>,
    mmio_read_log: Ghost<Seq<(u32, u32)>>,
    pub brk_ptr: u32,
    pub initial_brk: u32,
}

impl Default for Memory {
    fn default() -> (m: Self)
        ensures
            m.inv(),
            forall|a: u32| #[trigger] m.ram().contains_key(a) <==> a < MMIO_BASE,
            forall|a: u32| a < MMIO_BASE ==> #[trigger] m.ram()[a] == 0,
            m.brk() == DEFAULT_BRK,
            m.brk_floor() == DEFAULT_BRK,
            !m.has_device(),
            m.mmio_writes() == Seq::<(u32, u32, u32)>::empty(),
            m.mmio_reads() == Seq::<(u32, u32)>::empty(),
    {
        Memory::new()
    }
}

impl Memory {
    /// Every page is either unallocated (empty) or a full page.
    pub closed spec fn wf(&self) -> bool {
        &&& self.pages@.len() == NUM_PAGES
        &&& forall|i: int|
            0 <= i < NUM_PAGES ==> #[trigger] self.pages@[i]@.len() == 0 || self.pages@[i]@.len()
                == PAGE_SIZE
    }

    /// The byte stored at `addr`: zero on a page that was never written.
    pub closed spec fn byte(&self, addr: u32) -> u8 {
        let page = self.pages@[page_of(addr)]@;
        if page.len() == PAGE_SIZE {
            page[offset_in_page(addr)]
        } else {
            0
        }
    }

    /// The lowest program break that `set_brk` accepts.
    pub closed spec fn brk_floor(&self) -> u32 {
        self.initial_brk
    }

    /// The lowest program break that `set_brk` accepts: the public field
    /// `initial_brk`.
    pub fn get_initial_brk(&self) -> (r: u32)
        ensures
            r == self.brk_floor(),
    {
        self.initial_brk
    }

    /// Whether a device is attached to the MMIO window.
    pub closed spec fn has_device(&self) -> bool {
        self.device is Some
    }

    /// Ordinary memory is every address below the MMIO window.
    pub proof fn lemma_ram_domain(&self)
        ensures
            forall|a: u32| #[trigger] self.ram().contains_key(a) <==> a < MMIO_BASE,
    {
    }

    pub fn new() -> (m: Self)
        ensures
            m.inv(),
            forall|a: u32| #[trigger] m.ram().contains_key(a) <==> a < MMIO_BASE,
            forall|a: u32| a < MMIO_BASE ==> #[trigger] m.ram()[a] == 0,
            m.brk() == DEFAULT_BRK,
            m.brk_floor() == DEFAULT_BRK,
            !m.has_device(),
            m.mmio_writes() == Seq::<(u32, u32, u32)>::empty(),
            m.mmio_reads() == Seq::<(u32, u32)>::empty(),
    {
        let mut pages: Vec<Vec<u8>> = Vec::with_capacity(NUM_PAGES);
        while pages.len() < NUM_PAGES
            invariant
                pages@.len() <= NUM_PAGES,
                forall|i: int| 0 <= i < pages@.len() ==> #[trigger] pages@[i]@.len() == 0,
            decreases NUM_PAGES - pages@.len(),
        {
            pages.push(Vec::new());
        }
        let initial_brk = DEFAULT_BRK;
        let m = Memory {
            pages,
            device: None,
            mmio_log: Ghost(Seq::empty()),
            mmio_read_log: Ghost(Seq::empty()),
            brk_ptr: initial_brk,
            initial_brk,
        };
        proof {
            assert forall|a: u32| a < MMIO_BASE implies #[trigger] m.ram()[a] == 0 by {
                lemma_addr_parts(a);
            }
        }
        m
    }

    /// Attach the device that answers the MMIO window.
    pub fn attach_device(&mut self, device: Box<dyn MmioDevice>)
        ensures
            final(self).inv() == old(self).inv(),
            final(self).ram() == old(self).ram(),
            final(self).brk() == old(self).brk(),
            final(self).brk_floor() == old(self).brk_floor(),
            final(self).mmio_writes() == old(self).mmio_writes(),
            final(self).mmio_reads() == old(self).mmio_reads(),
            final(self).has_device(),
    {
        self.device = Some(device);
    }

    /// Detach the device that answers the MMIO window, handing it back.
    pub fn take_device(&mut self) -> (r: Option<Box<dyn MmioDevice>>)
        ensures
            final(self).inv() == old(self).inv(),
            final(self).ram() == old(self).ram(),
            final(self).brk() == old(self).brk(),
            final(self).brk_floor() == old(self).brk_floor(),
            final(self).mmio_writes() == old(self).mmio_writes(),
            final(self).mmio_reads() == old(self).mmio_reads(),
            !final(self).has_device(),
            r is Some == old(self).has_device(),
    {
        self.device.take()
    }

    /// Allocate the page `page_idx` if it is not there yet; what memory holds does not change.
    fn get_or_create_page(&mut self, page_idx: usize)
        requires
            old(self).wf(),
            page_idx < NUM_PAGES,
        ensures
            final(self).wf(),
            final(self).pages@[page_idx as int]@.len() == PAGE_SIZE,
            forall|a: u32| #[trigger] final(self).byte(a) == old(self).byte(a),
            final(self).device == old(self).device,
            final(self).mmio_log == old(self).mmio_log,
            final(self).mmio_read_log == old(self).mmio_read_log,
            final(self).brk_ptr == old(self).brk_ptr,
            final(self).initial_brk == old(self).initial_brk,
    {
        if self.pages[page_idx].len() == 0 {
            let page: Vec<u8> = vec![0u8; PAGE_SIZE];
            proof {
                assert forall|k: int| 0 <= k < PAGE_SIZE implies page@[k] == 0u8 by {
                    assert(cloned::<u8>(0u8, page@[k]));
                }
            }
            self.pages.set(page_idx, page);
            proof {
                assert forall|a: u32| #[trigger] self.byte(a) == old(self).byte(a) by {
                    lemma_addr_parts(a);
                }
            }
        }
    }

    /// The page `page_idx`, if it has been allocated.
    fn get_page(&self, page_idx: usize) -> (r: Option<&Vec<u8>>)
        requires
            self.wf(),
            page_idx < NUM_PAGES,
        ensures
            r is Some <==> self.pages@[page_idx as int]@.len() == PAGE_SIZE,
            r matches Some(p) ==> p@ == self.pages@[page_idx as int]@,
    {
        if self.pages[page_idx].len() == PAGE_SIZE {
            Some(&self.pages[page_idx])
        } else {
            None
        }
    }

    /// What the MMIO device answers to a read of `size` bytes at `addr`; 0
    /// when no device is attached. The read is added to the record of reads
    /// handed to the MMIO window; nothing else changes.
    fn device_read(&mut self, addr: u32, size: u32) -> (r: u32)
        requires
            MMIO_BASE <= addr,
        ensures
            old(self).device is None ==> r == 0,
            final(self).mmio_read_log@ == old(self).mmio_read_log@.push((addr, size)),
            final(self).pages == old(self).pages,
            final(self).device == old(self).device,
            final(self).mmio_log == old(self).mmio_log,
            final(self).brk_ptr == old(self).brk_ptr,
            final(self).initial_brk == old(self).initial_brk,
    {
        let r = match &self.device {
            Some(d) => d.read(addr, size),
            None => 0,
        };
        self.mmio_read_log = Ghost(self.mmio_read_log@.push((addr, size)));
        r
    }

    /// Hand the write of `val` (`size` bytes at `addr`) to the MMIO device,
    /// if one is attached, and add it to the record of writes handed to the
    /// MMIO window; nothing else changes.
    fn device_write(&mut self, addr: u32, size: u32, val: u32)
        requires
            MMIO_BASE <= addr,
        ensures
            final(self).mmio_log@ == old(self).mmio_log@.push((addr, size, val)),
            final(self).pages == old(self).pages,
            final(self).device == old(self).device,
            final(self).mmio_read_log == old(self).mmio_read_log,
            final(self).brk_ptr == old(self).brk_ptr,
            final(self).initial_brk == old(self).initial_brk,
    {
        match &self.device {
            Some(d) => d.write(addr, size, val),
            None => {},
        }
        self.mmio_log = Ghost(self.mmio_log@.push((addr, size, val)));
    }

    /// Memories that differ at most in their records of MMIO accesses hold
    /// the same ordinary memory.
    proof fn lemma_same_store(a: Memory, b: Memory)
        requires
            a.pages == b.pages,
            a.brk_ptr == b.brk_ptr,
            a.initial_brk == b.initial_brk,
        ensures
            a.ram() == b.ram(),
            a.wf() == b.wf(),
            a.brk() == b.brk(),
            a.brk_floor() == b.brk_floor(),
    {
        assert(a.ram() =~= b.ram());
    }
}

/// Masking zero leaves zero.
proof fn lemma_zero_masks()
    ensures
        0u32 & 0xFF == 0,
        0u32 & 0xFFFF == 0,
{
    assert(0u32 & 0xFF == 0 && 0u32 & 0xFFFF == 0) by (bit_vector);
}

/// Page number of an address, as an index into the page list.
fn idx_of(addr: u32) -> (r: usize)
    ensures
        r as int == page_of(addr),
        r < NUM_PAGES,
{
    assert(addr >> 16 < 0x1_0000) by {
        lemma_addr_bits(addr);
    }
    (addr >> PAGE_SHIFT) as usize
}

/// Offset of an address inside its page.
fn offset_of(addr: u32) -> (r: usize)
    ensures
        r as int == offset_in_page(addr),
        r < PAGE_SIZE,
{
    assert(addr & 0xFFFF < 0x1_0000) by {
        lemma_addr_bits(addr);
    }
    (addr & PAGE_MASK) as usize
}

impl Memory {
    /// Storing one byte into an allocated page changes exactly the byte at that address.
    proof fn lemma_set_byte(before: Memory, after: Memory, a: u32, v: u8)
        requires
            before.wf(),
            before.pages@[page_of(a)]@.len() == PAGE_SIZE,
            after.pages@.len() == before.pages@.len(),
            after.pages@[page_of(a)]@ == before.pages@[page_of(a)]@.update(offset_in_page(a), v),
            forall|i: int| 0 <= i < NUM_PAGES && i != page_of(a) ==> #[trigger] after.pages@[i]
                == before.pages@[i],
        ensures
            after.wf(),
            forall|b: u32| #[trigger] after.byte(b) == if b == a { v } else { before.byte(b) },
    {
        lemma_addr_parts(a);
        assert forall|i: int| 0 <= i < NUM_PAGES implies #[trigger] after.pages@[i]@.len() == 0
            || after.pages@[i]@.len() == PAGE_SIZE by {
            if i != page_of(a) {
                assert(after.pages@[i] == before.pages@[i]);
            }
        }
        assert forall|b: u32| #[trigger] after.byte(b) == if b == a { v } else { before.byte(b) } by {
            lemma_addr_parts(b);
            if b != a && page_of(b) == page_of(a) && offset_in_page(b) == offset_in_page(a) {
                lemma_page_offset_injective(a, b);
            }
            if page_of(b) != page_of(a) {
                assert(after.pages@[page_of(b)] == before.pages@[page_of(b)]);
            }
        }
    }
}

impl MemoryOps for Memory {
    closed spec fn inv(&self) -> bool {
        self.wf()
    }

    closed spec fn ram(&self) -> Map<u32, u8> {
        Map::new(|a: u32| a < MMIO_BASE, |a: u32| self.byte(a))
    }

    closed spec fn brk(&self) -> u32 {
        self.brk_ptr
    }

    closed spec fn mmio_writes(&self) -> Seq<(u32, u32, u32)> {
        self.mmio_log@
    }

    closed spec fn mmio_reads(&self) -> Seq<(u32, u32)> {
        self.mmio_read_log@
    }

    fn read_u8(&mut self, addr: u32) -> (r: u8)
        ensures
            final(self).has_device() == old(self).has_device(),
            final(self).brk_floor() == old(self).brk_floor(),
            addr >= MMIO_BASE && !old(self).has_device() ==> r == 0,
    {
        if addr >= MMIO_BASE {
            let v = self.device_read(addr, 1);
            proof {
                Memory::lemma_same_store(*self, *old(self));
                lemma_zero_masks();
            }
            return (v & 0xFF) as u8;
        }
        match self.get_page(idx_of(addr)) {
            Some(page) => page[offset_of(addr)],
            // Memory is zero-initialized by default.
            None => 0,
        }
    }

    fn write_u8(&mut self, addr: u32, val: u8)
        ensures
            final(self).has_device() == old(self).has_device(),
            final(self).brk_floor() == old(self).brk_floor(),
    {
        if addr >= MMIO_BASE {
            self.device_write(addr, 1, val as u32);
            proof {
                Memory::lemma_same_store(*self, *old(self));
            }
            return;
        }
        let idx = idx_of(addr);
        let off = offset_of(addr);
        self.get_or_create_page(idx);
        let ghost mid = *self;
        self.pages[idx].set(off, val);
        proof {
            assert forall|a: u32| a != addr implies #[trigger] self.byte(a) == mid.byte(a) by {
                lemma_addr_parts(a);
                if page_of(a) == idx as int && offset_in_page(a) == off as int {
                    lemma_page_offset_injective(a, addr);
                }
            }
            assert(self.ram() =~= ram_store(old(self).ram(), addr, val));
        }
    }

    fn read_u16(&mut self, addr: u32) -> (r: u16)
        ensures
            final(self).has_device() == old(self).has_device(),
            final(self).brk_floor() == old(self).brk_floor(),
            addr >= MMIO_BASE ==> final(self).mmio_reads() == old(self).mmio_reads().push(
                (addr, 2u32),
            ),
            addr >= MMIO_BASE && !old(self).has_device() ==> r == 0,
    {
        proof {
            assert(addr_add(addr, 0) == addr);
        }
        if addr >= MMIO_BASE {
            proof {
                if in_ram(self.ram(), addr, 2) {
                    assert(self.ram().contains_key(addr_add(addr, 0)));
                }
            }
            let v = self.device_read(addr, 2);
            proof {
                Memory::lemma_same_store(*self, *old(self));
                lemma_zero_masks();
            }
            return (v & 0xFFFF) as u16;
        }
        let offset = offset_of(addr);
        if addr & 1 == 0 || offset + 1 < PAGE_SIZE {
            assert(addr & 1 == 0 ==> (addr & 0xFFFF) + 1 < 0x1_0000) by {
                lemma_addr_bits(addr);
            }
            proof {
                lemma_within_page(addr, 1);
                assert(addr_add(addr, 0) == addr);
            }
            let page_idx = idx_of(addr);
            if let Some(page) = self.get_page(page_idx) {
                let b0 = page[offset];
                let b1 = page[offset + 1];
                assert((b0 as u16) | ((b1 as u16) << 8) == le16(b0, b1)) by {
                    lemma_le16_bytes(b0, b1);
                }
                return (b0 as u16) | ((b1 as u16) << 8);
            }
            assert(le16(0, 0) == 0);
            return 0;
        }
        proof {
            assert(addr_add(addr, 0) == addr);
        }
        let b0 = self.read_u8(addr);
        let b1 = self.read_u8(addr.wrapping_add(1));
        assert((b0 as u16) | ((b1 as u16) << 8) == le16(b0, b1)) by {
            lemma_le16_bytes(b0, b1);
        }
        (b0 as u16) | ((b1 as u16) << 8)
    }

    fn write_u16(&mut self, addr: u32, val: u16)
        ensures
            addr >= MMIO_BASE ==> final(self).ram() == old(self).ram(),
            addr < MMIO_BASE ==> final(self).ram() == ram_store_u16(old(self).ram(), addr, val),
            addr >= MMIO_BASE ==> final(self).mmio_writes() == old(self).mmio_writes().push(
                (addr, 2u32, val as u32),
            ),
            final(self).has_device() == old(self).has_device(),
            final(self).brk_floor() == old(self).brk_floor(),
    {
        assert((val & 0xFF) as u8 == (val % 0x100) as u8 && (val >> 8) as u8 == (val / 0x100) as u8)
            by {
                lemma_u16_bytes(val);
            }
        proof {
            assert(addr_add(addr, 0) == addr);
        }
        if addr >= MMIO_BASE {
            self.device_write(addr, 2, val as u32);
            proof {
                Memory::lemma_same_store(*self, *old(self));
            }
            return;
        }
        let offset = offset_of(addr);
        if addr & 1 == 0 || offset + 1 < PAGE_SIZE {
            assert(addr & 1 == 0 ==> (addr & 0xFFFF) + 1 < 0x1_0000) by {
                lemma_addr_bits(addr);
            }
            proof {
                lemma_within_page(addr, 1);
            }
            let page_idx = idx_of(addr);
            self.get_or_create_page(page_idx);
            let ghost mid = *self;
            self.pages[page_idx].set(offset, (val & 0xFF) as u8);
            self.pages[page_idx].set(offset + 1, (val >> 8) as u8);
            proof {
                let a1 = addr_add(addr, 1);
                assert forall|a: u32| a != addr && a != a1 implies #[trigger] self.byte(a)
                    == mid.byte(a) by {
                    lemma_addr_parts(a);
                    if page_of(a) == page_idx as int && offset_in_page(a) == offset as int {
                        lemma_page_offset_injective(a, addr);
                    }
                    if page_of(a) == page_idx as int && offset_in_page(a) == offset + 1 {
                        lemma_page_offset_injective(a, a1);
                    }
                }
                assert(self.ram() =~= ram_store_u16(old(self).ram(), addr, val));
            }
            return;
        }
        self.write_u8(addr, (val & 0xFF) as u8);
        self.write_u8(addr.wrapping_add(1), (val >> 8) as u8);
    }

    fn read_u32(&mut self, addr: u32) -> (r: u32)
        ensures
            final(self).has_device() == old(self).has_device(),
            final(self).brk_floor() == old(self).brk_floor(),
            addr >= MMIO_BASE ==> final(self).mmio_reads() == old(self).mmio_reads().push(
                (addr, 4u32),
            ),
            addr >= MMIO_BASE && !old(self).has_device() ==> r == 0,
    {
        proof {
            assert(addr_add(addr, 0) == addr);
        }
        if addr >= MMIO_BASE {
            proof {
                if in_ram(self.ram(), addr, 4) {
                    assert(self.ram().contains_key(addr_add(addr, 0)));
                }
            }
            let v = self.device_read(addr, 4);
            proof {
                Memory::lemma_same_store(*self, *old(self));
            }
            return v;
        }
        let offset = offset_of(addr);
        if addr & 3 == 0 || offset + 3 < PAGE_SIZE {
            assert(addr & 3 == 0 ==> (addr & 0xFFFF) + 3 < 0x1_0000) by {
                lemma_addr_bits(addr);
            }
            proof {
                lemma_within_page(addr, 1);
                lemma_within_page(addr, 2);
                lemma_within_page(addr, 3);
                assert(addr_add(addr, 0) == addr);
            }
            let page_idx = idx_of(addr);
            if let Some(page) = self.get_page(page_idx) {
                let b0 = page[offset];
                let b1 = page[offset + 1];
                let b2 = page[offset + 2];
                let b3 = page[offset + 3];
                assert((b0 as u32) | ((b1 as u32) << 8) | ((b2 as u32) << 16) | ((b3 as u32) << 24)
                    == le32(b0, b1, b2, b3)) by {
                        lemma_le32_bytes(b0, b1, b2, b3);
                    }
                return (b0 as u32) | ((b1 as u32) << 8) | ((b2 as u32) << 16) | ((b3 as u32) << 24);
            }
            assert(le32(0, 0, 0, 0) == 0);
            return 0;
        }
        proof {
            assert(addr_add(addr, 0) == addr);
        }
        let b0 = self.read_u8(addr);
        let b1 = self.read_u8(addr.wrapping_add(1));
        let b2 = self.read_u8(addr.wrapping_add(2));
        let b3 = self.read_u8(addr.wrapping_add(3));
        assert((b0 as u32) | ((b1 as u32) << 8) | ((b2 as u32) << 16) | ((b3 as u32) << 24) == le32(
            b0,
            b1,
            b2,
            b3,
        )) by {
            lemma_le32_bytes(b0, b1, b2, b3);
        }
        (b0 as u32) | ((b1 as u32) << 8) | ((b2 as u32) << 16) | ((b3 as u32) << 24)
    }

    fn fetch_window(&mut self, addr: u32) -> (r: (u32, bool))
        ensures
            final(self).has_device() == old(self).has_device(),
            final(self).brk_floor() == old(self).brk_floor(),
            in_ram(old(self).ram(), addr, 2) ==> final(self).mmio_reads() == old(
                self,
            ).mmio_reads(),
            addr < MMIO_BASE - 1 ==> final(self).mmio_reads() == old(self).mmio_reads(),
            r.1 <==> addr < MMIO_BASE && offset_in_page(addr) + 3 < PAGE_SIZE,
            !r.1 ==> r.0 < 0x1_0000,
    {
        proof {
            if addr < MMIO_BASE - 1 {
                vstd::arithmetic::div_mod::lemma_small_mod(addr as nat, 0x1_0000_0000);
                vstd::arithmetic::div_mod::lemma_small_mod((addr + 1) as nat, 0x1_0000_0000);
                assert(self.ram().contains_key(addr_add(addr, 0)));
                assert(self.ram().contains_key(addr_add(addr, 1)));
            }
        }
        let offset = offset_of(addr);
        // The whole four-byte window is inside one ordinary page: one bounds
        // check, one page lookup, one load. This is the path every instruction
        // that is not on a page edge takes.
        if addr < MMIO_BASE && offset + 3 < PAGE_SIZE {
            proof {
                lemma_within_page(addr, 1);
                lemma_within_page(addr, 2);
                lemma_within_page(addr, 3);
                assert(addr_add(addr, 0) == addr);
            }
            return match self.get_page(idx_of(addr)) {
                Some(page) => {
                    let b0 = page[offset];
                    let b1 = page[offset + 1];
                    let b2 = page[offset + 2];
                    let b3 = page[offset + 3];
                    assert((b0 as u32) | ((b1 as u32) << 8) | ((b2 as u32) << 16) | ((b3 as u32)
                        << 24) == le32(b0, b1, b2, b3)) by {
                            lemma_le32_bytes(b0, b1, b2, b3);
                        }
                    ((b0 as u32) | ((b1 as u32) << 8) | ((b2 as u32) << 16) | ((b3 as u32) << 24), true)
                },
                // Unmapped pages read as zero, and the all-zero halfword is the
                // canonical illegal instruction, which is the right answer for
                // a fetch from nothing.
                None => {
                    assert(le32(0, 0, 0, 0) == 0);
                    (0, true)
                },
            };
        }
        // Page edge, or the MMIO window. Read only the halfword that was asked
        // for: widening the read here could trigger a device read the guest
        // never performed.
        (self.read_u16(addr) as u32, false)
    }

    fn write_u32(&mut self, addr: u32, val: u32)
        ensures
            addr >= MMIO_BASE ==> final(self).ram() == old(self).ram(),
            addr < MMIO_BASE ==> final(self).ram() == ram_store_u32(old(self).ram(), addr, val),
            addr >= MMIO_BASE ==> final(self).mmio_writes() == old(self).mmio_writes().push(
                (addr, 4u32, val),
            ),
            final(self).has_device() == old(self).has_device(),
            final(self).brk_floor() == old(self).brk_floor(),
    {
        assert((val & 0xFF) as u8 == (val % 0x100) as u8 && ((val >> 8) & 0xFF) as u8 == ((val
            / 0x100) % 0x100) as u8 && ((val >> 16) & 0xFF) as u8 == ((val / 0x1_0000) % 0x100) as u8
            && (val >> 24) as u8 == (val / 0x100_0000) as u8) by {
                lemma_u32_bytes(val);
            }
        proof {
            assert(addr_add(addr, 0) == addr);
        }
        if addr >= MMIO_BASE {
            self.device_write(addr, 4, val);
            proof {
                Memory::lemma_same_store(*self, *old(self));
            }
            return;
        }
        let offset = offset_of(addr);
        if addr & 3 == 0 || offset + 3 < PAGE_SIZE {
            assert(addr & 3 == 0 ==> (addr & 0xFFFF) + 3 < 0x1_0000) by {
                lemma_addr_bits(addr);
            }
            proof {
                lemma_within_page(addr, 1);
                lemma_within_page(addr, 2);
                lemma_within_page(addr, 3);
            }
            let page_idx = idx_of(addr);
            self.get_or_create_page(page_idx);
            let ghost mid = *self;
            self.pages[page_idx].set(offset, (val & 0xFF) as u8);
            self.pages[page_idx].set(offset + 1, ((val >> 8) & 0xFF) as u8);
            self.pages[page_idx].set(offset + 2, ((val >> 16) & 0xFF) as u8);
            self.pages[page_idx].set(offset + 3, (val >> 24) as u8);
            proof {
                let a1 = addr_add(addr, 1);
                let a2 = addr_add(addr, 2);
                let a3 = addr_add(addr, 3);
                assert forall|a: u32| a != addr && a != a1 && a != a2 && a != a3 implies #[trigger] self.byte(
                    a,
                ) == mid.byte(a) by {
                    lemma_addr_parts(a);
                    if page_of(a) == page_idx as int {
                        if offset_in_page(a) == offset as int {
                            lemma_page_offset_injective(a, addr);
                        }
                        if offset_in_page(a) == offset + 1 {
                            lemma_page_offset_injective(a, a1);
                        }
                        if offset_in_page(a) == offset + 2 {
                            lemma_page_offset_injective(a, a2);
                        }
                        if offset_in_page(a) == offset + 3 {
                            lemma_page_offset_injective(a, a3);
                        }
                    }
                }
                assert(self.ram() =~= ram_store_u32(old(self).ram(), addr, val));
            }
            return;
        }
        self.write_u8(addr, (val & 0xFF) as u8);
        self.write_u8(addr.wrapping_add(1), ((val >> 8) & 0xFF) as u8);
        self.write_u8(addr.wrapping_add(2), ((val >> 16) & 0xFF) as u8);
        self.write_u8(addr.wrapping_add(3), (val >> 24) as u8);
    }

    fn read_bytes(&mut self, addr: u32, len: usize) -> (r: Vec<u8>)
        ensures
            final(self).has_device() == old(self).has_device(),
            final(self).brk_floor() == old(self).brk_floor(),
    {
        let mut buf: Vec<u8> = Vec::new();
        if len == 0 {
            return buf;
        }
        let mut curr_addr = addr;
        let mut offset_in_buf: usize = 0;
        proof {
            assert(addr_add(addr, 0) == addr);
        }
        // This pattern coalesces reads from the same page, instead of having to repeatedly call
        // `.read_u8` or whatnot
        while offset_in_buf < len
            invariant
                self.inv(),
                self.ram() == old(self).ram(),
                self.brk() == old(self).brk(),
                self.mmio_writes() == old(self).mmio_writes(),
                self.has_device() == old(self).has_device(),
                self.brk_floor() == old(self).brk_floor(),
                in_ram(old(self).ram(), addr, len as int) ==> self.mmio_reads() == old(self).mmio_reads(),
                offset_in_buf <= len,
                buf@.len() == offset_in_buf,
                curr_addr == addr_add(addr, offset_in_buf as int),
                forall|j: int|
                    0 <= j < offset_in_buf && self.ram().contains_key(#[trigger] addr_add(addr, j))
                        ==> buf@[j] == self.ram()[addr_add(addr, j)],
            decreases len - offset_in_buf,
        {
            if curr_addr >= MMIO_BASE {
                proof {
                    if in_ram(old(self).ram(), addr, len as int) {
                        assert(old(self).ram().contains_key(addr_add(addr, offset_in_buf as int)));
                    }
                }
                while offset_in_buf < len
                    invariant
                        self.inv(),
                        self.ram() == old(self).ram(),
                        self.brk() == old(self).brk(),
                        self.mmio_writes() == old(self).mmio_writes(),
                        self.has_device() == old(self).has_device(),
                        self.brk_floor() == old(self).brk_floor(),
                        in_ram(old(self).ram(), addr, len as int) ==> self.mmio_reads() == old(self).mmio_reads(),
                        !in_ram(old(self).ram(), addr, len as int),
                        offset_in_buf <= len,
                        buf@.len() == offset_in_buf,
                        curr_addr == addr_add(addr, offset_in_buf as int),
                        forall|j: int|
                            0 <= j < offset_in_buf && self.ram().contains_key(
                                #[trigger] addr_add(addr, j),
                            ) ==> buf@[j] == self.ram()[addr_add(addr, j)],
                    decreases len - offset_in_buf,
                {
                    buf.push(self.read_u8(curr_addr));
                    proof {
                        lemma_addr_add_add(addr, offset_in_buf as int, 1);
                        lemma_wrapping_add_usize(curr_addr, 1);
                    }
                    curr_addr = curr_addr.wrapping_add(1);
                    offset_in_buf = offset_in_buf + 1;
                }
            } else {
                let page_idx = idx_of(curr_addr);
                let page_offset = offset_of(curr_addr);
                let room = PAGE_SIZE - page_offset;
                let bytes_in_page = if room < len - offset_in_buf {
                    room
                } else {
                    len - offset_in_buf
                };
                let page = self.get_page(page_idx);
                let mut j: usize = 0;
                while j < bytes_in_page
                    invariant
                        self.inv(),
                        self.ram() == old(self).ram(),
                        self.brk() == old(self).brk(),
                        self.mmio_writes() == old(self).mmio_writes(),
                        self.has_device() == old(self).has_device(),
                        self.brk_floor() == old(self).brk_floor(),
                        in_ram(old(self).ram(), addr, len as int) ==> self.mmio_reads() == old(self).mmio_reads(),
                        curr_addr < MMIO_BASE,
                        page_idx as int == page_of(curr_addr),
                        page_offset as int == offset_in_page(curr_addr),
                        page_offset + bytes_in_page <= PAGE_SIZE,
                        offset_in_buf + bytes_in_page <= len,
                        j <= bytes_in_page,
                        buf@.len() == offset_in_buf + j,
                        curr_addr == addr_add(addr, offset_in_buf as int),
                        page is Some <==> self.pages@[page_idx as int]@.len() == PAGE_SIZE,
                        page matches Some(p) ==> p@ == self.pages@[page_idx as int]@,
                        forall|k: int|
                            0 <= k < offset_in_buf + j && self.ram().contains_key(
                                #[trigger] addr_add(addr, k),
                            ) ==> buf@[k] == self.ram()[addr_add(addr, k)],
                    decreases bytes_in_page - j,
                {
                    let b = match page {
                        Some(p) => p[page_offset + j],
                        None => 0,
                    };
                    proof {
                        lemma_within_page(curr_addr, j as int);
                        lemma_addr_add_add(addr, offset_in_buf as int, j as int);
                        lemma_addr_parts(curr_addr);
                    }
                    buf.push(b);
                    j = j + 1;
                }
                proof {
                    lemma_addr_add_add(addr, offset_in_buf as int, bytes_in_page as int);
                    lemma_wrapping_add_usize(curr_addr, bytes_in_page);
                }
                curr_addr = curr_addr.wrapping_add(bytes_in_page as u32);
                offset_in_buf = offset_in_buf + bytes_in_page;
            }
        }
        buf
    }

    fn write_bytes(&mut self, addr: u32, bytes: &[u8])
        ensures
            final(self).has_device() == old(self).has_device(),
            final(self).brk_floor() == old(self).brk_floor(),
    {
        let len = bytes.len();
        if len == 0 {
            proof {
                assert(ram_store_bytes(old(self).ram(), addr, bytes@) =~= old(self).ram());
            }
            return;
        }
        let ghost start = self.ram();
        let mut curr_addr = addr;
        let mut offset_in_src: usize = 0;
        proof {
            assert(addr_add(addr, 0) == addr);
            assert(ram_store_bytes(start, addr, bytes@.subrange(0, 0)) =~= start);
        }
        while offset_in_src < len
            invariant
                self.inv(),
                len == bytes@.len(),
                offset_in_src <= len,
                curr_addr == addr_add(addr, offset_in_src as int),
                self.ram().dom() == start.dom(),
                self.brk() == old(self).brk(),
                self.has_device() == old(self).has_device(),
                self.brk_floor() == old(self).brk_floor(),
                self.mmio_reads() == old(self).mmio_reads(),
                in_ram(start, addr, len as int) ==> self.mmio_writes() == old(self).mmio_writes(),
                len <= 0x1_0000_0000 ==> self.ram() == ram_store_bytes(
                    start,
                    addr,
                    bytes@.subrange(0, offset_in_src as int),
                ),
            decreases len - offset_in_src,
        {
            if curr_addr >= MMIO_BASE {
                proof {
                    if in_ram(start, addr, len as int) {
                        assert(start.contains_key(addr_add(addr, offset_in_src as int)));
                    }
                }
                while offset_in_src < len
                    invariant
                        self.inv(),
                        len == bytes@.len(),
                        offset_in_src <= len,
                        curr_addr == addr_add(addr, offset_in_src as int),
                        self.ram().dom() == start.dom(),
                        self.brk() == old(self).brk(),
                        self.has_device() == old(self).has_device(),
                        self.brk_floor() == old(self).brk_floor(),
                        self.mmio_reads() == old(self).mmio_reads(),
                        !in_ram(start, addr, len as int),
                        len <= 0x1_0000_0000 ==> self.ram() == ram_store_bytes(
                            start,
                            addr,
                            bytes@.subrange(0, offset_in_src as int),
                        ),
                    decreases len - offset_in_src,
                {
                    self.write_u8(curr_addr, bytes[offset_in_src]);
                    proof {
                        if len <= 0x1_0000_0000 {
                            lemma_store_bytes_step(start, addr, bytes@, offset_in_src as int);
                        }
                        lemma_addr_add_add(addr, offset_in_src as int, 1);
                        lemma_wrapping_add_usize(curr_addr, 1);
                    }
                    curr_addr = curr_addr.wrapping_add(1);
                    offset_in_src = offset_in_src + 1;
                }
            } else {
                let page_idx = idx_of(curr_addr);
                let page_offset = offset_of(curr_addr);
                let room = PAGE_SIZE - page_offset;
                let bytes_in_page = if room < len - offset_in_src {
                    room
                } else {
                    len - offset_in_src
                };
                self.get_or_create_page(page_idx);
                proof {
                    if len <= 0x1_0000_0000 {
                        assert(self.ram() =~= ram_store_bytes(
                            start,
                            addr,
                            bytes@.subrange(0, offset_in_src as int),
                        ));
                    }
                }
                let mut j: usize = 0;
                while j < bytes_in_page
                    invariant
                        self.inv(),
                        len == bytes@.len(),
                        curr_addr < MMIO_BASE,
                        page_idx as int == page_of(curr_addr),
                        page_offset as int == offset_in_page(curr_addr),
                        page_offset + bytes_in_page <= PAGE_SIZE,
                        offset_in_src + bytes_in_page <= len,
                        j <= bytes_in_page,
                        page_idx < NUM_PAGES,
                        self.pages@[page_idx as int]@.len() == PAGE_SIZE,
                        curr_addr == addr_add(addr, offset_in_src as int),
                        self.ram().dom() == start.dom(),
                        self.brk() == old(self).brk(),
                        self.has_device() == old(self).has_device(),
                        self.brk_floor() == old(self).brk_floor(),
                        self.mmio_reads() == old(self).mmio_reads(),
                        in_ram(start, addr, len as int) ==> self.mmio_writes() == old(
                            self,
                        ).mmio_writes(),
                        len <= 0x1_0000_0000 ==> self.ram() == ram_store_bytes(
                            start,
                            addr,
                            bytes@.subrange(0, offset_in_src + j),
                        ),
                    decreases bytes_in_page - j,
                {
                    let ghost before = *self;
                    let a = Ghost(addr_add(curr_addr, j as int));
                    proof {
                        lemma_within_page(curr_addr, j as int);
                        lemma_addr_add_add(addr, offset_in_src as int, j as int);
                        lemma_addr_parts(curr_addr);
                    }
                    self.pages[page_idx].set(page_offset + j, bytes[offset_in_src + j]);
                    proof {
                        Memory::lemma_set_byte(before, *self, a@, bytes@[offset_in_src + j]);
                        assert(self.ram() =~= ram_store(before.ram(), a@, bytes@[offset_in_src + j]));
                        if len <= 0x1_0000_0000 {
                            lemma_store_bytes_step(start, addr, bytes@, offset_in_src + j);
                        }
                    }
                    j = j + 1;
                }
                proof {
                    lemma_addr_add_add(addr, offset_in_src as int, bytes_in_page as int);
                    lemma_wrapping_add_usize(curr_addr, bytes_in_page);
                }
                curr_addr = curr_addr.wrapping_add(bytes_in_page as u32);
                offset_in_src = offset_in_src + bytes_in_page;
            }
        }
        proof {
            assert(bytes@.subrange(0, len as int) =~= bytes@);
        }
    }

    fn get_brk(&self) -> (r: u32) {
        self.brk_ptr
    }

    open spec fn brk_accepts(&self, val: u32) -> bool {
        val >= self.brk_floor() && val < MMIO_BASE
    }

    fn set_brk(&mut self, val: u32)
        ensures
            final(self).brk() == (if val >= old(self).brk_floor() && val < MMIO_BASE {
                val
            } else {
                old(self).brk()
            }),
            final(self).brk_floor() == old(self).brk_floor(),
            final(self).has_device() == old(self).has_device(),
    {
        if val >= self.initial_brk && val < MMIO_BASE {
            self.brk_ptr = val;
        }
    }
}


} // verus!
