//! Loading a program: an ELF file's loadable segments (or, for a relocatable
//! object, its sections) into memory, its symbols into the symbol table, and
//! the entry point into `pc`. Anything that is not an ELF file is loaded as a
//! raw image at address 0.
use crate::isa::word;
use crate::memory::{ram_store_bytes, Memory, MemoryOps};
use crate::text::same_text;
use std::collections::HashMap;
use vstd::prelude::*;

verus! {

/// ELF program-header type of a loadable segment.
pub const PT_LOAD: u32 = 1;

/// ELF section type of program data.
pub const SHT_PROGBITS: u32 = 1;

/// ELF section type of a section that occupies no space in the file (`.bss`).
pub const SHT_NOBITS: u32 = 8;

/// ELF section flag: the section occupies memory while the program runs.
pub const SHF_ALLOC: u64 = 2;

/// Where sections without an address are placed, and the entry point when
/// nothing else gives one.
pub const DEFAULT_LOAD_ADDRESS: u32 = 0x10000;

/// A program header: type, file offset, size in the file, virtual address.
pub type Segment = (u32, u64, u64, u64);

/// A section header: size, file offset, flags, type, address, alignment.
pub type Section = (u64, u64, u64, u32, u64, u64);

/// A symbol: name (when the string table has one), value, section index.
pub type Symbol = (Option<String>, u64, usize);

/// The parts of an ELF file that the loader reads.
pub struct ElfImage {
    pub entry: u64,
    pub segments: Vec<Segment>,
    pub sections: Vec<Section>,
    pub symbols: Vec<Symbol>,
}

/// A symbol with its name as characters.
pub open spec fn symbol_view(s: Symbol) -> (Option<Seq<char>>, u64, usize) {
    (
        match s.0 {
            Some(n) => Some(n@),
            None => None,
        },
        s.1,
        s.2,
    )
}

/// What an ELF file holds for the loader, as plain values.
pub struct ElfData {
    pub entry: u64,
    pub segments: Seq<Segment>,
    pub sections: Seq<Section>,
    pub symbols: Seq<(Option<Seq<char>>, u64, usize)>,
}

impl ElfImage {
    pub open spec fn data(&self) -> ElfData {
        ElfData {
            entry: self.entry,
            segments: self.segments@,
            sections: self.sections@,
            symbols: self.symbols@.map_values(|s: Symbol| symbol_view(s)),
        }
    }
}

/// What goblin's ELF parser reads from `bytes`: `None` when it does not
/// accept them as an ELF file.
pub uninterp spec fn elf_contents(bytes: Seq<u8>) -> Option<ElfData>;

/// Parses `bytes` with `goblin::elf::Elf::parse` and hands back the entry
/// point, the program and section headers, and the symbols with their names
/// looked up in the string table (`Strtab::get_at`). Nothing is claimed of
/// what the parser finds beyond its being a function of the bytes.
#[verifier::external_body]
pub(crate) fn parse_elf(bytes: &[u8]) -> (r: Option<ElfImage>)
    ensures
        match r {
            Some(image) => elf_contents(bytes@) == Some(image.data()),
            None => elf_contents(bytes@) is None,
        },
{
    let elf = goblin::elf::Elf::parse(bytes).ok()?;
    let segments = elf.program_headers.iter().map(|p| (p.p_type, p.p_offset, p.p_filesz, p.p_vaddr));
    let sections = elf.section_headers.iter();
    let sections = sections.map(|h| (h.sh_size, h.sh_offset, h.sh_flags, h.sh_type, h.sh_addr, h.sh_addralign));
    let names = elf.syms.iter().map(|s| (elf.strtab.get_at(s.st_name).map(String::from), s.st_value, s.st_shndx));
    Some(ElfImage { entry: elf.header.e_entry, segments: segments.collect(), sections: sections.collect(), symbols: names.collect() })
}

/// Whether `bytes[offset..offset + size]` lies inside the file.
pub open spec fn in_file(bytes: Seq<u8>, offset: u64, size: u64) -> bool {
    (offset as usize) + (size as usize) <= bytes.len()
}

/// The file bytes `bytes[offset..offset + size]`.
pub open spec fn file_part(bytes: Seq<u8>, offset: u64, size: u64) -> Seq<u8> {
    bytes.subrange(offset as usize as int, (offset as usize) + (size as usize))
}

/// `ram` after the loadable segments of `segs` that lie in the file are
/// copied to their addresses, in order.
pub open spec fn load_segments(ram: Map<u32, u8>, bytes: Seq<u8>, segs: Seq<Segment>) -> Map<u32, u8>
    decreases segs.len(),
{
    if segs.len() == 0 {
        ram
    } else {
        let r = load_segments(ram, bytes, segs.drop_last());
        let g = segs.last();
        if g.0 == PT_LOAD && in_file(bytes, g.1, g.2) {
            ram_store_bytes(r, g.3 as u32, file_part(bytes, g.1, g.2))
        } else {
            r
        }
    }
}

/// A symbol as the loader reads it: name (as characters), value, section index.
pub type SymbolData = (Option<Seq<char>>, u64, usize);

/// The symbol table with names as characters.
pub open spec fn symbol_names(table: Map<u32, String>) -> Map<u32, Seq<char>> {
    table.map_values(|n: String| n@)
}

/// Whether a symbol has a name that is not empty.
pub open spec fn named(s: SymbolData) -> bool {
    s.0 is Some && s.0.unwrap().len() > 0
}

/// The symbols of a linked program added to `table`: each named symbol with
/// a nonzero value, at its value; a later one replaces an earlier one.
pub open spec fn add_linked_symbols(table: Map<u32, Seq<char>>, syms: Seq<SymbolData>) -> Map<u32, Seq<char>>
    decreases syms.len(),
{
    if syms.len() == 0 {
        table
    } else {
        let t = add_linked_symbols(table, syms.drop_last());
        let s = syms.last();
        if named(s) && s.1 != 0 {
            t.insert(s.1 as u32, s.0.unwrap())
        } else {
            t
        }
    }
}

/// Whether the loader places section `h` in memory: it is not empty, and it
/// is allocated or holds program data.
pub open spec fn section_placed(h: Section) -> bool {
    (h.0 as usize) > 0 && (h.2 & SHF_ALLOC != 0 || h.3 == SHT_PROGBITS)
}

/// The addresses the sections `secs` are given (0 for one not placed), and
/// the next free address. A section without an address of its own goes to
/// the next free address, aligned as it asks (to 4 bytes when it asks for
/// nothing), starting from `DEFAULT_LOAD_ADDRESS`.
pub open spec fn section_layout(secs: Seq<Section>) -> (Seq<u32>, u32)
    decreases secs.len(),
{
    if secs.len() == 0 {
        (Seq::empty(), DEFAULT_LOAD_ADDRESS)
    } else {
        let (addrs, next) = section_layout(secs.drop_last());
        let h = secs.last();
        if !section_placed(h) {
            (addrs.push(0), next)
        } else if h.4 != 0 {
            (addrs.push(h.4 as u32), next)
        } else {
            let align: u32 = if h.5 > 0 {
                h.5 as u32
            } else {
                4
            };
            let mask = word(align - 1);
            let start = word(next + mask) & !mask;
            (addrs.push(start), word(start + ((h.0 as usize) as u32)))
        }
    }
}

/// `ram` after the placed sections of `secs` that have file data lying in
/// the file are copied to the addresses `addrs` gives them, in order.
pub open spec fn load_sections(ram: Map<u32, u8>, bytes: Seq<u8>, secs: Seq<Section>, addrs: Seq<u32>) -> Map<u32, u8>
    decreases secs.len(),
{
    if secs.len() == 0 {
        ram
    } else {
        let r = load_sections(ram, bytes, secs.drop_last(), addrs);
        let i = secs.len() - 1;
        let h = secs.last();
        if section_placed(h) && h.3 != SHT_NOBITS && in_file(bytes, h.1, h.0) {
            ram_store_bytes(r, addrs[i], file_part(bytes, h.1, h.0))
        } else {
            r
        }
    }
}

/// Where a symbol of a relocatable object lies: its value past the address
/// of its section (`DEFAULT_LOAD_ADDRESS` for an index past the sections).
pub open spec fn object_symbol_address(s: SymbolData, addrs: Seq<u32>) -> u32 {
    let base = if s.2 < addrs.len() {
        addrs[s.2 as int]
    } else {
        DEFAULT_LOAD_ADDRESS
    };
    word(base + (s.1 as u32))
}

/// The symbols of a relocatable object added to `table`: each named symbol,
/// at its address.
pub open spec fn add_object_symbols(table: Map<u32, Seq<char>>, syms: Seq<SymbolData>, addrs: Seq<u32>) -> Map<u32, Seq<char>>
    decreases syms.len(),
{
    if syms.len() == 0 {
        table
    } else {
        let t = add_object_symbols(table, syms.drop_last(), addrs);
        let s = syms.last();
        if named(s) {
            t.insert(object_symbol_address(s, addrs), s.0.unwrap())
        } else {
            t
        }
    }
}

/// The entry point of a relocatable object, starting from `entry`: the
/// first `_start` or `main` symbol while none has been found.
pub open spec fn object_entry(entry: u32, syms: Seq<SymbolData>, addrs: Seq<u32>) -> u32
    decreases syms.len(),
{
    if syms.len() == 0 {
        entry
    } else {
        let e = object_entry(entry, syms.drop_last(), addrs);
        let s = syms.last();
        if named(s) && (s.0.unwrap() == "_start"@ || s.0.unwrap() == "main"@) && e == 0 {
            object_symbol_address(s, addrs)
        } else {
            e
        }
    }
}

/// The value of the first `_start` symbol with a nonzero value, if any.
pub open spec fn start_symbol(syms: Seq<SymbolData>) -> Option<u64>
    decreases syms.len(),
{
    if syms.len() == 0 {
        None
    } else {
        let s = syms[0];
        if s.0 == Some("_start"@) && s.1 != 0 {
            Some(s.1)
        } else {
            start_symbol(syms.drop_first())
        }
    }
}

/// The entry point of the program `d`: its header's entry for a linked
/// program; for a relocatable object, `_start` or `main`, else
/// `DEFAULT_LOAD_ADDRESS`; and a `_start` symbol overrides it when the
/// header names an entry.
pub open spec fn entry_point(d: ElfData) -> u32 {
    let first = if d.segments.len() > 0 {
        d.entry as u32
    } else {
        let e = object_entry(d.entry as u32, d.symbols, section_layout(d.sections).0);
        if e == 0 {
            DEFAULT_LOAD_ADDRESS
        } else {
            e
        }
    };
    if d.entry != 0 && start_symbol(d.symbols) is Some {
        start_symbol(d.symbols).unwrap() as u32
    } else {
        first
    }
}

/// Memory after the program `d` is loaded from the file `bytes` into `ram`.
pub open spec fn loaded_memory(ram: Map<u32, u8>, bytes: Seq<u8>, d: ElfData) -> Map<u32, u8> {
    if d.segments.len() > 0 {
        load_segments(ram, bytes, d.segments)
    } else {
        load_sections(ram, bytes, d.sections, section_layout(d.sections).0)
    }
}

/// The symbol table after the symbols of `d` are added to `table`.
pub open spec fn loaded_symbols(table: Map<u32, Seq<char>>, d: ElfData) -> Map<u32, Seq<char>> {
    if d.segments.len() > 0 {
        add_linked_symbols(table, d.symbols)
    } else {
        add_object_symbols(table, d.symbols, section_layout(d.sections).0)
    }
}

} // verus!

verus! {

broadcast use vstd::std_specs::hash::group_hash_axioms;

/// Copy the loadable segments `segs` that lie in the file `bytes` into memory.
pub fn copy_segments(mem: &mut Memory, bytes: &[u8], segs: &Vec<Segment>)
    requires
        old(mem).inv(),
    ensures
        final(mem).inv(),
        final(mem).has_device() == old(mem).has_device(),
        final(mem).brk_floor() == old(mem).brk_floor(),
        final(mem).brk() == old(mem).brk(),
        final(mem).ram().dom() == old(mem).ram().dom(),
        bytes@.len() <= 0x1_0000_0000 ==> final(mem).ram() == load_segments(
            old(mem).ram(),
            bytes@,
            segs@,
        ),
{
    let mut i: usize = 0;
    while i < segs.len()
        invariant
            mem.inv(),
            i <= segs@.len(),
            mem.has_device() == old(mem).has_device(),
            mem.brk_floor() == old(mem).brk_floor(),
            mem.brk() == old(mem).brk(),
            mem.ram().dom() == old(mem).ram().dom(),
            bytes@.len() <= 0x1_0000_0000 ==> mem.ram() == load_segments(
                old(mem).ram(),
                bytes@,
                segs@.subrange(0, i as int),
            ),
        decreases segs@.len() - i,
    {
        let (kind, offset, size, vaddr) = segs[i];
        proof {
            assert(segs@.subrange(0, i + 1).drop_last() =~= segs@.subrange(0, i as int));
        }
        let off = offset as usize;
        let len = size as usize;
        if kind == PT_LOAD && off <= bytes.len() && len <= bytes.len() - off {
            let part = &bytes[off..off + len];
            mem.write_bytes(vaddr as u32, part);
        }
        i = i + 1;
    }
    proof {
        assert(segs@.subrange(0, segs@.len() as int) =~= segs@);
    }
}

/// The addresses the sections `secs` are given.
pub fn layout_sections(secs: &Vec<Section>) -> (r: Vec<u32>)
    ensures
        r@ == section_layout(secs@).0,
        r@.len() == secs@.len(),
{
    let mut next: u32 = DEFAULT_LOAD_ADDRESS;
    let mut addrs: Vec<u32> = Vec::new();
    let mut i: usize = 0;
    while i < secs.len()
        invariant
            i <= secs@.len(),
            addrs@.len() == i,
            (addrs@, next) == section_layout(secs@.subrange(0, i as int)),
        decreases secs@.len() - i,
    {
        let (size, _offset, flags, kind, addr, align) = secs[i];
        proof {
            assert(secs@.subrange(0, i + 1).drop_last() =~= secs@.subrange(0, i as int));
        }
        let len = size as usize;
        if len > 0 && ((flags & SHF_ALLOC) != 0 || kind == SHT_PROGBITS) {
            if addr != 0 {
                addrs.push(addr as u32);
            } else {
                let al: u32 = if align > 0 {
                    align as u32
                } else {
                    4
                };
                proof {
                    crate::cpu::lemma_wrapping_add_word(0, al - 1);
                    crate::cpu::lemma_wrapping_add_word(next, word(al - 1) as int);
                    vstd::arithmetic::div_mod::lemma_small_mod(word(al - 1) as nat, 0x1_0000_0000);
                }
                let mask = al.wrapping_sub(1);
                assert(mask == word(al - 1));
                let start = next.wrapping_add(mask) & !mask;
                proof {
                    crate::cpu::lemma_wrapping_add_word(start, (len as u32) as int);
                    vstd::arithmetic::div_mod::lemma_small_mod((len as u32) as nat, 0x1_0000_0000);
                }
                next = start.wrapping_add(len as u32);
                addrs.push(start);
            }
        } else {
            addrs.push(0);
        }
        i = i + 1;
    }
    proof {
        assert(secs@.subrange(0, secs@.len() as int) =~= secs@);
    }
    addrs
}

/// Copy the placed sections `secs` that have file data lying in the file
/// `bytes` to their addresses `addrs`.
pub fn copy_sections(mem: &mut Memory, bytes: &[u8], secs: &Vec<Section>, addrs: &Vec<u32>)
    requires
        old(mem).inv(),
        addrs@.len() == secs@.len(),
    ensures
        final(mem).inv(),
        final(mem).has_device() == old(mem).has_device(),
        final(mem).brk_floor() == old(mem).brk_floor(),
        final(mem).brk() == old(mem).brk(),
        final(mem).ram().dom() == old(mem).ram().dom(),
        bytes@.len() <= 0x1_0000_0000 ==> final(mem).ram() == load_sections(
            old(mem).ram(),
            bytes@,
            secs@,
            addrs@,
        ),
{
    let mut i: usize = 0;
    while i < secs.len()
        invariant
            mem.inv(),
            i <= secs@.len(),
            addrs@.len() == secs@.len(),
            mem.has_device() == old(mem).has_device(),
            mem.brk_floor() == old(mem).brk_floor(),
            mem.brk() == old(mem).brk(),
            mem.ram().dom() == old(mem).ram().dom(),
            bytes@.len() <= 0x1_0000_0000 ==> mem.ram() == load_sections(
                old(mem).ram(),
                bytes@,
                secs@.subrange(0, i as int),
                addrs@,
            ),
        decreases secs@.len() - i,
    {
        let (size, offset, flags, kind, _addr, _align) = secs[i];
        proof {
            assert(secs@.subrange(0, i + 1).drop_last() =~= secs@.subrange(0, i as int));
        }
        let len = size as usize;
        let off = offset as usize;
        if len > 0 && ((flags & SHF_ALLOC) != 0 || kind == SHT_PROGBITS) && kind != SHT_NOBITS
            && off <= bytes.len() && len <= bytes.len() - off {
            let part = &bytes[off..off + len];
            mem.write_bytes(addrs[i], part);
        }
        i = i + 1;
    }
    proof {
        assert(secs@.subrange(0, secs@.len() as int) =~= secs@);
    }
}

/// Whether the name of symbol `s` is there and not empty.
fn has_name(s: &Symbol) -> (r: bool)
    ensures
        r == named(symbol_view(*s)),
{
    match &s.0 {
        Some(n) => !n.as_str().is_empty(),
        None => false,
    }
}

/// Add the symbols of a linked program to `table`.
pub fn add_linked(table: &mut HashMap<u32, String>, syms: &Vec<Symbol>)
    ensures
        symbol_names(final(table)@) == add_linked_symbols(
            symbol_names(old(table)@),
            syms@.map_values(|s: Symbol| symbol_view(s)),
        ),
{
    let ghost views = syms@.map_values(|s: Symbol| symbol_view(s));
    let mut i: usize = 0;
    while i < syms.len()
        invariant
            i <= syms@.len(),
            views == syms@.map_values(|s: Symbol| symbol_view(s)),
            symbol_names(table@) == add_linked_symbols(
                symbol_names(old(table)@),
                views.subrange(0, i as int),
            ),
        decreases syms@.len() - i,
    {
        let s = &syms[i];
        proof {
            assert(views.subrange(0, i + 1).drop_last() =~= views.subrange(0, i as int));
            assert(views.subrange(0, i + 1).last() == symbol_view(*s));
        }
        if has_name(s) && s.1 != 0 {
            match &s.0 {
                Some(name) => {
                    let ghost before = table@;
                    table.insert(s.1 as u32, name.clone());
                    proof {
                        assert(symbol_names(table@) =~= symbol_names(before).insert(s.1 as u32, name@));
                    }
                },
                None => {},
            }
        }
        i = i + 1;
    }
    proof {
        assert(views.subrange(0, views.len() as int) =~= views);
    }
}

/// Add the symbols of a relocatable object to `table`, at their addresses.
pub fn add_object(table: &mut HashMap<u32, String>, syms: &Vec<Symbol>, addrs: &Vec<u32>)
    ensures
        symbol_names(final(table)@) == add_object_symbols(
            symbol_names(old(table)@),
            syms@.map_values(|s: Symbol| symbol_view(s)),
            addrs@,
        ),
{
    let ghost views = syms@.map_values(|s: Symbol| symbol_view(s));
    let mut i: usize = 0;
    while i < syms.len()
        invariant
            i <= syms@.len(),
            views == syms@.map_values(|s: Symbol| symbol_view(s)),
            symbol_names(table@) == add_object_symbols(
                symbol_names(old(table)@),
                views.subrange(0, i as int),
                addrs@,
            ),
        decreases syms@.len() - i,
    {
        let s = &syms[i];
        proof {
            assert(views.subrange(0, i + 1).drop_last() =~= views.subrange(0, i as int));
            assert(views.subrange(0, i + 1).last() == symbol_view(*s));
        }
        if has_name(s) {
            let addr = symbol_address(s, addrs);
            match &s.0 {
                Some(name) => {
                    let ghost before = table@;
                    table.insert(addr, name.clone());
                    proof {
                        assert(symbol_names(table@) =~= symbol_names(before).insert(addr, name@));
                    }
                },
                None => {},
            }
        }
        i = i + 1;
    }
    proof {
        assert(views.subrange(0, views.len() as int) =~= views);
    }
}

/// Where symbol `s` of a relocatable object lies.
fn symbol_address(s: &Symbol, addrs: &Vec<u32>) -> (r: u32)
    ensures
        r == object_symbol_address(symbol_view(*s), addrs@),
{
    let base = if s.2 < addrs.len() {
        addrs[s.2]
    } else {
        DEFAULT_LOAD_ADDRESS
    };
    proof {
        crate::cpu::lemma_wrapping_add_word(base, (s.1 as u32) as int);
        vstd::arithmetic::div_mod::lemma_small_mod((s.1 as u32) as nat, 0x1_0000_0000);
    }
    base.wrapping_add(s.1 as u32)
}

/// Whether the name of `s` is `text`.
fn name_is(s: &Symbol, text: &str) -> (r: bool)
    ensures
        r == (symbol_view(*s).0 == Some(text@)),
{
    match &s.0 {
        Some(n) => same_text(n.as_str(), text),
        None => false,
    }
}

/// The entry point of `image`, whose sections lie at `addrs`.
pub fn find_entry(image: &ElfImage, addrs: &Vec<u32>) -> (r: u32)
    requires
        image.segments@.len() == 0 ==> addrs@ == section_layout(image.sections@).0,
    ensures
        r == entry_point(image.data()),
{
    let ghost d = image.data();
    let mut entry = image.entry as u32;
    if image.segments.len() == 0 {
        let mut i: usize = 0;
        while i < image.symbols.len()
            invariant
                i <= image.symbols@.len(),
                d == image.data(),
                entry == object_entry(image.entry as u32, d.symbols.subrange(0, i as int), addrs@),
            decreases image.symbols@.len() - i,
        {
            let s = &image.symbols[i];
            proof {
                assert(d.symbols.subrange(0, i + 1).drop_last() =~= d.symbols.subrange(0, i as int));
                assert(d.symbols.subrange(0, i + 1).last() == symbol_view(*s));
            }
            if has_name(s) {
                let addr = symbol_address(s, addrs);
                if (name_is(s, "_start") || name_is(s, "main")) && entry == 0 {
                    entry = addr;
                }
            }
            i = i + 1;
        }
        proof {
            assert(d.symbols.subrange(0, d.symbols.len() as int) =~= d.symbols);
        }
        if entry == 0 {
            entry = DEFAULT_LOAD_ADDRESS;
        }
    }
    if image.entry != 0 {
        let mut i: usize = 0;
        assert(d.symbols.subrange(0, d.symbols.len() as int) =~= d.symbols);
        while i < image.symbols.len()
            invariant
                i <= image.symbols@.len(),
                d == image.data(),
                image.entry != 0,
                start_symbol(d.symbols) == start_symbol(d.symbols.subrange(i as int, d.symbols.len() as int)),
            decreases image.symbols@.len() - i,
        {
            let s = &image.symbols[i];
            let ghost tail = d.symbols.subrange(i as int, d.symbols.len() as int);
            proof {
                assert(tail[0] == symbol_view(*s));
                assert(tail.drop_first() =~= d.symbols.subrange(i + 1, d.symbols.len() as int));
            }
            if name_is(s, "_start") && s.1 != 0 {
                assert(start_symbol(tail) == Some(s.1));
                return s.1 as u32;
            }
            i = i + 1;
        }
        proof {
            assert(d.symbols.subrange(i as int, d.symbols.len() as int) =~= Seq::<SymbolData>::empty());
        }
    }
    entry
}

} // verus!

verus! {

/// A section that the loader places and that has no address of its own.
pub open spec fn placed_by_loader(h: Section) -> bool {
    section_placed(h) && h.4 == 0
}

/// The size the loader gives section `h` in memory.
pub open spec fn placed_size(h: Section) -> int {
    ((h.0 as usize) as u32) as int
}

/// The room the sections without an address of their own may need above
/// `DEFAULT_LOAD_ADDRESS`: for each, its size and its alignment padding.
pub open spec fn layout_room(secs: Seq<Section>) -> int
    decreases secs.len(),
{
    if secs.len() == 0 {
        0
    } else {
        let h = secs.last();
        layout_room(secs.drop_last()) + if placed_by_loader(h) {
            let align: u32 = if h.5 > 0 {
                h.5 as u32
            } else {
                4
            };
            placed_size(h) + word(align - 1)
        } else {
            0
        }
    }
}

/// Rounding `x` up with `mask` never goes below `x`, nor above `x + mask`.
proof fn lemma_round_up(x: u32, mask: u32)
    requires
        x + mask < 0x1_0000_0000,
    ensures
        x <= ((x + mask) as u32) & !mask <= x + mask,
{
    assert(x <= ((x + mask) as u32) & !mask <= x + mask) by (bit_vector)
        requires
            x + mask < 0x1_0000_0000,
    ;
}

/// Sections laid out by the loader do not overlap: while the layout fits
/// below the top of the address space, each section placed without an
/// address of its own starts at or after the end of every one placed before
/// it, and the next free address is past the end of all of them.
pub proof fn law_sections_do_not_overlap(secs: Seq<Section>)
    requires
        DEFAULT_LOAD_ADDRESS + layout_room(secs) < 0x1_0000_0000,
    ensures
        ({
            let (addrs, next) = section_layout(secs);
            &&& addrs.len() == secs.len()
            &&& DEFAULT_LOAD_ADDRESS <= next <= DEFAULT_LOAD_ADDRESS + layout_room(secs)
            &&& forall|k: int|
                0 <= k < secs.len() && placed_by_loader(#[trigger] secs[k]) ==> addrs[k]
                    + placed_size(secs[k]) <= next
            &&& forall|k: int, l: int|
                #![trigger secs[k], secs[l]]
                0 <= k < l < secs.len() && placed_by_loader(secs[k]) && placed_by_loader(secs[l])
                    ==> addrs[k] + placed_size(secs[k]) <= addrs[l]
        }),
    decreases secs.len(),
{
    if secs.len() > 0 {
        let p = secs.drop_last();
        let h = secs.last();
        assert(layout_room(p) <= layout_room(secs)) by {
            if placed_by_loader(h) {
                assert(placed_size(h) >= 0);
            }
        }
        law_sections_do_not_overlap(p);
        let (pa, pn) = section_layout(p);
        let (addrs, next) = section_layout(secs);
        if placed_by_loader(h) {
            let align: u32 = if h.5 > 0 {
                h.5 as u32
            } else {
                4
            };
            let mask = word(align - 1);
            vstd::arithmetic::div_mod::lemma_small_mod((pn + mask) as nat, 0x1_0000_0000);
            lemma_round_up(pn, mask);
            let start = word(pn + mask) & !mask;
            assert(addrs == pa.push(start));
            vstd::arithmetic::div_mod::lemma_small_mod((start + placed_size(h)) as nat, 0x1_0000_0000);
            assert(next == start + placed_size(h));
        }
        assert forall|k: int|
            0 <= k < secs.len() && placed_by_loader(#[trigger] secs[k]) implies addrs[k] + placed_size(
                secs[k],
            ) <= next by {
            if k < p.len() {
                assert(secs[k] == p[k]);
            }
        }
        assert forall|k: int, l: int|
            #![trigger secs[k], secs[l]]
            0 <= k < l < secs.len() && placed_by_loader(secs[k]) && placed_by_loader(secs[l])
                implies addrs[k] + placed_size(secs[k]) <= addrs[l] by {
            assert(secs[k] == p[k]);
            if l < p.len() {
                assert(secs[l] == p[l]);
            }
        }
    }
}

} // verus!
