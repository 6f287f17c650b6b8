use vstd::prelude::*;

verus! {

/// Start of the kernel's half of the address space: `virt = phys + KERNEL_VIRTUAL_BASE`.
pub const KERNEL_VIRTUAL_BASE: u64 = 0xFFFF_8000_0000_0000;

/// Size of a page.
pub const PAGE_SIZE: u64 = 4096;

/// Entries in one page table.
pub const PAGE_TABLE_ENTRY_COUNT: usize = 512;

/// Bits of an entry that hold the physical frame address.
pub const ADDRESS_MASK: u64 = 0x000F_FFFF_FFFF_F000;

/// Largest physical address the kernel maps (8 GiB).
pub const SUPPORTED_MAX: u64 = 0x2_0000_0000;

/// Span mapped by one page table (2 MiB).
pub const PT_SPAN: u64 = 0x20_0000;

pub const PRESENT: u64 = 0x1;
pub const WRITABLE: u64 = 0x2;
pub const USER_ACCESSIBLE: u64 = 0x4;
pub const WRITE_THROUGH: u64 = 0x8;
pub const CACHE_DISABLE: u64 = 0x10;
pub const ACCESSED: u64 = 0x20;
pub const DIRTY: u64 = 0x40;
pub const HUGE_PAGE: u64 = 0x80;
pub const GLOBAL: u64 = 0x100;
pub const NO_EXECUTE: u64 = 0x8000_0000_0000_0000;

/// Attributes of an MMIO page: present, writable, uncached, not executable.
pub const MMIO_FLAGS: u64 = 0x8000_0000_0000_0013;

/// Attributes of a page of kernel code: present, read-only, executable.
pub const TEXT_FLAGS: u64 = 0x1;

/// Attributes of a page of kernel constants: present, read-only, not executable.
pub const RODATA_FLAGS: u64 = 0x8000_0000_0000_0001;

/// Attributes of a page of kernel data: present, writable, not executable.
pub const DATA_FLAGS: u64 = 0x8000_0000_0000_0003;

/// Attributes of the guard page: writable and not executable, but not
/// present, so that any access faults.
pub const GUARD_FLAGS: u64 = 0x8000_0000_0000_0002;

/// Attributes of a 2 MiB page: present, writable, large.
pub const HUGE_FLAGS: u64 = 0x83;

/// Number of 2 MiB pages covering `size` bytes.
pub open spec fn huge_chunks(size: nat) -> nat {
    (size + 0x1F_FFFF) as nat / 0x20_0000
}

/// Attributes of ordinary memory: present and writable.
pub const RAM_FLAGS: u64 = 0x3;

/// Errors of the address-space manager.
#[derive(Debug, Clone, Copy, PartialEq, Eq, Structural)]
pub enum PagingError {
    InvalidAddress,
    AddressOutOfRange,
    AddressConversionFailed,
    GuardPageSetupFailed,
    PageTableInitFailed,
    FeatureNotSupported,
    ExistingMappingConflict,
}

/// One attribute bit of a page-table entry.
#[derive(Debug, Clone, Copy, PartialEq, Eq, Structural)]
pub enum PageTableFlags {
    Present,
    Writable,
    UserAccessible,
    WriteThrough,
    CacheDisable,
    Accessed,
    Dirty,
    HugePage,
    Global,
    NoExecute,
}

impl PageTableFlags {
    pub open spec fn spec_bits(self) -> u64 {
        match self {
            PageTableFlags::Present => PRESENT,
            PageTableFlags::Writable => WRITABLE,
            PageTableFlags::UserAccessible => USER_ACCESSIBLE,
            PageTableFlags::WriteThrough => WRITE_THROUGH,
            PageTableFlags::CacheDisable => CACHE_DISABLE,
            PageTableFlags::Accessed => ACCESSED,
            PageTableFlags::Dirty => DIRTY,
            PageTableFlags::HugePage => HUGE_PAGE,
            PageTableFlags::Global => GLOBAL,
            PageTableFlags::NoExecute => NO_EXECUTE,
        }
    }

    /// The bit of this attribute in an entry.
    pub fn bits(&self) -> (r: u64)
        ensures
            r == self.spec_bits(),
    {
        match self {
            PageTableFlags::Present => PRESENT,
            PageTableFlags::Writable => WRITABLE,
            PageTableFlags::UserAccessible => USER_ACCESSIBLE,
            PageTableFlags::WriteThrough => WRITE_THROUGH,
            PageTableFlags::CacheDisable => CACHE_DISABLE,
            PageTableFlags::Accessed => ACCESSED,
            PageTableFlags::Dirty => DIRTY,
            PageTableFlags::HugePage => HUGE_PAGE,
            PageTableFlags::Global => GLOBAL,
            PageTableFlags::NoExecute => NO_EXECUTE,
        }
    }
}

/// Whether entry value `e` has attribute bit `flag` set.
pub open spec fn has_flag(e: u64, flag: u64) -> bool {
    e & flag != 0
}

/// One 64-bit page-table entry: a frame address and attribute bits.
#[derive(Debug, Clone, Copy, PartialEq, Eq, Structural)]
pub struct PageTableEntry {
    entry: u64,
}

impl PageTableEntry {
    pub closed spec fn value(self) -> u64 {
        self.entry
    }

    pub proof fn lemma_from_raw_value(entry: u64)
        ensures
            PageTableEntry::from_raw_spec(entry).value() == entry,
    {
    }

    /// An empty entry, which maps nothing.
    pub fn new() -> (r: PageTableEntry)
        ensures
            r.value() == 0,
    {
        PageTableEntry { entry: 0 }
    }

    pub closed spec fn from_raw_spec(entry: u64) -> PageTableEntry {
        PageTableEntry { entry }
    }

    /// An entry with the given raw value.
    pub fn from_raw(entry: u64) -> (r: PageTableEntry)
        ensures
            r.value() == entry,
            r == PageTableEntry::from_raw_spec(entry),
    {
        PageTableEntry { entry }
    }

    /// The raw 64-bit value.
    pub fn raw(&self) -> (r: u64)
        ensures
            r == self.value(),
    {
        self.entry
    }

    pub fn is_present(&self) -> (r: bool)
        ensures
            r == has_flag(self.value(), PRESENT),
    {
        (self.entry & PRESENT) != 0
    }

    /// Whether the entry carries attribute `flag`.
    pub fn has(&self, flag: PageTableFlags) -> (r: bool)
        ensures
            r == has_flag(self.value(), flag.spec_bits()),
    {
        (self.entry & flag.bits()) != 0
    }

    /// Adds attribute bits; those already set stay set.
    pub fn set_flags(&mut self, flags: u64)
        ensures
            final(self).value() == old(self).value() | flags,
    {
        self.entry = self.entry | flags;
    }

    /// Replaces the frame address (taken 4 KiB-aligned) and keeps the low
    /// twelve attribute bits.
    pub fn set_address(&mut self, addr: u64)
        ensures
            final(self).value() == (old(self).value() & 0xFFF) | (addr & ADDRESS_MASK),
    {
        self.entry = (self.entry & 0xFFF) | (addr & ADDRESS_MASK);
    }

    /// Sets the frame address, then adds `flags`.
    pub fn set(&mut self, addr: u64, flags: u64)
        ensures
            final(self).value() == ((old(self).value() & 0xFFF) | (addr & ADDRESS_MASK)) | flags,
    {
        self.set_address(addr);
        self.set_flags(flags);
    }

    /// The frame address.
    pub fn get_address(&self) -> (r: u64)
        ensures
            r == self.value() & ADDRESS_MASK,
    {
        self.entry & ADDRESS_MASK
    }
}

/// The entry value mapping frame `addr` with attributes `flags`.
pub open spec fn make_entry(addr: u64, flags: u64) -> u64 {
    (addr & ADDRESS_MASK) | flags
}

/// An entry built from a page-aligned frame below 2^52 and attribute bits
/// outside the address field reads back that frame and exactly those bits.
pub proof fn lemma_entry_bits(addr: u64, flags: u64)
    requires
        addr & 0xFFF == 0,
        addr < 0x10_0000_0000_0000,
        flags & ADDRESS_MASK == 0,
    ensures
        make_entry(addr, flags) & ADDRESS_MASK == addr,
        has_flag(make_entry(addr, flags), PRESENT) == has_flag(flags, PRESENT),
        has_flag(make_entry(addr, flags), WRITABLE) == has_flag(flags, WRITABLE),
        has_flag(make_entry(addr, flags), CACHE_DISABLE) == has_flag(flags, CACHE_DISABLE),
        has_flag(make_entry(addr, flags), NO_EXECUTE) == has_flag(flags, NO_EXECUTE),
{
    assert(make_entry(addr, flags) & 0x000F_FFFF_FFFF_F000 == addr) by (bit_vector)
        requires
            addr & 0xFFF == 0,
            addr < 0x10_0000_0000_0000,
            flags & 0x000F_FFFF_FFFF_F000 == 0,
    ;
    assert(((addr & 0x000F_FFFF_FFFF_F000) | flags) & 0x1 == flags & 0x1) by (bit_vector)
        requires addr & 0xFFF == 0;
    assert(((addr & 0x000F_FFFF_FFFF_F000) | flags) & 0x2 == flags & 0x2) by (bit_vector)
        requires addr & 0xFFF == 0;
    assert(((addr & 0x000F_FFFF_FFFF_F000) | flags) & 0x10 == flags & 0x10) by (bit_vector)
        requires addr & 0xFFF == 0;
    assert(((addr & 0x000F_FFFF_FFFF_F000) | flags) & 0x8000_0000_0000_0000 == flags & 0x8000_0000_0000_0000) by (bit_vector)
        requires addr < 0x10_0000_0000_0000;
}

/// The attribute bits of the fixed attribute sets.
pub proof fn lemma_flag_sets()
    ensures
        MMIO_FLAGS & ADDRESS_MASK == 0,
        TEXT_FLAGS & ADDRESS_MASK == 0,
        RODATA_FLAGS & ADDRESS_MASK == 0,
        DATA_FLAGS & ADDRESS_MASK == 0,
        RAM_FLAGS & ADDRESS_MASK == 0,
        0u64 & ADDRESS_MASK == 0,
        has_flag(MMIO_FLAGS, PRESENT) && has_flag(MMIO_FLAGS, WRITABLE) && has_flag(MMIO_FLAGS, CACHE_DISABLE) && has_flag(MMIO_FLAGS, NO_EXECUTE),
        has_flag(TEXT_FLAGS, PRESENT) && !has_flag(TEXT_FLAGS, WRITABLE) && !has_flag(TEXT_FLAGS, NO_EXECUTE),
        has_flag(RODATA_FLAGS, PRESENT) && !has_flag(RODATA_FLAGS, WRITABLE) && has_flag(RODATA_FLAGS, NO_EXECUTE),
        has_flag(DATA_FLAGS, PRESENT) && has_flag(DATA_FLAGS, WRITABLE) && has_flag(DATA_FLAGS, NO_EXECUTE),
        has_flag(RAM_FLAGS, PRESENT) && has_flag(RAM_FLAGS, WRITABLE),
        !has_flag(0, PRESENT),
        GUARD_FLAGS & ADDRESS_MASK == 0,
        !has_flag(GUARD_FLAGS, PRESENT) && has_flag(GUARD_FLAGS, WRITABLE) && has_flag(GUARD_FLAGS, NO_EXECUTE),
{
    assert(0x8000_0000_0000_0002u64 & 0x000F_FFFF_FFFF_F000u64 == 0) by (bit_vector);
    assert(0x8000_0000_0000_0002u64 & 1 == 0 && 0x8000_0000_0000_0002u64 & 2 != 0 && 0x8000_0000_0000_0002u64 & 0x8000_0000_0000_0000 != 0) by (bit_vector);
    assert(0x8000_0000_0000_0013u64 & 0x000F_FFFF_FFFF_F000u64 == 0) by (bit_vector);
    assert(0x1u64 & 0x000F_FFFF_FFFF_F000u64 == 0) by (bit_vector);
    assert(0x8000_0000_0000_0001u64 & 0x000F_FFFF_FFFF_F000u64 == 0) by (bit_vector);
    assert(0x8000_0000_0000_0003u64 & 0x000F_FFFF_FFFF_F000u64 == 0) by (bit_vector);
    assert(0x3u64 & 0x000F_FFFF_FFFF_F000u64 == 0) by (bit_vector);
    assert(0u64 & 0x000F_FFFF_FFFF_F000u64 == 0) by (bit_vector);
    assert(0x8000_0000_0000_0013u64 & 1 != 0 && 0x8000_0000_0000_0013u64 & 2 != 0 && 0x8000_0000_0000_0013u64 & 0x10 != 0 && 0x8000_0000_0000_0013u64 & 0x8000_0000_0000_0000 != 0) by (bit_vector);
    assert(1u64 & 1 != 0 && 1u64 & 2 == 0 && 1u64 & 0x8000_0000_0000_0000 == 0) by (bit_vector);
    assert(0x8000_0000_0000_0001u64 & 1 != 0 && 0x8000_0000_0000_0001u64 & 2 == 0 && 0x8000_0000_0000_0001u64 & 0x8000_0000_0000_0000 != 0) by (bit_vector);
    assert(0x8000_0000_0000_0003u64 & 1 != 0 && 0x8000_0000_0000_0003u64 & 2 != 0 && 0x8000_0000_0000_0003u64 & 0x8000_0000_0000_0000 != 0) by (bit_vector);
    assert(3u64 & 1 != 0 && 3u64 & 2 != 0) by (bit_vector);
    assert(0u64 & 1 == 0) by (bit_vector);
}

/// The kernel address of physical address `p`.
pub open spec fn spec_phys_to_virt(p: u64) -> int {
    p + KERNEL_VIRTUAL_BASE
}

/// Kernel address of physical address `p`; `p == 0` is refused.
pub fn phys_to_virt(p: u64) -> (r: Result<u64, PagingError>)
    requires
        p <= u64::MAX - KERNEL_VIRTUAL_BASE,
    ensures
        p == 0 ==> r == Err::<u64, PagingError>(PagingError::InvalidAddress),
        p != 0 ==> r == Ok::<u64, PagingError>(spec_phys_to_virt(p) as u64),
{
    if p == 0 {
        Err(PagingError::InvalidAddress)
    } else {
        Ok(p + KERNEL_VIRTUAL_BASE)
    }
}

/// Physical address behind kernel address `v`; an address below the kernel
/// half is refused.
pub fn virt_to_phys(v: u64) -> (r: Result<u64, PagingError>)
    ensures
        v < KERNEL_VIRTUAL_BASE ==> r == Err::<u64, PagingError>(PagingError::AddressOutOfRange),
        v >= KERNEL_VIRTUAL_BASE ==> r == Ok::<u64, PagingError>((v - KERNEL_VIRTUAL_BASE) as u64),
{
    if v < KERNEL_VIRTUAL_BASE {
        Err(PagingError::AddressOutOfRange)
    } else {
        Ok(v - KERNEL_VIRTUAL_BASE)
    }
}

/// Translating a physical address to the kernel half and back gives it back.
pub proof fn law_phys_virt_round_trip(p: u64)
    requires
        p > 0,
        p <= u64::MAX - KERNEL_VIRTUAL_BASE,
    ensures
        spec_phys_to_virt(p) >= KERNEL_VIRTUAL_BASE,
        spec_phys_to_virt(p) - KERNEL_VIRTUAL_BASE == p,
{
}


/// One page table: 512 entries.
pub struct PageTable {
    entries: Vec<PageTableEntry>,
}

impl PageTable {
    pub closed spec fn view_entries(&self) -> Seq<PageTableEntry> {
        self.entries@
    }

    pub open spec fn wf(&self) -> bool {
        self.view_entries().len() == PAGE_TABLE_ENTRY_COUNT
    }

    /// A table whose entries all map nothing.
    pub fn new() -> (r: PageTable)
        ensures
            r.wf(),
            forall|i: int| 0 <= i < PAGE_TABLE_ENTRY_COUNT ==> (#[trigger] r.view_entries()[i]).value() == 0,
    {
        let mut entries: Vec<PageTableEntry> = Vec::new();
        let mut i: usize = 0;
        while i < PAGE_TABLE_ENTRY_COUNT
            invariant
                i <= PAGE_TABLE_ENTRY_COUNT,
                entries@.len() == i,
                forall|j: int| 0 <= j < i ==> (#[trigger] entries@[j]).value() == 0,
            decreases PAGE_TABLE_ENTRY_COUNT - i,
        {
            entries.push(PageTableEntry::new());
            i = i + 1;
        }
        PageTable { entries }
    }

    /// Entry `index`.
    pub fn entry(&self, index: usize) -> (r: PageTableEntry)
        requires
            self.wf(),
            index < PAGE_TABLE_ENTRY_COUNT,
        ensures
            r == self.view_entries()[index as int],
    {
        self.entries[index]
    }

    /// Replaces entry `index`.
    pub fn set_entry(&mut self, index: usize, e: PageTableEntry)
        requires
            old(self).wf(),
            index < PAGE_TABLE_ENTRY_COUNT,
        ensures
            final(self).view_entries() == old(self).view_entries().update(index as int, e),
    {
        self.entries.set(index, e);
    }

    /// Physical address of a table placed at kernel address `table_virt`.
    pub fn physical_address(&self, table_virt: u64) -> (r: Result<u64, PagingError>)
        ensures
            r == virt_to_phys_spec(table_virt),
    {
        virt_to_phys(table_virt)
    }

    /// Makes every entry map nothing.
    pub fn clear(&mut self)
        requires
            old(self).wf(),
        ensures
            final(self).wf(),
            forall|i: int| 0 <= i < PAGE_TABLE_ENTRY_COUNT ==> (#[trigger] final(self).view_entries()[i]).value() == 0,
    {
        let mut i: usize = 0;
        while i < PAGE_TABLE_ENTRY_COUNT
            invariant
                i <= PAGE_TABLE_ENTRY_COUNT,
                self.wf(),
                forall|j: int| 0 <= j < i ==> (#[trigger] self.view_entries()[j]).value() == 0,
            decreases PAGE_TABLE_ENTRY_COUNT - i,
        {
            self.entries.set(i, PageTableEntry::new());
            i = i + 1;
        }
    }
}

/// What `virt_to_phys` returns for `v`.
pub open spec fn virt_to_phys_spec(v: u64) -> Result<u64, PagingError> {
    if v < KERNEL_VIRTUAL_BASE {
        Err(PagingError::AddressOutOfRange)
    } else {
        Ok((v - KERNEL_VIRTUAL_BASE) as u64)
    }
}

/// UEFI memory type of usable RAM.
pub const MEMORY_TYPE_CONVENTIONAL: u32 = 7;

/// UEFI memory type of memory-mapped I/O.
pub const MEMORY_TYPE_MMIO: u32 = 11;

/// UEFI memory type of memory-mapped I/O port space.
pub const MEMORY_TYPE_MMIO_PORT_SPACE: u32 = 12;

/// One record of the firmware's memory map.
#[derive(Debug, Clone, Copy, PartialEq, Eq, Structural)]
pub struct MemoryRegion {
    pub start: u64,
    pub size: u64,
    pub region_type: u32,
}

impl MemoryRegion {
    pub open spec fn covers(self, p: int) -> bool {
        self.start <= p < self.start + self.size
    }

    pub open spec fn is_mmio(self) -> bool {
        self.region_type == MEMORY_TYPE_MMIO || self.region_type == MEMORY_TYPE_MMIO_PORT_SPACE
    }
}

/// The usable region of `map` with the most bytes (the first of equal ones),
/// as `(start, size)`; `None` when there is none.
pub fn largest_conventional(map: &Vec<MemoryRegion>) -> (r: Option<(u64, u64)>)
    ensures
        r is None <==> forall|i: int| 0 <= i < map@.len() ==> (#[trigger] map@[i]).region_type != MEMORY_TYPE_CONVENTIONAL,
        r matches Some(p) ==> exists|i: int| 0 <= i < map@.len() && (#[trigger] map@[i]).region_type == MEMORY_TYPE_CONVENTIONAL
            && p == (map@[i].start, map@[i].size),
        r matches Some(p) ==> forall|i: int| 0 <= i < map@.len() && (#[trigger] map@[i]).region_type == MEMORY_TYPE_CONVENTIONAL
            ==> map@[i].size <= p.1,
{
    let mut best: Option<(u64, u64)> = None;
    let mut i: usize = 0;
    while i < map.len()
        invariant
            i <= map@.len(),
            best is None <==> forall|j: int| 0 <= j < i ==> (#[trigger] map@[j]).region_type != MEMORY_TYPE_CONVENTIONAL,
            best matches Some(p) ==> exists|j: int| 0 <= j < i && (#[trigger] map@[j]).region_type == MEMORY_TYPE_CONVENTIONAL
                && p == (map@[j].start, map@[j].size),
            best matches Some(p) ==> forall|j: int| 0 <= j < i && (#[trigger] map@[j]).region_type == MEMORY_TYPE_CONVENTIONAL
                ==> map@[j].size <= p.1,
        decreases map@.len() - i,
    {
        let r = map[i];
        if r.region_type == MEMORY_TYPE_CONVENTIONAL {
            let better = match best {
                None => true,
                Some((_, size)) => r.size > size,
            };
            if better {
                best = Some((r.start, r.size));
            }
        }
        i = i + 1;
    }
    best
}

/// Whether some range of `s` covers address `p`.
pub open spec fn sorted_covers(s: Seq<MemoryRegion>, p: int) -> bool {
    exists|i: int| 0 <= i < s.len() && (#[trigger] s[i]).covers(p)
}

/// Whether some MMIO record of `map` covers address `p`.
pub open spec fn map_mmio_covers(map: Seq<MemoryRegion>, p: int) -> bool {
    exists|j: int| 0 <= j < map.len() && (#[trigger] map[j]).is_mmio() && map[j].covers(p)
}

/// The MMIO ranges of the memory map, sorted by start address and apart.
pub struct MmioRanges {
    ranges: Vec<MemoryRegion>,
}

impl MmioRanges {
    pub closed spec fn view_ranges(&self) -> Seq<MemoryRegion> {
        self.ranges@
    }

    pub open spec fn wf(&self) -> bool {
        forall|i: int, j: int|
            0 <= i < j < self.view_ranges().len() ==> #[trigger] self.view_ranges()[i].start
                + self.view_ranges()[i].size <= #[trigger] self.view_ranges()[j].start
    }

    pub open spec fn covers(&self, p: int) -> bool {
        exists|i: int| 0 <= i < self.view_ranges().len() && (#[trigger] self.view_ranges()[i]).covers(p)
    }

    /// No MMIO ranges.
    pub fn empty() -> (r: MmioRanges)
        ensures
            r.wf(),
            forall|p: int| !r.covers(p),
    {
        MmioRanges { ranges: Vec::new() }
    }

    /// Collects the non-empty MMIO records of `map`, sorted by start address,
    /// with overlapping ones merged.
    pub fn from_memory_map(map: &Vec<MemoryRegion>) -> (r: MmioRanges)
        requires
            forall|i: int| 0 <= i < map@.len() ==> #[trigger] map@[i].start + map@[i].size <= u64::MAX,
        ensures
            r.wf(),
            forall|p: int| r.covers(p) <==> map_mmio_covers(map@, p),
    {
        let mut sorted: Vec<MemoryRegion> = Vec::new();
        let ghost mut origin: Seq<int> = Seq::empty();
        let mut i: usize = 0;
        while i < map.len()
            invariant
                i <= map@.len(),
                origin.len() == sorted@.len(),
                forall|a: int, b: int| 0 <= a < b < sorted@.len() ==> #[trigger] sorted@[a].start <= #[trigger] sorted@[b].start,
                forall|a: int| 0 <= a < sorted@.len() ==> 0 <= #[trigger] origin[a] < i && map@[origin[a]] == sorted@[a],
                forall|a: int, b: int| 0 <= a < b < sorted@.len() ==> #[trigger] origin[a] != #[trigger] origin[b],
                forall|a: int| 0 <= a < sorted@.len() ==> (#[trigger] sorted@[a]).is_mmio() && sorted@[a].size > 0,
                forall|j: int| 0 <= j < i && (#[trigger] map@[j]).is_mmio() && map@[j].size > 0 ==> exists|a: int| 0 <= a < sorted@.len() && origin[a] == j,
            decreases map@.len() - i,
        {
            let rg = map[i];
            if (rg.region_type == MEMORY_TYPE_MMIO || rg.region_type == MEMORY_TYPE_MMIO_PORT_SPACE) && rg.size > 0 {
                let mut pos: usize = 0;
                while pos < sorted.len() && sorted[pos].start <= rg.start
                    invariant
                        pos <= sorted@.len(),
                        forall|a: int| 0 <= a < pos ==> (#[trigger] sorted@[a]).start <= rg.start,
                    decreases sorted@.len() - pos,
                {
                    pos = pos + 1;
                }
                let ghost old_sorted = sorted@;
                let ghost old_origin = origin;
                sorted.insert(pos, rg);
                proof {
                    origin = old_origin.insert(pos as int, i as int);
                    assert forall|a: int, b: int| 0 <= a < b < sorted@.len() implies #[trigger] sorted@[a].start <= #[trigger] sorted@[b].start by {
                        if b < pos {
                        } else if b == pos {
                        } else if a < pos {
                            assert(sorted@[b] == old_sorted[b - 1]);
                            if b - 1 >= pos {
                                assert(old_sorted[pos as int].start > rg.start || pos == old_sorted.len());
                            }
                            assert(old_sorted[a].start <= old_sorted[b - 1].start || a == b - 1);
                        } else if a == pos {
                            assert(sorted@[b] == old_sorted[b - 1]);
                            assert(old_sorted[pos as int].start <= old_sorted[b - 1].start || b - 1 == pos);
                        } else {
                            assert(sorted@[a] == old_sorted[a - 1]);
                            assert(sorted@[b] == old_sorted[b - 1]);
                        }
                    }
                    assert forall|j: int| 0 <= j < i + 1 && (#[trigger] map@[j]).is_mmio() && map@[j].size > 0 implies exists|a: int| 0 <= a < sorted@.len() && origin[a] == j by {
                        if j == i {
                            assert(origin[pos as int] == j);
                        } else {
                            let a0 = choose|a: int| 0 <= a < old_sorted.len() && old_origin[a] == j;
                            if a0 < pos {
                                assert(origin[a0] == j);
                            } else {
                                assert(origin[a0 + 1] == j);
                            }
                        }
                    }
                    assert forall|a: int, b: int| 0 <= a < b < sorted@.len() implies #[trigger] origin[a] != #[trigger] origin[b] by {
                        if a != pos && b != pos {
                            let a1 = if a < pos { a } else { a - 1 };
                            let b1 = if b < pos { b } else { b - 1 };
                            assert(origin[a] == old_origin[a1]);
                            assert(origin[b] == old_origin[b1]);
                        } else if a == pos {
                            let b1 = if b < pos { b } else { b - 1 };
                            assert(origin[b] == old_origin[b1]);
                        } else {
                            let a1 = if a < pos { a } else { a - 1 };
                            assert(origin[a] == old_origin[a1]);
                        }
                    }
                }
            }
            i = i + 1;
        }
        proof {
            assert forall|p: int| sorted_covers(sorted@, p) <==> map_mmio_covers(map@, p) by {
                if sorted_covers(sorted@, p) {
                    let a = choose|a: int| 0 <= a < sorted@.len() && (#[trigger] sorted@[a]).covers(p);
                    assert(map@[origin[a]] == sorted@[a]);
                }
                if map_mmio_covers(map@, p) {
                    let j = choose|j: int| 0 <= j < map@.len() && (#[trigger] map@[j]).is_mmio() && map@[j].covers(p);
                    let a = choose|a: int| 0 <= a < sorted@.len() && origin[a] == j;
                    assert(sorted@[a].covers(p));
                }
            }
        }
        proof {
            assert forall|a: int| 0 <= a < sorted@.len() implies (#[trigger] sorted@[a]).size > 0 && sorted@[a].start + sorted@[a].size <= u64::MAX by {
                assert(map@[origin[a]] == sorted@[a]);
            }
        }
        // overlapping ranges are merged into one
        let mut merged: Vec<MemoryRegion> = Vec::new();
        let mut k: usize = 0;
        let n = sorted.len();
        while k < n
            invariant
                k <= n,
                n == sorted@.len(),
                forall|a: int, b: int| 0 <= a < b < sorted@.len() ==> #[trigger] sorted@[a].start <= #[trigger] sorted@[b].start,
                forall|a: int| 0 <= a < sorted@.len() ==> (#[trigger] sorted@[a]).size > 0 && sorted@[a].start + sorted@[a].size <= u64::MAX,
                forall|a: int, b: int| 0 <= a < b < merged@.len() ==> #[trigger] merged@[a].start + merged@[a].size <= #[trigger] merged@[b].start,
                forall|a: int| 0 <= a < merged@.len() ==> (#[trigger] merged@[a]).size > 0 && merged@[a].start + merged@[a].size <= u64::MAX,
                merged@.len() > 0 ==> forall|j: int| k <= j < n ==> merged@.last().start <= #[trigger] sorted@[j].start,
                forall|p: int| sorted_covers(merged@, p) <==> sorted_covers(sorted@.take(k as int), p),
            decreases n - k,
        {
            let r = sorted[k];
            let ghost old_merged = merged@;
            let len = merged.len();
            if len > 0 && r.start - merged[len - 1].start < merged[len - 1].size {
                let last = merged[len - 1];
                let last_end = last.start + last.size;
                let r_end = r.start + r.size;
                let end = if r_end > last_end { r_end } else { last_end };
                merged.set(len - 1, MemoryRegion { start: last.start, size: end - last.start, region_type: last.region_type });
                proof {
                    assert forall|a: int, b: int| 0 <= a < b < merged@.len() implies #[trigger] merged@[a].start + merged@[a].size <= #[trigger] merged@[b].start by {
                        assert(old_merged[a].start + old_merged[a].size <= old_merged[b].start);
                    }
                    assert forall|p: int| sorted_covers(merged@, p) <==> sorted_covers(sorted@.take(k + 1), p) by {
                        assert(sorted@.take(k + 1)[k as int] == r);
                        if sorted_covers(merged@, p) {
                            let a = choose|a: int| 0 <= a < merged@.len() && (#[trigger] merged@[a]).covers(p);
                            if a == len - 1 {
                                if old_merged[a].covers(p) {
                                    assert(sorted_covers(old_merged, p));
                                    let j = choose|j: int| 0 <= j < sorted@.take(k as int).len() && (#[trigger] sorted@.take(k as int)[j]).covers(p);
                                    assert(sorted@.take(k + 1)[j].covers(p));
                                } else {
                                    assert(r.covers(p));
                                }
                            } else {
                                assert(old_merged[a].covers(p));
                                assert(sorted_covers(old_merged, p));
                                let j = choose|j: int| 0 <= j < sorted@.take(k as int).len() && (#[trigger] sorted@.take(k as int)[j]).covers(p);
                                assert(sorted@.take(k + 1)[j].covers(p));
                            }
                        }
                        if sorted_covers(sorted@.take(k + 1), p) {
                            let j = choose|j: int| 0 <= j < sorted@.take(k + 1).len() && (#[trigger] sorted@.take(k + 1)[j]).covers(p);
                            if j == k {
                                assert(merged@[len - 1].covers(p));
                            } else {
                                assert(sorted@.take(k as int)[j].covers(p));
                                assert(sorted_covers(old_merged, p));
                                let a = choose|a: int| 0 <= a < old_merged.len() && (#[trigger] old_merged[a]).covers(p);
                                if a == len - 1 {
                                    assert(merged@[a].covers(p));
                                } else {
                                    assert(merged@[a].covers(p));
                                }
                            }
                        }
                    }
                }
            } else {
                merged.push(r);
                proof {
                    assert forall|a: int, b: int| 0 <= a < b < merged@.len() implies #[trigger] merged@[a].start + merged@[a].size <= #[trigger] merged@[b].start by {
                        if b == len as int && a < len - 1 {
                            assert(old_merged[a].start + old_merged[a].size <= old_merged[len - 1].start);
                        }
                    }
                    assert forall|p: int| sorted_covers(merged@, p) <==> sorted_covers(sorted@.take(k + 1), p) by {
                        assert(sorted@.take(k + 1)[k as int] == r);
                        if sorted_covers(merged@, p) {
                            let a = choose|a: int| 0 <= a < merged@.len() && (#[trigger] merged@[a]).covers(p);
                            if a < len {
                                assert(old_merged[a].covers(p));
                                assert(sorted_covers(old_merged, p));
                                let j = choose|j: int| 0 <= j < sorted@.take(k as int).len() && (#[trigger] sorted@.take(k as int)[j]).covers(p);
                                assert(sorted@.take(k + 1)[j].covers(p));
                            }
                        }
                        if sorted_covers(sorted@.take(k + 1), p) {
                            let j = choose|j: int| 0 <= j < sorted@.take(k + 1).len() && (#[trigger] sorted@.take(k + 1)[j]).covers(p);
                            if j == k {
                                assert(merged@[len as int].covers(p));
                            } else {
                                assert(sorted@.take(k as int)[j].covers(p));
                                assert(sorted_covers(old_merged, p));
                                let a = choose|a: int| 0 <= a < old_merged.len() && (#[trigger] old_merged[a]).covers(p);
                                assert(merged@[a].covers(p));
                            }
                        }
                    }
                }
            }
            k = k + 1;
        }
        let r = MmioRanges { ranges: merged };
        proof {
            assert(sorted@.take(n as int) =~= sorted@);
            assert(r.view_ranges() == merged@);
            assert forall|p: int| r.covers(p) <==> map_mmio_covers(map@, p) by {
                if r.covers(p) {
                    let a = choose|a: int| 0 <= a < r.view_ranges().len() && (#[trigger] r.view_ranges()[a]).covers(p);
                    assert(merged@[a].covers(p));
                }
                if sorted_covers(merged@, p) {
                    let a = choose|a: int| 0 <= a < merged@.len() && (#[trigger] merged@[a]).covers(p);
                    assert(r.view_ranges()[a].covers(p));
                }
            }
        }
        r
    }

    /// Whether address `p` lies in an MMIO range (binary search by start).
    pub fn is_mmio(&self, p: u64) -> (r: bool)
        requires
            self.wf(),
        ensures
            r == self.covers(p as int),
    {
        let n = self.ranges.len();
        let mut lo: usize = 0;
        let mut hi: usize = n;
        while lo < hi
            invariant
                0 <= lo <= hi <= n,
                self.wf(),
                n == self.view_ranges().len(),
                forall|j: int| 0 <= j < lo ==> (#[trigger] self.view_ranges()[j]).start <= p,
                forall|j: int| hi <= j < n ==> (#[trigger] self.view_ranges()[j]).start > p,
            decreases hi - lo,
        {
            let mid = lo + (hi - lo) / 2;
            if self.ranges[mid].start <= p {
                proof {
                    assert forall|j: int| 0 <= j < mid + 1 implies (#[trigger] self.view_ranges()[j]).start <= p by {
                        if j < mid {
                            assert(self.view_ranges()[j].start + self.view_ranges()[j].size <= self.view_ranges()[mid as int].start);
                        }
                    }
                }
                lo = mid + 1;
            } else {
                proof {
                    assert forall|j: int| mid <= j < n implies (#[trigger] self.view_ranges()[j]).start > p by {
                        if j > mid {
                            assert(self.view_ranges()[mid as int].start + self.view_ranges()[mid as int].size <= self.view_ranges()[j].start);
                        }
                    }
                }
                hi = mid;
            }
        }
        if lo == 0 {
            return false;
        }
        let cand = self.ranges[lo - 1];
        let r = p - cand.start < cand.size;
        proof {
            if self.covers(p as int) {
                let j = choose|j: int| 0 <= j < n && (#[trigger] self.view_ranges()[j]).covers(p as int);
                if j < lo - 1 {
                    assert(self.view_ranges()[j].start + self.view_ranges()[j].size <= self.view_ranges()[lo - 1].start);
                }
            }
            if r {
                assert(self.view_ranges()[lo - 1].covers(p as int));
            }
        }
        r
    }
}


/// Physical extents `[start, end)` of the kernel's sections.
#[derive(Debug, Clone, Copy, PartialEq, Eq, Structural)]
pub struct KernelSections {
    pub text_start: u64,
    pub text_end: u64,
    pub rodata_start: u64,
    pub rodata_end: u64,
    pub data_start: u64,
    pub data_end: u64,
}

impl KernelSections {
    pub open spec fn in_text(self, p: int) -> bool {
        self.text_start <= p < self.text_end
    }

    pub open spec fn in_rodata(self, p: int) -> bool {
        self.rodata_start <= p < self.rodata_end
    }

    pub open spec fn in_data(self, p: int) -> bool {
        self.data_start <= p < self.data_end
    }
}

/// Number of page tables needed to map `[0, max)`: `ceil(max / 2 MiB)`.
pub open spec fn pt_count(max: nat) -> nat {
    (max + PT_SPAN - 1) as nat / PT_SPAN as nat
}

/// The entry that initialisation installs for the page at physical `p`:
/// nothing beyond the mapped range; a non-present entry at the guard page; the W⊕X
/// attributes inside a kernel section; nothing in MMIO (drivers map it);
/// present and writable elsewhere.
pub open spec fn initial_entry(p: u64, actual_max: u64, s: KernelSections, mmio: MmioRanges, guard: u64) -> u64 {
    if p >= actual_max {
        0
    } else if p <= guard < p + PAGE_SIZE {
        make_entry(p, GUARD_FLAGS)
    } else if s.in_text(p as int) {
        make_entry(p, TEXT_FLAGS)
    } else if s.in_rodata(p as int) {
        make_entry(p, RODATA_FLAGS)
    } else if s.in_data(p as int) {
        make_entry(p, DATA_FLAGS)
    } else if mmio.covers(p as int) {
        0
    } else {
        make_entry(p, RAM_FLAGS)
    }
}

/// Number of pages covering `size` bytes: `ceil(size / 4096)`.
pub open spec fn pages_for(size: nat) -> nat {
    (size + 4095) as nat / 4096
}

pub proof fn lemma_page_bits(p: u64)
    requires
        p % 4096 == 0,
    ensures
        p & 0xFFF == 0,
{
    assert(p % 4096 == 0 ==> p & 0xFFF == 0) by (bit_vector);
}

/// The leaf level of the kernel's page tree: the page tables, one after the
/// other, so that the entry of the page at physical `p` is entry `p / 4096`.
pub struct KernelPageTables {
    entries: Vec<PageTableEntry>,
    pd_entries: Vec<PageTableEntry>,
    pt_phys_base: u64,
    actual_max: u64,
}

impl KernelPageTables {
    pub closed spec fn view_entries(&self) -> Seq<PageTableEntry> {
        self.entries@
    }

    pub closed spec fn spec_actual_max(&self) -> u64 {
        self.actual_max
    }

    /// The page-directory entries, one per 2 MiB.
    pub closed spec fn view_pd(&self) -> Seq<PageTableEntry> {
        self.pd_entries@
    }

    /// Physical address of the first page table; table `i` follows at `i · 4 KiB`.
    pub closed spec fn spec_pt_base(&self) -> u64 {
        self.pt_phys_base
    }

    /// Raw value of page-directory entry `i`.
    pub open spec fn pd_value(&self, i: int) -> u64 {
        self.view_pd()[i].value()
    }

    /// Raw value of the entry of page `i`.
    pub open spec fn entry_value(&self, i: int) -> u64 {
        self.view_entries()[i].value()
    }

    pub open spec fn wf(&self) -> bool {
        &&& self.spec_actual_max() <= SUPPORTED_MAX
        &&& self.view_entries().len() == pt_count(self.spec_actual_max() as nat) * PAGE_TABLE_ENTRY_COUNT
        &&& self.view_pd().len() == pt_count(self.spec_actual_max() as nat)
    }

    /// Builds the kernel's mappings of `[0, min(max_physical, 8 GiB))`.
    pub fn init(max_physical: u64, sections: KernelSections, mmio: &MmioRanges, guard_page: u64, pt_phys_base: u64) -> (r: KernelPageTables)
        requires
            mmio.wf(),
            pt_phys_base % 4096 == 0,
            pt_phys_base + 0x40_0000 <= 0x10_0000_0000_0000,
        ensures
            r.wf(),
            r.spec_pt_base() == pt_phys_base,
            forall|i: int| 0 <= i < r.view_pd().len() ==> #[trigger] r.pd_value(i) == make_entry((pt_phys_base + i * 4096) as u64, RAM_FLAGS),
            r.spec_actual_max() == if max_physical < SUPPORTED_MAX { max_physical } else { SUPPORTED_MAX },
            forall|i: int| 0 <= i < r.view_entries().len() ==> #[trigger] r.entry_value(i) == initial_entry(
                (i * 4096) as u64,
                r.spec_actual_max(),
                sections,
                *mmio,
                guard_page,
            ),
            forall|i: int| 0 <= i < r.view_entries().len() ==> {
                let p = i * 4096;
                let e = #[trigger] r.entry_value(i);
                &&& (p < r.spec_actual_max() && !(p <= guard_page < p + PAGE_SIZE) && sections.in_text(p)) ==> has_flag(e, PRESENT) && !has_flag(e, WRITABLE) && !has_flag(e, NO_EXECUTE)
                &&& (p < r.spec_actual_max() && !(p <= guard_page < p + PAGE_SIZE) && !sections.in_text(p) && sections.in_rodata(p)) ==> has_flag(e, PRESENT) && !has_flag(e, WRITABLE) && has_flag(e, NO_EXECUTE)
                &&& (p < r.spec_actual_max() && !(p <= guard_page < p + PAGE_SIZE) && !sections.in_text(p) && !sections.in_rodata(p) && sections.in_data(p)) ==> has_flag(e, PRESENT) && has_flag(e, WRITABLE) && has_flag(e, NO_EXECUTE)
                &&& (p <= guard_page < p + PAGE_SIZE) ==> !has_flag(e, PRESENT)
                &&& (p < r.spec_actual_max() && p <= guard_page < p + PAGE_SIZE) ==> has_flag(e, WRITABLE) && has_flag(e, NO_EXECUTE)
                &&& (p >= r.spec_actual_max()) ==> !has_flag(e, PRESENT)
            },
    {
        let actual_max = if max_physical < SUPPORTED_MAX {
            max_physical
        } else {
            SUPPORTED_MAX
        };
        let required_pt = (actual_max + (PT_SPAN - 1)) / PT_SPAN;
        let n = (required_pt as usize) * PAGE_TABLE_ENTRY_COUNT;
        let mut entries: Vec<PageTableEntry> = Vec::new();
        let mut i: usize = 0;
        proof {
            lemma_flag_sets();
        }
        while i < n
            invariant
                i <= n,
                n == pt_count(actual_max as nat) * PAGE_TABLE_ENTRY_COUNT,
                n <= 4096 * 512 + 512,
                actual_max <= SUPPORTED_MAX,
                mmio.wf(),
                entries@.len() == i,
                forall|j: int| 0 <= j < i ==> (#[trigger] entries@[j]).value() == initial_entry(
                    (j * 4096) as u64,
                    actual_max,
                    sections,
                    *mmio,
                    guard_page,
                ),
            decreases n - i,
        {
            let p = (i as u64) * PAGE_SIZE;
            let e = if p >= actual_max {
                0
            } else if p <= guard_page && guard_page - p < PAGE_SIZE {
                (p & ADDRESS_MASK) | GUARD_FLAGS
            } else if sections.text_start <= p && p < sections.text_end {
                (p & ADDRESS_MASK) | TEXT_FLAGS
            } else if sections.rodata_start <= p && p < sections.rodata_end {
                (p & ADDRESS_MASK) | RODATA_FLAGS
            } else if sections.data_start <= p && p < sections.data_end {
                (p & ADDRESS_MASK) | DATA_FLAGS
            } else if mmio.is_mmio(p) {
                0
            } else {
                (p & ADDRESS_MASK) | RAM_FLAGS
            };
            entries.push(PageTableEntry::from_raw(e));
            i = i + 1;
        }
        proof {
            assert(required_pt <= 4096);
        }
        let pd_entries = KernelPageTables::link_tables(required_pt as usize, pt_phys_base);
        let r = KernelPageTables { entries, pd_entries, pt_phys_base, actual_max };
        proof {
            lemma_flag_sets();
            assert forall|i: int| 0 <= i < r.view_entries().len() implies {
                let p = i * 4096;
                let e = #[trigger] r.entry_value(i);
                &&& (p < r.spec_actual_max() && !(p <= guard_page < p + PAGE_SIZE) && sections.in_text(p)) ==> has_flag(e, PRESENT) && !has_flag(e, WRITABLE) && !has_flag(e, NO_EXECUTE)
                &&& (p < r.spec_actual_max() && !(p <= guard_page < p + PAGE_SIZE) && !sections.in_text(p) && sections.in_rodata(p)) ==> has_flag(e, PRESENT) && !has_flag(e, WRITABLE) && has_flag(e, NO_EXECUTE)
                &&& (p < r.spec_actual_max() && !(p <= guard_page < p + PAGE_SIZE) && !sections.in_text(p) && !sections.in_rodata(p) && sections.in_data(p)) ==> has_flag(e, PRESENT) && has_flag(e, WRITABLE) && has_flag(e, NO_EXECUTE)
                &&& (p <= guard_page < p + PAGE_SIZE) ==> !has_flag(e, PRESENT)
                &&& (p < r.spec_actual_max() && p <= guard_page < p + PAGE_SIZE) ==> has_flag(e, WRITABLE) && has_flag(e, NO_EXECUTE)
                &&& (p >= r.spec_actual_max()) ==> !has_flag(e, PRESENT)
            } by {
                let p = (i * 4096) as u64;
                assert(p == i * 4096);
                vstd::arithmetic::div_mod::lemma_mod_multiples_basic(i, 4096);
                lemma_page_bits(p);
                lemma_entry_bits(p, TEXT_FLAGS);
                lemma_entry_bits(p, RODATA_FLAGS);
                lemma_entry_bits(p, DATA_FLAGS);
                lemma_entry_bits(p, GUARD_FLAGS);
            }
        }
        r
    }

    /// One page-directory entry per page table, linking table `i` at
    /// `pt_phys_base + i · 4 KiB`, present and writable.
    fn link_tables(n: usize, pt_phys_base: u64) -> (r: Vec<PageTableEntry>)
        requires
            n <= 4097,
            pt_phys_base + 0x40_0000 <= 0x10_0000_0000_0000,
        ensures
            r@.len() == n,
            forall|i: int| 0 <= i < n ==> (#[trigger] r@[i]).value() == make_entry((pt_phys_base + i * 4096) as u64, RAM_FLAGS),
    {
        let mut pd: Vec<PageTableEntry> = Vec::new();
        let mut i: usize = 0;
        while i < n
            invariant
                i <= n,
                n <= 4097,
                pt_phys_base + 0x40_0000 <= 0x10_0000_0000_0000,
                pd@.len() == i,
                forall|j: int| 0 <= j < i ==> (#[trigger] pd@[j]).value() == make_entry((pt_phys_base + j * 4096) as u64, RAM_FLAGS),
            decreases n - i,
        {
            let table = pt_phys_base + (i as u64) * PAGE_SIZE;
            pd.push(PageTableEntry::from_raw((table & ADDRESS_MASK) | RAM_FLAGS));
            i = i + 1;
        }
        pd
    }

    /// Maps the 2 MiB at `phys` with one large-page entry, present, writable
    /// and with `extra_flags` (address bits of it ignored). Fails with
    /// `InvalidAddress` unless `phys` is 2 MiB-aligned and not zero, with
    /// `AddressOutOfRange` beyond the tables, and with
    /// `ExistingMappingConflict` while a 4 KiB page of that range is mapped.
    pub fn map_huge_2mb(&mut self, phys: u64, extra_flags: u64) -> (r: Result<u64, PagingError>)
        requires
            old(self).wf(),
            phys <= u64::MAX - KERNEL_VIRTUAL_BASE,
        ensures
            final(self).wf(),
            final(self).view_entries() == old(self).view_entries(),
            final(self).spec_actual_max() == old(self).spec_actual_max(),
            final(self).spec_pt_base() == old(self).spec_pt_base(),
            (phys == 0 || phys % PT_SPAN != 0) ==> r == Err::<u64, PagingError>(PagingError::InvalidAddress),
            (phys != 0 && phys % PT_SPAN == 0 && phys / PT_SPAN >= old(self).view_pd().len())
                ==> r == Err::<u64, PagingError>(PagingError::AddressOutOfRange),
            (phys != 0 && phys % PT_SPAN == 0 && phys / PT_SPAN < old(self).view_pd().len()) ==> {
                let idx = phys / PT_SPAN;
                let conflict = exists|k: int| idx * 512 <= k < idx * 512 + 512 && has_flag(#[trigger] old(self).entry_value(k), PRESENT);
                &&& conflict ==> r == Err::<u64, PagingError>(PagingError::ExistingMappingConflict)
                &&& !conflict ==> r == Ok::<u64, PagingError>(spec_phys_to_virt(phys) as u64)
            },
            r is Err ==> final(self).view_pd() == old(self).view_pd(),
            r is Ok ==> final(self).view_pd() == old(self).view_pd().update(
                (phys / PT_SPAN) as int,
                PageTableEntry::from_raw_spec(make_entry(phys, PRESENT | WRITABLE | HUGE_PAGE | (extra_flags & !ADDRESS_MASK))),
            ),
    {
        if phys == 0 || phys % PT_SPAN != 0 {
            return Err(PagingError::InvalidAddress);
        }
        let idx = phys / PT_SPAN;
        if idx >= self.pd_entries.len() as u64 {
            return Err(PagingError::AddressOutOfRange);
        }
        let idx = idx as usize;
        proof {
            assert(idx * 512 + 512 <= self.view_entries().len()) by (nonlinear_arith)
                requires idx < self.view_pd().len(), self.view_entries().len() == self.view_pd().len() * 512;
        }
        let first = idx * PAGE_TABLE_ENTRY_COUNT;
        let mut k: usize = 0;
        while k < PAGE_TABLE_ENTRY_COUNT
            invariant
                k <= PAGE_TABLE_ENTRY_COUNT,
                first == idx * 512,
                first + 512 <= self.view_entries().len(),
                phys != 0,
                phys % PT_SPAN == 0,
                idx == phys / PT_SPAN,
                idx < self.view_pd().len(),
                self.wf(),
                self.view_entries() == old(self).view_entries(),
                self.view_pd() == old(self).view_pd(),
                self.spec_actual_max() == old(self).spec_actual_max(),
                self.spec_pt_base() == old(self).spec_pt_base(),
                forall|j: int| first <= j < first + k ==> !has_flag(#[trigger] self.entry_value(j), PRESENT),
            decreases PAGE_TABLE_ENTRY_COUNT - k,
        {
            if self.entries[first + k].is_present() {
                assert(has_flag(old(self).entry_value((first + k) as int), PRESENT));
                return Err(PagingError::ExistingMappingConflict);
            }
            k = k + 1;
        }
        let flags = PRESENT | WRITABLE | HUGE_PAGE | (extra_flags & !ADDRESS_MASK);
        self.pd_entries.set(idx, PageTableEntry::from_raw((phys & ADDRESS_MASK) | flags));
        Ok(phys + KERNEL_VIRTUAL_BASE)
    }

    /// Maps a frame buffer of `size` bytes at `phys` with 2 MiB pages when
    /// `phys` is 2 MiB-aligned (and not zero); otherwise leaves the 4 KiB
    /// mappings in place and returns `Ok(false)`. Large pages are present and
    /// writable; the call fails, changing nothing, with `AddressOutOfRange`
    /// when they would run past the page directory and with
    /// `ExistingMappingConflict` while a 4 KiB page of their range is mapped.
    pub fn map_framebuffer_huge(&mut self, phys: u64, size: u64) -> (r: Result<bool, PagingError>)
        requires
            old(self).wf(),
            phys <= u64::MAX - KERNEL_VIRTUAL_BASE,
        ensures
            final(self).wf(),
            final(self).view_entries() == old(self).view_entries(),
            final(self).spec_actual_max() == old(self).spec_actual_max(),
            final(self).spec_pt_base() == old(self).spec_pt_base(),
            r is Err || r == Ok::<bool, PagingError>(false) ==> final(self).view_pd() == old(self).view_pd(),
            (phys == 0 || phys % PT_SPAN != 0) ==> r == Ok::<bool, PagingError>(false),
            (phys != 0 && phys % PT_SPAN == 0) ==> ({
                let idx = phys / PT_SPAN;
                let n = huge_chunks(size as nat);
                let conflict = exists|k: int| idx * 512 <= k < (idx + n) * 512 && has_flag(#[trigger] old(self).entry_value(k), PRESENT);
                &&& idx + n > old(self).view_pd().len() ==> r == Err::<bool, PagingError>(PagingError::AddressOutOfRange)
                &&& idx + n <= old(self).view_pd().len() && conflict ==> r == Err::<bool, PagingError>(PagingError::ExistingMappingConflict)
                &&& idx + n <= old(self).view_pd().len() && !conflict ==> {
                    &&& r == Ok::<bool, PagingError>(true)
                    &&& final(self).view_pd().len() == old(self).view_pd().len()
                    &&& forall|i: int| 0 <= i < final(self).view_pd().len() ==> #[trigger] final(self).view_pd()[i] == if idx <= i < idx + n {
                        PageTableEntry::from_raw_spec(make_entry((phys + (i - idx) * PT_SPAN) as u64, HUGE_FLAGS))
                    } else {
                        old(self).view_pd()[i]
                    }
                }
            }),
    {
        if phys == 0 || phys % PT_SPAN != 0 {
            return Ok(false);
        }
        let idx = phys / PT_SPAN;
        let n = size / PT_SPAN + if size % PT_SPAN != 0 { 1 } else { 0 };
        proof {
            assert(n == huge_chunks(size as nat)) by (nonlinear_arith)
                requires n == size / 0x20_0000 + if size % 0x20_0000 != 0 { 1int } else { 0int };
        }
        let len = self.pd_entries.len() as u64;
        if idx > len || n > len - idx {
            return Err(PagingError::AddressOutOfRange);
        }
        let idx = idx as usize;
        let n = n as usize;
        proof {
            assert((idx + n) * 512 <= self.view_entries().len()) by (nonlinear_arith)
                requires idx + n <= self.view_pd().len(), self.view_entries().len() == self.view_pd().len() * 512;
        }
        let first = idx * PAGE_TABLE_ENTRY_COUNT;
        let last = (idx + n) * PAGE_TABLE_ENTRY_COUNT;
        let mut k: usize = first;
        while k < last
            invariant
                first <= k <= last,
                first == idx * 512,
                last == (idx + n) * 512,
                last <= self.view_entries().len(),
                self.view_entries() == old(self).view_entries(),
                self.view_pd() == old(self).view_pd(),
                self.spec_actual_max() == old(self).spec_actual_max(),
                self.spec_pt_base() == old(self).spec_pt_base(),
                self.wf(),
                phys != 0,
                phys % PT_SPAN == 0,
                idx == phys / PT_SPAN,
                n == huge_chunks(size as nat),
                idx + n <= self.view_pd().len(),
                forall|j: int| first <= j < k ==> !has_flag(#[trigger] old(self).entry_value(j), PRESENT),
            decreases last - k,
        {
            if self.entries[k].is_present() {
                assert(has_flag(old(self).entry_value(k as int), PRESENT));
                return Err(PagingError::ExistingMappingConflict);
            }
            k = k + 1;
        }
        let mut c: usize = 0;
        while c < n
            invariant
                c <= n,
                idx + n <= self.view_pd().len(),
                idx == phys / PT_SPAN,
                phys % PT_SPAN == 0,
                phys <= u64::MAX - KERNEL_VIRTUAL_BASE,
                self.wf(),
                self.view_entries() == old(self).view_entries(),
                self.view_pd().len() == old(self).view_pd().len(),
                self.spec_actual_max() == old(self).spec_actual_max(),
                self.spec_pt_base() == old(self).spec_pt_base(),
                forall|i: int| 0 <= i < self.view_pd().len() ==> #[trigger] self.view_pd()[i] == if idx <= i < idx + c {
                    PageTableEntry::from_raw_spec(make_entry((phys + (i - idx) * PT_SPAN) as u64, HUGE_FLAGS))
                } else {
                    old(self).view_pd()[i]
                },
            decreases n - c,
        {
            proof {
                assert(phys + (c as int) * PT_SPAN < 0x10_0000_0000_0000_0000) by (nonlinear_arith)
                    requires c < n, idx + n <= 4097, phys == idx * 0x20_0000 + 0;
                assert(self.view_pd().len() <= 4097) by {
                    assert(pt_count(self.spec_actual_max() as nat) <= 4097);
                }
            }
            let addr = phys + (c as u64) * PT_SPAN;
            self.pd_entries.set(idx + c, PageTableEntry::from_raw((addr & ADDRESS_MASK) | HUGE_FLAGS));
            c = c + 1;
        }
        Ok(true)
    }

    /// Maps `ceil(size / 4 KiB)` pages from `phys` on as MMIO (present,
    /// writable, uncached, not executable), over whatever mapped them
    /// before, and returns their kernel address.
    pub fn map_mmio(&mut self, phys: u64, size: u64) -> (r: Result<u64, PagingError>)
        requires
            old(self).wf(),
            phys % 4096 == 0,
            phys <= u64::MAX - KERNEL_VIRTUAL_BASE,
        ensures
            final(self).wf(),
            final(self).spec_actual_max() == old(self).spec_actual_max(),
            phys == 0 ==> r == Err::<u64, PagingError>(PagingError::InvalidAddress),
            phys != 0 && phys / 4096 + pages_for(size as nat) > old(self).view_entries().len() ==> r == Err::<u64, PagingError>(PagingError::AddressOutOfRange),
            r is Err ==> final(self).view_entries() == old(self).view_entries(),
            phys != 0 && phys / 4096 + pages_for(size as nat) <= old(self).view_entries().len() ==> {
                &&& r == Ok::<u64, PagingError>(spec_phys_to_virt(phys) as u64)
                &&& final(self).view_entries().len() == old(self).view_entries().len()
                &&& forall|i: int| 0 <= i < final(self).view_entries().len() ==> #[trigger] final(self).entry_value(i) == if phys / 4096 <= i < phys / 4096 + pages_for(size as nat) {
                    make_entry((i * 4096) as u64, MMIO_FLAGS)
                } else {
                    old(self).entry_value(i)
                }
                &&& forall|i: int| phys / 4096 <= i < phys / 4096 + pages_for(size as nat) ==> {
                    let e = #[trigger] final(self).entry_value(i);
                    has_flag(e, PRESENT) && has_flag(e, WRITABLE) && has_flag(e, CACHE_DISABLE) && has_flag(e, NO_EXECUTE)
                }
            },
    {
        if phys == 0 {
            return Err(PagingError::InvalidAddress);
        }
        let pages = size / PAGE_SIZE + if size % PAGE_SIZE != 0 { 1 } else { 0 };
        let first = phys / PAGE_SIZE;
        proof {
            assert(pages == pages_for(size as nat)) by (nonlinear_arith)
                requires pages == size / 4096 + if size % 4096 != 0 { 1int } else { 0int };
        }
        if first > self.entries.len() as u64 || pages > self.entries.len() as u64 - first {
            return Err(PagingError::AddressOutOfRange);
        }
        let first = first as usize;
        let pages = pages as usize;
        let mut k: usize = 0;
        while k < pages
            invariant
                k <= pages,
                first + pages <= self.view_entries().len(),
                self.view_entries().len() == old(self).view_entries().len(),
                self.spec_actual_max() == old(self).spec_actual_max(),
                self.view_pd() == old(self).view_pd(),
                self.spec_pt_base() == old(self).spec_pt_base(),
                old(self).wf(),
                first == phys / 4096,
                self.view_entries().len() <= 4096 * 512 + 512,
                forall|i: int| 0 <= i < self.view_entries().len() ==> #[trigger] self.entry_value(i) == if first <= i < first + k {
                    make_entry((i * 4096) as u64, MMIO_FLAGS)
                } else {
                    old(self).entry_value(i)
                },
            decreases pages - k,
        {
            let page = ((first + k) as u64) * PAGE_SIZE;
            let ghost before = self.view_entries();
            let ghost pre = *self;
            self.entries.set(first + k, PageTableEntry::from_raw((page & ADDRESS_MASK) | MMIO_FLAGS));
            proof {
                assert(page == ((first + k) * 4096) as u64);
                assert(self.view_entries() == before.update((first + k) as int, PageTableEntry::from_raw_spec(make_entry(page, MMIO_FLAGS))));
                PageTableEntry::lemma_from_raw_value(make_entry(page, MMIO_FLAGS));
                assert(self.entry_value((first + k) as int) == make_entry((((first + k) as int) * 4096) as u64, MMIO_FLAGS));
                assert forall|i: int| 0 <= i < self.view_entries().len() implies #[trigger] self.entry_value(i) == if first <= i < first + k + 1 {
                    make_entry((i * 4096) as u64, MMIO_FLAGS)
                } else {
                    old(self).entry_value(i)
                } by {
                    if i != first + k {
                        assert(self.entry_value(i) == pre.entry_value(i));
                    }
                }
            }
            k = k + 1;
        }
        proof {
            lemma_flag_sets();
            assert forall|i: int| phys / 4096 <= i < phys / 4096 + pages_for(size as nat) implies {
                let e = #[trigger] self.entry_value(i);
                has_flag(e, PRESENT) && has_flag(e, WRITABLE) && has_flag(e, CACHE_DISABLE) && has_flag(e, NO_EXECUTE)
            } by {
                let p = (i * 4096) as u64;
                assert(p == i * 4096);
                vstd::arithmetic::div_mod::lemma_mod_multiples_basic(i, 4096);
                lemma_page_bits(p);
                lemma_entry_bits(p, MMIO_FLAGS);
            }
        }
        Ok(phys + KERNEL_VIRTUAL_BASE)
    }

    /// The entry that maps kernel address `v`, if the tables cover it.
    pub fn entry_for_virt(&self, v: u64) -> (r: Option<PageTableEntry>)
        ensures
            v >= KERNEL_VIRTUAL_BASE && (v - KERNEL_VIRTUAL_BASE) / 4096 < self.view_entries().len() ==> r == Some(self.view_entries()[(v - KERNEL_VIRTUAL_BASE) / 4096]),
            !(v >= KERNEL_VIRTUAL_BASE && (v - KERNEL_VIRTUAL_BASE) / 4096 < self.view_entries().len()) ==> r is None,
    {
        if v < KERNEL_VIRTUAL_BASE {
            return None;
        }
        let idx = (v - KERNEL_VIRTUAL_BASE) / PAGE_SIZE;
        if idx >= self.entries.len() as u64 {
            return None;
        }
        Some(self.entries[idx as usize])
    }

    /// Page-directory entry `i`, the one mapping `[i · 2 MiB, (i + 1) · 2 MiB)`.
    pub fn pd_entry(&self, i: usize) -> (r: Option<PageTableEntry>)
        ensures
            i < self.view_pd().len() ==> r == Some(self.view_pd()[i as int]),
            i >= self.view_pd().len() ==> r is None,
    {
        if i < self.pd_entries.len() {
            Some(self.pd_entries[i])
        } else {
            None
        }
    }

    /// Number of page entries.
    pub fn page_count(&self) -> (r: usize)
        ensures
            r == self.view_entries().len(),
    {
        self.entries.len()
    }
}

} // verus!
