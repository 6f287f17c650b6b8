use vitros_kernel::paging::{
    phys_to_virt, virt_to_phys, KernelPageTables, KernelSections, MemoryRegion, MmioRanges, PageTable,
    PageTableEntry, PageTableFlags, PagingError, KERNEL_VIRTUAL_BASE,
};

const PT_BASE: u64 = 0x80_0000;

fn sections() -> KernelSections {
    KernelSections {
        text_start: 0x10_0000,
        text_end: 0x10_3000,
        rodata_start: 0x10_3000,
        rodata_end: 0x10_5000,
        data_start: 0x10_5000,
        data_end: 0x11_0000,
    }
}

#[test]
fn phys_virt_round_trip() {
    for &p in &[1u64, 0x1000, 0xFEE0_0000, 0x2_0000_0000] {
        let v = phys_to_virt(p).unwrap();
        assert_eq!(v, KERNEL_VIRTUAL_BASE + p);
        assert_eq!(virt_to_phys(v), Ok(p));
    }
}

#[test]
fn address_conversion_errors() {
    assert_eq!(phys_to_virt(0), Err(PagingError::InvalidAddress));
    assert_eq!(virt_to_phys(0x1000), Err(PagingError::AddressOutOfRange));
    assert_eq!(virt_to_phys(KERNEL_VIRTUAL_BASE), Ok(0));
}

#[test]
fn entry_bits() {
    let mut e = PageTableEntry::new();
    assert!(!e.is_present());
    e.set(0x1234_5678, PageTableFlags::Present.bits() | PageTableFlags::Writable.bits());
    assert!(e.is_present());
    assert!(e.has(PageTableFlags::Writable));
    assert!(!e.has(PageTableFlags::NoExecute));
    assert_eq!(e.get_address(), 0x1234_5000);
    e.set_flags(PageTableFlags::NoExecute.bits());
    assert!(e.has(PageTableFlags::NoExecute));
    e.set_address(0xABCD_E000);
    assert_eq!(e.get_address(), 0xABCD_E000);
    assert_eq!(e.raw() & 0xFFF, 0x3);
}

#[test]
fn page_table_clear_and_entries() {
    let mut t = PageTable::new();
    t.set_entry(5, PageTableEntry::from_raw(0x2003));
    assert_eq!(t.entry(5).raw(), 0x2003);
    t.clear();
    assert_eq!(t.entry(5).raw(), 0);
    assert_eq!(t.physical_address(KERNEL_VIRTUAL_BASE + 0x9000), Ok(0x9000));
}

#[test]
fn mmio_ranges_from_memory_map() {
    let map = vec![
        MemoryRegion { start: 0x0, size: 0xA_0000, region_type: 7 },
        MemoryRegion { start: 0xFEE0_0000, size: 0x1000, region_type: 11 },
        MemoryRegion { start: 0xFEC0_0000, size: 0x1000, region_type: 11 },
        MemoryRegion { start: 0xE000_0000, size: 0x1000_0000, region_type: 12 },
        MemoryRegion { start: 0x10_0000, size: 0x100_0000, region_type: 7 },
    ];
    let m = MmioRanges::from_memory_map(&map);
    assert!(m.is_mmio(0xFEE0_0000));
    assert!(m.is_mmio(0xFEE0_0FFF));
    assert!(!m.is_mmio(0xFEE0_1000));
    assert!(m.is_mmio(0xFEC0_0800));
    assert!(m.is_mmio(0xE800_0000));
    assert!(!m.is_mmio(0x1000));
    assert!(!m.is_mmio(0xF000_0000));
}

#[test]
fn overlapping_mmio_ranges_are_merged() {
    let map = vec![
        MemoryRegion { start: 0xFEE0_0000, size: 0x2000, region_type: 11 },
        MemoryRegion { start: 0xFEE0_1000, size: 0x3000, region_type: 11 },
        MemoryRegion { start: 0xFEE0_1800, size: 0x100, region_type: 12 },
    ];
    let m = MmioRanges::from_memory_map(&map);
    assert!(m.is_mmio(0xFEE0_0000));
    assert!(m.is_mmio(0xFEE0_3FFF));
    assert!(!m.is_mmio(0xFEE0_4000));
}

#[test]
fn kernel_sections_get_w_xor_x_attributes() {
    let mmio = MmioRanges::from_memory_map(&vec![MemoryRegion { start: 0x20_0000, size: 0x2000, region_type: 11 }]);
    let guard = 0x10_F000;
    let t = KernelPageTables::init(0x40_0000, sections(), &mmio, guard, PT_BASE);
    let e = |p: u64| t.entry_for_virt(KERNEL_VIRTUAL_BASE + p).unwrap();
    let text = e(0x10_1000);
    assert!(text.is_present() && !text.has(PageTableFlags::Writable) && !text.has(PageTableFlags::NoExecute));
    assert_eq!(text.get_address(), 0x10_1000);
    let rodata = e(0x10_4000);
    assert!(rodata.is_present() && !rodata.has(PageTableFlags::Writable) && rodata.has(PageTableFlags::NoExecute));
    let data = e(0x10_6000);
    assert!(data.is_present() && data.has(PageTableFlags::Writable) && data.has(PageTableFlags::NoExecute));
    let ram = e(0x30_0000);
    assert!(ram.is_present() && ram.has(PageTableFlags::Writable) && !ram.has(PageTableFlags::NoExecute));
    assert_eq!(ram.get_address(), 0x30_0000);
    assert!(!e(guard).is_present());
    assert!(!e(0x20_1000).is_present());
    assert_eq!(t.page_count(), 1024);
    assert!(t.entry_for_virt(0x1000).is_none());
}

#[test]
fn mmio_mapping() {
    let mmio = MmioRanges::from_memory_map(&vec![MemoryRegion { start: 0xFEE0_0000, size: 0x1000, region_type: 11 }]);
    let mut t = KernelPageTables::init(0x1_0000_0000, sections(), &mmio, 0x10_F000, PT_BASE);
    assert!(!t.entry_for_virt(KERNEL_VIRTUAL_BASE + 0xFEE0_0000).unwrap().is_present());
    let v = t.map_mmio(0xFEE0_0000, 0x1000).unwrap();
    assert_eq!(v, KERNEL_VIRTUAL_BASE + 0xFEE0_0000);
    let e = t.entry_for_virt(v).unwrap();
    assert!(e.is_present());
    assert!(e.has(PageTableFlags::Writable));
    assert!(e.has(PageTableFlags::CacheDisable));
    assert!(e.has(PageTableFlags::NoExecute));
    assert_eq!(e.get_address(), 0xFEE0_0000);
    assert!(!t.entry_for_virt(v + 0x1000).unwrap().has(PageTableFlags::CacheDisable));
}

#[test]
fn mmio_mapping_covers_partial_pages_and_remaps() {
    let mmio = MmioRanges::empty();
    let mut t = KernelPageTables::init(0x40_0000, sections(), &mmio, 0x10_F000, PT_BASE);
    let v = t.map_mmio(0x30_0000, 0x1001).unwrap();
    assert!(t.entry_for_virt(v + 0x1000).unwrap().has(PageTableFlags::CacheDisable));
    assert!(!t.entry_for_virt(v + 0x2000).unwrap().has(PageTableFlags::CacheDisable));
    assert_eq!(t.map_mmio(0, 0x1000), Err(PagingError::InvalidAddress));
    assert_eq!(t.map_mmio(0x3F_F000, 0x2000), Err(PagingError::AddressOutOfRange));
}

#[test]
fn page_directory_links_the_page_tables() {
    let t = KernelPageTables::init(0x40_0000, sections(), &MmioRanges::empty(), 0x10_F000, PT_BASE);
    assert_eq!(t.pd_entry(0).unwrap().get_address(), PT_BASE);
    assert_eq!(t.pd_entry(1).unwrap().get_address(), PT_BASE + 0x1000);
    assert!(t.pd_entry(1).unwrap().has(PageTableFlags::Writable));
    assert!(t.pd_entry(2).is_none());
}

#[test]
fn huge_pages_need_alignment_and_free_range() {
    let mut t = KernelPageTables::init(0x80_0000, sections(), &MmioRanges::empty(), 0x10_F000, PT_BASE);
    assert_eq!(t.map_huge_2mb(0x30_0000, 0), Err(PagingError::InvalidAddress));
    assert_eq!(t.map_huge_2mb(0x20_0000, 0), Err(PagingError::ExistingMappingConflict));
    assert_eq!(t.map_huge_2mb(0x100_0000, 0), Err(PagingError::AddressOutOfRange));
    let mmio = MmioRanges::from_memory_map(&vec![MemoryRegion { start: 0x40_0000, size: 0x40_0000, region_type: 11 }]);
    let mut t = KernelPageTables::init(0x80_0000, sections(), &mmio, 0x10_F000, PT_BASE);
    assert_eq!(t.map_huge_2mb(0x40_0000, PageTableFlags::NoExecute.bits()), Ok(KERNEL_VIRTUAL_BASE + 0x40_0000));
    let e = t.pd_entry(2).unwrap();
    assert!(e.has(PageTableFlags::HugePage) && e.has(PageTableFlags::NoExecute) && e.is_present());
    assert_eq!(e.get_address(), 0x40_0000);
    assert_eq!(t.map_framebuffer_huge(0x60_0000, 0x1000), Ok(true));
    assert_eq!(t.pd_entry(3).unwrap().get_address(), 0x60_0000);
    assert_eq!(t.map_framebuffer_huge(0x60_0000, 0x40_0000), Err(PagingError::AddressOutOfRange));
    assert_eq!(t.map_framebuffer_huge(0x20_0000, 0x1000), Err(PagingError::ExistingMappingConflict));
    assert!(t.pd_entry(3).unwrap().has(PageTableFlags::HugePage));
    assert_eq!(t.map_framebuffer_huge(0x60_1000, 0x1000), Ok(false));
}
